//! The hash function that identifiers are derived with.

use vstd::prelude::*;

verus! {

/// The Blake2b digest of `data` at 256 bits, as the 32 bytes that
/// `sp_runtime::traits::BlakeTwo256` produces for it.
pub uninterp spec fn blake2_256(data: Seq<u8>) -> Seq<u8>;

/// Calls `sp_runtime::traits::Hash::hash` of `BlakeTwo256` on `data`.
///
/// Trusted: the digest depends on the bytes of `data` alone, so it is the
/// value that `blake2_256` names.
#[verifier::external_body]
pub(crate) fn blake2_256_digest(data: &Vec<u8>) -> (digest: [u8; 32])
    ensures
        digest@ == blake2_256(data@),
{
    <sp_runtime::traits::BlakeTwo256 as sp_runtime::traits::Hash>::hash(data.as_slice()).0
}

} // verus!
