//! Names of styles: byte strings of bounded length.

use crate::error::Error;
use vstd::prelude::*;
use vstd::std_specs::cmp::PartialEqSpecImpl;

verus! {

/// Whether `bytes` can be a name under the limit `max_length`: at least one
/// byte and at most `max_length` of them.
pub open spec fn name_fits(bytes: Seq<u8>, max_length: u32) -> bool {
    1 <= bytes.len() <= max_length
}

/// Whether two byte strings are equal, byte by byte.
pub fn bytes_eq(a: &Vec<u8>, b: &Vec<u8>) -> (equal: bool)
    ensures
        equal == (a@ == b@),
{
    if a.len() != b.len() {
        return false;
    }
    let mut i: usize = 0;
    while i < a.len()
        invariant
            a.len() == b.len(),
            i <= a.len(),
            forall|k: int| 0 <= k < i ==> a@[k] == b@[k],
        decreases a.len() - i,
    {
        if a[i] != b[i] {
            return false;
        }
        i += 1;
    }
    assert(a@ =~= b@);
    true
}

/// A copy of a byte string.
pub fn bytes_copy(a: &Vec<u8>) -> (copy: Vec<u8>)
    ensures
        copy@ == a@,
{
    let mut copy: Vec<u8> = Vec::new();
    let mut i: usize = 0;
    while i < a.len()
        invariant
            i <= a.len(),
            copy@ == a@.take(i as int),
        decreases a.len() - i,
    {
        copy.push(a[i]);
        i += 1;
    }
    copy
}

/// A name: a byte string that was found to fit a limit when it was made,
/// and that is never empty. A name is its bytes and nothing more.
#[derive(Debug, Eq)]
pub struct BoundedName {
    bytes: Vec<u8>,
}

impl View for BoundedName {
    type V = Seq<u8>;

    closed spec fn view(&self) -> Seq<u8> {
        self.bytes@
    }
}

impl BoundedName {
    #[verifier::type_invariant]
    closed spec fn not_empty(self) -> bool {
        self.bytes@.len() >= 1
    }

    /// Makes a name of `bytes`, unless they are empty or more than `max_length`.
    pub fn make(bytes: Vec<u8>, max_length: u32) -> (made: Result<BoundedName, Error>)
        ensures
            name_fits(bytes@, max_length) ==> made is Ok && made->Ok_0@ == bytes@,
            !name_fits(bytes@, max_length) ==> made == Err::<BoundedName, Error>(
                Error::NameTooLong,
            ),
    {
        if bytes.len() == 0 || bytes.len() > max_length as usize {
            Err(Error::NameTooLong)
        } else {
            Ok(BoundedName { bytes })
        }
    }

    /// The bytes of the name.
    pub fn as_bytes(&self) -> (bytes: &Vec<u8>)
        ensures
            bytes@ == self@,
    {
        &self.bytes
    }

    /// The bytes of the name, by value.
    pub fn into_bytes(self) -> (bytes: Vec<u8>)
        ensures
            bytes@ == self@,
    {
        self.bytes
    }

    /// The number of bytes, which is never zero.
    pub fn len(&self) -> (n: usize)
        ensures
            n == self@.len(),
            n >= 1,
    {
        proof {
            use_type_invariant(self);
        }
        self.bytes.len()
    }

    /// Whether the name is exactly `bytes`.
    pub fn has_bytes(&self, bytes: &Vec<u8>) -> (equal: bool)
        ensures
            equal == (self@ == bytes@),
    {
        bytes_eq(&self.bytes, bytes)
    }
}

impl Clone for BoundedName {
    fn clone(&self) -> (copy: Self)
        ensures
            copy@ == self@,
    {
        proof {
            use_type_invariant(self);
        }
        BoundedName { bytes: bytes_copy(&self.bytes) }
    }
}

impl PartialEq for BoundedName {
    /// Names are equal when their bytes are.
    fn eq(&self, other: &BoundedName) -> (equal: bool) {
        bytes_eq(&self.bytes, &other.bytes)
    }
}

impl PartialEqSpecImpl for BoundedName {
    open spec fn obeys_eq_spec() -> bool {
        true
    }

    open spec fn eq_spec(&self, other: &BoundedName) -> bool {
        self@ == other@
    }
}

} // verus!
