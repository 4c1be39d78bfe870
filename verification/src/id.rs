//! Identifiers of styles, and how they are derived from names.

use crate::hashing::{blake2_256, blake2_256_digest};
use crate::name::BoundedName;
use vstd::prelude::*;
use vstd::std_specs::cmp::PartialEqSpecImpl;

verus! {

/// The identifier of a style or sub-style: 256 bits, derived from its name
/// and, for a sub-style, from its parent's identifier.
#[derive(Debug, Clone, Copy, Eq)]
pub struct StyleId(pub [u8; 32]);

impl View for StyleId {
    type V = Seq<u8>;

    open spec fn view(&self) -> Seq<u8> {
        self.0@
    }
}

impl StyleId {
    pub fn from_bytes(bytes: [u8; 32]) -> (id: StyleId)
        ensures
            id@ == bytes@,
    {
        StyleId(bytes)
    }

    pub fn to_bytes(&self) -> (bytes: [u8; 32])
        ensures
            bytes@ == self@,
    {
        self.0
    }
}

impl PartialEq for StyleId {
    /// Identifiers are equal when their bytes are.
    fn eq(&self, other: &StyleId) -> (equal: bool) {
        let mut i: usize = 0;
        while i < 32
            invariant
                i <= 32,
                forall|k: int| 0 <= k < i ==> self.0@[k] == other.0@[k],
            decreases 32 - i,
        {
            if self.0[i] != other.0[i] {
                return false;
            }
            i += 1;
        }
        assert(self.0@ =~= other.0@);
        true
    }
}

impl PartialEqSpecImpl for StyleId {
    open spec fn obeys_eq_spec() -> bool {
        true
    }

    open spec fn eq_spec(&self, other: &StyleId) -> bool {
        self@ == other@
    }
}

/// The bytes that are hashed for an identifier: the parent's identifier, if
/// there is a parent, followed by the name.
pub open spec fn id_preimage_spec(parent: Option<Seq<u8>>, name: Seq<u8>) -> Seq<u8> {
    match parent {
        Some(p) => p + name,
        None => name,
    }
}

/// The identifier derived from `parent` and `name`.
pub open spec fn derive_id_spec(parent: Option<Seq<u8>>, name: Seq<u8>) -> Seq<u8> {
    blake2_256(id_preimage_spec(parent, name))
}

/// The view of an optional parent identifier.
pub open spec fn parent_view(parent: Option<StyleId>) -> Option<Seq<u8>> {
    match parent {
        Some(p) => Some(p@),
        None => None,
    }
}

/// Builds the bytes that are hashed for an identifier.
pub fn id_preimage(parent: Option<StyleId>, name: &Vec<u8>) -> (bytes: Vec<u8>)
    ensures
        bytes@ == id_preimage_spec(parent_view(parent), name@),
{
    let mut bytes: Vec<u8> = Vec::new();
    if let Some(p) = parent {
        let mut i: usize = 0;
        while i < 32
            invariant
                i <= 32,
                bytes@ == p@.take(i as int),
            decreases 32 - i,
        {
            bytes.push(p.0[i]);
            i += 1;
        }
    }
    let ghost head = bytes@;
    let mut j: usize = 0;
    while j < name.len()
        invariant
            j <= name.len(),
            bytes@ == head + name@.take(j as int),
        decreases name.len() - j,
    {
        bytes.push(name[j]);
        j += 1;
    }
    bytes
}

/// Derives the identifier of the style called `name`, under `parent` if it
/// is a sub-style. The same inputs always give the same identifier.
pub fn derive_id(parent: Option<StyleId>, name: &BoundedName) -> (id: StyleId)
    ensures
        id@ == derive_id_spec(parent_view(parent), name@),
{
    let bytes = id_preimage(parent, name.as_bytes());
    StyleId::from_bytes(blake2_256_digest(&bytes))
}

} // verus!
