//! Keys that name a style, entries about to be inserted, and views of lists.

use crate::id::StyleId;
use crate::model::{StyleKeyView, SubEntryView};
use crate::name::{bytes_copy, BoundedName};
use vstd::prelude::*;

verus! {

/// A way to name a style or sub-style: by its identifier or by its name.
#[derive(Debug, PartialEq, Eq)]
pub enum StyleKey {
    Id(StyleId),
    Name(Vec<u8>),
}

impl View for StyleKey {
    type V = StyleKeyView;

    open spec fn view(&self) -> StyleKeyView {
        match self {
            StyleKey::Id(id) => StyleKeyView::Id(id@),
            StyleKey::Name(name) => StyleKeyView::Name(name@),
        }
    }
}

impl Clone for StyleKey {
    fn clone(&self) -> (copy: Self)
        ensures
            copy@ == self@,
    {
        match self {
            StyleKey::Id(id) => StyleKey::Id(*id),
            StyleKey::Name(name) => StyleKey::Name(bytes_copy(name)),
        }
    }
}

/// A sub-style about to be inserted: its identifier and its name.
#[derive(Debug, PartialEq, Eq)]
pub struct SubEntry {
    pub id: StyleId,
    pub name: BoundedName,
}

impl View for SubEntry {
    type V = SubEntryView;

    open spec fn view(&self) -> SubEntryView {
        SubEntryView { id: self.id@, name: self.name@ }
    }
}

impl Clone for SubEntry {
    fn clone(&self) -> (copy: Self)
        ensures
            copy@ == self@,
    {
        SubEntry { id: self.id, name: self.name.clone() }
    }
}

/// The views of a list of entries, in order.
pub open spec fn entries_view(entries: Seq<SubEntry>) -> Seq<SubEntryView> {
    Seq::new(entries.len(), |k: int| entries[k]@)
}

/// The views of a list of names, in order.
pub open spec fn names_view(names: Seq<BoundedName>) -> Seq<Seq<u8>> {
    Seq::new(names.len(), |k: int| names[k]@)
}

/// The views of a list of byte strings, in order.
pub open spec fn byte_strings_view(strings: Seq<Vec<u8>>) -> Seq<Seq<u8>> {
    Seq::new(strings.len(), |k: int| strings[k]@)
}

/// The view of an optional list of byte strings.
pub open spec fn optional_strings_view(strings: Option<Vec<Vec<u8>>>) -> Option<Seq<Seq<u8>>> {
    match strings {
        Some(list) => Some(byte_strings_view(list@)),
        None => None,
    }
}

} // verus!
