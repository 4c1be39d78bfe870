//! What the registry tells of its changes.

use crate::id::StyleId;
use crate::name::bytes_copy;
use vstd::prelude::*;

verus! {

/// What an event says, as plain values.
pub enum EventView {
    StyleAdded(Seq<u8>),
    SubStyleAdded(Seq<u8>),
    StyleNameUpdated(Seq<u8>, Seq<u8>),
    SubStyleNameUpdated(Seq<u8>, Seq<u8>),
    StyleRemoved(Seq<u8>),
    SubStyleRemoved(Seq<u8>),
}

/// A change to the registry, for whoever follows it from outside.
#[derive(Debug, PartialEq, Eq)]
pub enum Event {
    /// A new style has been added, with this name.
    StyleAdded(Vec<u8>),
    /// A new sub-style has been added, with this name.
    SubStyleAdded(Vec<u8>),
    /// A style has been renamed (old name, new name).
    StyleNameUpdated(Vec<u8>, Vec<u8>),
    /// A sub-style has been renamed (old name, new name).
    SubStyleNameUpdated(Vec<u8>, Vec<u8>),
    /// The style with this identifier has been removed, with its sub-styles.
    StyleRemoved(StyleId),
    /// The sub-style with this identifier has been removed.
    SubStyleRemoved(StyleId),
}

impl View for Event {
    type V = EventView;

    open spec fn view(&self) -> EventView {
        match self {
            Event::StyleAdded(name) => EventView::StyleAdded(name@),
            Event::SubStyleAdded(name) => EventView::SubStyleAdded(name@),
            Event::StyleNameUpdated(old_name, new_name) => EventView::StyleNameUpdated(
                old_name@,
                new_name@,
            ),
            Event::SubStyleNameUpdated(old_name, new_name) => EventView::SubStyleNameUpdated(
                old_name@,
                new_name@,
            ),
            Event::StyleRemoved(id) => EventView::StyleRemoved(id@),
            Event::SubStyleRemoved(id) => EventView::SubStyleRemoved(id@),
        }
    }
}

impl Clone for Event {
    fn clone(&self) -> (copy: Self)
        ensures
            copy@ == self@,
    {
        match self {
            Event::StyleAdded(name) => Event::StyleAdded(bytes_copy(name)),
            Event::SubStyleAdded(name) => Event::SubStyleAdded(bytes_copy(name)),
            Event::StyleNameUpdated(old_name, new_name) => Event::StyleNameUpdated(
                bytes_copy(old_name),
                bytes_copy(new_name),
            ),
            Event::SubStyleNameUpdated(old_name, new_name) => Event::SubStyleNameUpdated(
                bytes_copy(old_name),
                bytes_copy(new_name),
            ),
            Event::StyleRemoved(id) => Event::StyleRemoved(*id),
            Event::SubStyleRemoved(id) => Event::SubStyleRemoved(*id),
        }
    }
}

/// The views of a list of events, in order.
pub open spec fn events_view(events: Seq<Event>) -> Seq<EventView> {
    Seq::new(events.len(), |k: int| events[k]@)
}

} // verus!
