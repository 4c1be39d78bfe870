//! Adding styles and sub-styles by name, with identifiers derived.

use crate::error::Error;
use crate::event::{events_view, Event, EventView};
use crate::id::{derive_id, StyleId};
use crate::key::{
    byte_strings_view, entries_view, names_view, optional_strings_view, StyleKey, SubEntry,
};
use crate::lemmas::{lemma_first_fault, lemma_resolved_parent_is_style};
use crate::model::{
    add_style_events, add_style_outcome, add_sub_style_outcome, derived_subs, entry_names,
    resolve_parent_spec, sub_added_events, sub_name_fault, sub_names_error, submitted,
};
use crate::name::{bytes_copy, BoundedName};
use crate::pallet::{reports, Pallet};
use crate::search::{position_of_style_id, position_of_style_named};
use vstd::prelude::*;

verus! {

/// Gives each of `names` the identifier derived for it under `parent`.
pub fn derive_entries(parent: StyleId, names: &Vec<BoundedName>) -> (entries: Vec<SubEntry>)
    ensures
        entries_view(entries@) == derived_subs(parent@, names_view(names@)),
{
    let mut entries: Vec<SubEntry> = Vec::new();
    let mut k: usize = 0;
    while k < names.len()
        invariant
            k <= names.len(),
            entries.len() == k,
            forall|m: int|
                0 <= m < k ==> (#[trigger] entries@[m])@ == derived_subs(
                    parent@,
                    names_view(names@),
                )[m],
        decreases names.len() - k,
    {
        let name = names[k].clone();
        let id = derive_id(Some(parent), &name);
        entries.push(SubEntry { id, name });
        k += 1;
    }
    entries
}

/// Appends to `events` one event for each sub-style added, in order.
pub fn push_sub_added(events: &mut Vec<Event>, names: &Vec<Vec<u8>>)
    ensures
        events_view(final(events)@) == events_view(old(events)@) + sub_added_events(
            byte_strings_view(names@),
        ),
{
    let ghost start = events_view(events@);
    let ghost added = sub_added_events(byte_strings_view(names@));
    let mut k: usize = 0;
    while k < names.len()
        invariant
            k <= names.len(),
            added == sub_added_events(byte_strings_view(names@)),
            events_view(events@) == start + added.take(k as int),
        decreases names.len() - k,
    {
        let ghost so_far = events_view(events@);
        events.push(Event::SubStyleAdded(bytes_copy(&names[k])));
        assert(events_view(events@) =~= so_far.push(EventView::SubStyleAdded(names@[k as int]@)));
        k += 1;
    }
}

impl Pallet {
    /// Makes names of `value`, read in order. The first entry that cannot be
    /// a name, or that outgrows the number of sub-styles a style may have,
    /// decides the error.
    pub fn to_bounded_sub_styles(&self, value: &Vec<Vec<u8>>) -> (made: Result<
        Vec<BoundedName>,
        Error,
    >)
        ensures
            match made {
                Ok(names) => {
                    &&& names_view(names@) == byte_strings_view(value@)
                    &&& sub_names_error(self.limits(), byte_strings_view(value@)) is None
                },
                Err(e) => sub_names_error(self.limits(), byte_strings_view(value@)) == Some(e),
            },
    {
        let ghost raw = byte_strings_view(value@);
        let ghost cfg = self.limits();
        let mut subs: Vec<BoundedName> = Vec::new();
        let mut k: usize = 0;
        while k < value.len()
            invariant
                k <= value.len(),
                subs.len() == k,
                raw == byte_strings_view(value@),
                cfg == self.limits(),
                forall|m: int| 0 <= m < k ==> (#[trigger] subs@[m])@ == raw[m],
                forall|m: int| 0 <= m < k ==> #[trigger] sub_name_fault(cfg, raw, m) is None,
            decreases value.len() - k,
        {
            let name = match BoundedName::make(bytes_copy(&value[k]), self.config.name_max_length) {
                Ok(name) => name,
                Err(e) => {
                    proof {
                        lemma_first_fault(cfg, raw, k as int);
                    }
                    return Err(e);
                },
            };
            if subs.len() >= self.config.max_sub_styles as usize {
                proof {
                    lemma_first_fault(cfg, raw, k as int);
                }
                return Err(Error::StylesCapacity);
            }
            subs.push(name);
            k += 1;
        }
        Ok(subs)
    }

    /// The identifier of the top-level style that `key` names as a parent.
    pub fn resolve_parent(&self, key: &StyleKey) -> (parent: Result<StyleId, Error>)
        ensures
            match parent {
                Ok(id) => resolve_parent_spec(self@, self.limits(), key@) == Ok::<Seq<u8>, Error>(
                    id@,
                ),
                Err(e) => resolve_parent_spec(self@, self.limits(), key@) == Err::<Seq<u8>, Error>(
                    e,
                ),
            },
    {
        proof {
            use_type_invariant(self);
        }
        match key {
            StyleKey::Id(id) => match position_of_style_id(&self.styles, id) {
                Some(_) => Ok(*id),
                None => Err(Error::StyleNotFound),
            },
            StyleKey::Name(name) => {
                let bounded = self.to_bounded_style(bytes_copy(name))?;
                match position_of_style_named(&self.styles, bounded.as_bytes()) {
                    Some(i) => {
                        Ok(self.styles[i].id)
                    },
                    None => Err(Error::StyleNotFound),
                }
            },
        }
    }

    /// Adds the style called `name`, with the sub-styles called `sub` if any
    /// are given: the style with all of them, or nothing. Every identifier is
    /// derived: the style's from its name, each sub-style's from the style's
    /// identifier and its own name. On success the events say what was added,
    /// the style first. A refusal leaves the registry as it was.
    pub fn add_style(&mut self, name: Vec<u8>, sub: Option<Vec<Vec<u8>>>) -> (result: Result<
        Vec<Event>,
        Error,
    >)
        ensures
            reports(
                result,
                final(self)@,
                add_style_outcome(
                    old(self)@,
                    old(self).limits(),
                    name@,
                    optional_strings_view(sub),
                ),
            ),
            result is Ok ==> events_view(result->Ok_0@) == add_style_events(
                name@,
                optional_strings_view(sub),
            ),
            result is Err ==> *final(self) == *old(self),
            final(self).limits() == old(self).limits(),
    {
        let ghost names = submitted(optional_strings_view(sub));
        let parent_name = self.to_bounded_style(bytes_copy(&name))?;
        let id = derive_id(None, &parent_name);
        proof {
            assert(entry_names(derived_subs(id@, names)) =~= names);
        }
        self.can_insert_parent(&id, &parent_name)?;
        let bounded_subs = match &sub {
            Some(subs) => self.to_bounded_sub_styles(subs)?,
            None => {
                let none: Vec<BoundedName> = Vec::new();
                none
            },
        };
        let entries = derive_entries(id, &bounded_subs);
        self.insert_style(id, parent_name, &entries)?;
        let mut events: Vec<Event> = Vec::new();
        events.push(Event::StyleAdded(name));
        match &sub {
            Some(subs) => {
                push_sub_added(&mut events, subs);
            },
            None => {},
        }
        Ok(events)
    }

    /// Adds the sub-styles called `subs_style` under the style that
    /// `parent_style` names: all of them, or none. Each identifier is derived
    /// from the parent's identifier and the sub-style's name. On success the
    /// events say what was added, in order. A refusal leaves the registry as
    /// it was.
    pub fn add_sub_style(&mut self, parent_style: StyleKey, subs_style: Vec<Vec<u8>>) -> (result:
        Result<Vec<Event>, Error>)
        ensures
            reports(
                result,
                final(self)@,
                add_sub_style_outcome(
                    old(self)@,
                    old(self).limits(),
                    parent_style@,
                    byte_strings_view(subs_style@),
                ),
            ),
            result is Ok ==> events_view(result->Ok_0@) == sub_added_events(
                byte_strings_view(subs_style@),
            ),
            result is Err ==> *final(self) == *old(self),
            final(self).limits() == old(self).limits(),
    {
        let parent = self.resolve_parent(&parent_style)?;
        proof {
            lemma_resolved_parent_is_style(self@, self.limits(), parent_style@);
        }
        let bounded_subs = self.to_bounded_sub_styles(&subs_style)?;
        let entries = derive_entries(parent, &bounded_subs);
        self.checked_add_subs(&entries, &parent)?;
        let mut events: Vec<Event> = Vec::new();
        push_sub_added(&mut events, &subs_style);
        Ok(events)
    }
}

} // verus!
