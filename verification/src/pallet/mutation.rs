//! Changes to the registry with identifiers given: inserting, renaming,
//! removing. Each is all or nothing.

use crate::config::Config;
use crate::error::Error;
use crate::event::Event;
use crate::id::StyleId;
use crate::key::{entries_view, StyleKey, SubEntry};
use crate::lemmas::{
    lemma_first_fault, lemma_insert_parent_well_formed, lemma_insert_sub_well_formed,
    lemma_insert_subs_refused_early, lemma_insert_subs_step, lemma_remove_well_formed,
    lemma_rename_well_formed, lemma_style_index,
};
use crate::model::{
    checked_add_subs_outcome, entry_names, has_repeat, holds_id, insert_parent_outcome,
    insert_style_outcome, insert_sub_outcome, insert_subs_outcome, remove_event,
    remove_key_outcome, remove_outcome, rename_event, rename_outcome, resolve_spec,
    sub_name_fault, sub_names_error, with_sub_pushed, with_sub_removed, with_sub_renamed, Pos,
};
use crate::name::{bytes_copy, name_fits, BoundedName};
use crate::pallet::{reports, Pallet};
use crate::search::{
    locate_sub_id, place_for, position_of_style_id, position_of_style_named,
    position_of_sub_named,
};
use crate::style::{styles_view, sub_styles_view, Style, StyleView, SubStyle, SubStyleView};
use vstd::prelude::*;

verus! {

impl Pallet {
    /// Tells whether a top-level style with the identifier `id` and the name
    /// `name` could be inserted, and why not if it could not.
    pub fn can_insert_parent(&self, id: &StyleId, name: &BoundedName) -> (result: Result<
        (),
        Error,
    >)
        ensures
            match result {
                Ok(_) => insert_parent_outcome(self@, self.limits(), id@, name@) is Ok,
                Err(e) => insert_parent_outcome(self@, self.limits(), id@, name@) == Err::<
                    Seq<StyleView>,
                    Error,
                >(e),
            },
    {
        if name.len() > self.config.name_max_length as usize {
            return Err(Error::NameTooLong);
        }
        if position_of_style_named(&self.styles, name.as_bytes()).is_some() || self.contains_id(
            id,
        ) {
            return Err(Error::NameAlreadyExists);
        }
        if self.styles.len() >= self.config.max_styles as usize {
            return Err(Error::StylesCapacity);
        }
        Ok(())
    }

    /// Inserts a top-level style with the identifier `id`, the name `name`
    /// and no sub-styles, at the place its name takes among the others. A
    /// refusal leaves the registry as it was.
    pub fn insert_parent(&mut self, id: StyleId, name: BoundedName) -> (result: Result<(), Error>)
        ensures
            reports(
                result,
                final(self)@,
                insert_parent_outcome(old(self)@, old(self).limits(), id@, name@),
            ),
            result is Err ==> *final(self) == *old(self),
            final(self).limits() == old(self).limits(),
    {
        proof {
            use_type_invariant(&*self);
        }
        self.can_insert_parent(&id, &name)?;
        let ghost before = self@;
        let ghost added = StyleView { id: id@, name: name@, sub_styles: Seq::empty() };
        let mut styles: Vec<Style> = Vec::new();
        std::mem::swap(&mut styles, &mut self.styles);
        let place = place_for(&styles, name.as_bytes());
        styles.insert(place, Style { id, name, sub_styles: Vec::new() });
        proof {
            assert(sub_styles_view(Seq::<SubStyle>::empty()) =~= Seq::<SubStyleView>::empty());
            assert(styles_view(styles@) =~= before.insert(place as int, added));
            lemma_insert_parent_well_formed(before, self.config, added.id, added.name);
        }
        self.styles = styles;
        Ok(())
    }

    /// Tells whether `entry` could be inserted as a sub-style of the style
    /// with the identifier `parent`: where that style stands if it could, and
    /// why not if it could not.
    pub fn can_insert_sub_style(&self, parent: &StyleId, entry: &SubEntry) -> (result: Result<
        usize,
        Error,
    >)
        ensures
            match result {
                Ok(p) => {
                    &&& holds_id(self@, Pos::Style(p as int), parent@)
                    &&& insert_sub_outcome(self@, self.limits(), parent@, entry@) == Ok::<
                        Seq<StyleView>,
                        Error,
                    >(
                        with_sub_pushed(
                            self@,
                            p as int,
                            SubStyleView { id: entry@.id, name: entry@.name, parent_id: parent@ },
                        ),
                    )
                },
                Err(e) => insert_sub_outcome(self@, self.limits(), parent@, entry@) == Err::<
                    Seq<StyleView>,
                    Error,
                >(e),
            },
    {
        proof {
            use_type_invariant(self);
        }
        let p = match position_of_style_id(&self.styles, parent) {
            Some(p) => p,
            None => {
                return Err(Error::StyleNotFound);
            },
        };
        if entry.name.len() > self.config.name_max_length as usize {
            return Err(Error::NameTooLong);
        }
        if position_of_sub_named(&self.styles[p].sub_styles, entry.name.as_bytes()).is_some()
            || self.contains_id(&entry.id) {
            return Err(Error::NameAlreadyExists);
        }
        if self.styles[p].sub_styles.len() >= self.config.max_sub_styles as usize {
            return Err(Error::StylesCapacity);
        }
        Ok(p)
    }

    /// Inserts `entry` as the last sub-style of the style with the
    /// identifier `parent`. A refusal leaves the registry as it was.
    pub fn insert_sub_style(&mut self, parent: &StyleId, entry: SubEntry) -> (result: Result<
        (),
        Error,
    >)
        ensures
            reports(
                result,
                final(self)@,
                insert_sub_outcome(old(self)@, old(self).limits(), parent@, entry@),
            ),
            result is Err ==> *final(self) == *old(self),
            final(self).limits() == old(self).limits(),
    {
        proof {
            use_type_invariant(&*self);
        }
        let p = self.can_insert_sub_style(parent, &entry)?;
        let ghost before = self@;
        let ghost record = SubStyleView { id: entry@.id, name: entry@.name, parent_id: parent@ };
        let mut styles: Vec<Style> = Vec::new();
        std::mem::swap(&mut styles, &mut self.styles);
        let ghost old_styles = styles@;
        styles[p].sub_styles.push(SubStyle { id: entry.id, name: entry.name, parent_id: *parent });
        proof {
            assert(sub_styles_view(styles@[p as int].sub_styles@) =~= sub_styles_view(
                old_styles[p as int].sub_styles@,
            ).push(record));
            assert(styles_view(styles@) =~= with_sub_pushed(before, p as int, record));
            lemma_insert_sub_well_formed(before, self.config, parent@, entry@);
        }
        self.styles = styles;
        Ok(())
    }

    /// Inserts `subs` one after the other under the style with the
    /// identifier `parent`, and stops at the first refusal, with what came
    /// before it already inserted.
    fn insert_each(&mut self, parent: &StyleId, subs: &Vec<SubEntry>) -> (result: Result<
        (),
        Error,
    >)
        ensures
            reports(
                result,
                final(self)@,
                insert_subs_outcome(old(self)@, old(self).limits(), parent@, entries_view(subs@)),
            ),
            final(self).limits() == old(self).limits(),
    {
        let ghost start = self@;
        let ghost cfg = self.limits();
        let ghost entries = entries_view(subs@);
        let mut k: usize = 0;
        while k < subs.len()
            invariant
                k <= subs.len(),
                entries == entries_view(subs@),
                start == old(self)@,
                cfg == old(self).limits(),
                self.limits() == cfg,
                insert_subs_outcome(start, cfg, parent@, entries.take(k as int)) == Ok::<
                    Seq<StyleView>,
                    Error,
                >(self@),
            decreases subs.len() - k,
        {
            proof {
                lemma_insert_subs_step(start, cfg, parent@, entries, k as int);
            }
            let entry = subs[k].clone();
            let step = self.insert_sub_style(parent, entry);
            match step {
                Ok(_) => {},
                Err(e) => {
                    proof {
                        lemma_insert_subs_refused_early(start, cfg, parent@, entries, k + 1);
                    }
                    return Err(e);
                },
            }
            k += 1;
        }
        assert(entries.take(subs.len() as int) =~= entries);
        Ok(())
    }

    /// Inserts `subs` one after the other as the last sub-styles of the
    /// style with the identifier `into`: all of them, or none. A refusal
    /// leaves the registry as it was.
    pub fn checked_add_subs(&mut self, subs: &Vec<SubEntry>, into: &StyleId) -> (result: Result<
        (),
        Error,
    >)
        ensures
            reports(
                result,
                final(self)@,
                checked_add_subs_outcome(
                    old(self)@,
                    old(self).limits(),
                    into@,
                    entries_view(subs@),
                ),
            ),
            result is Err ==> *final(self) == *old(self),
            final(self).limits() == old(self).limits(),
    {
        if position_of_style_id(&self.styles, into).is_none() {
            return Err(Error::StyleNotFound);
        }
        let mut candidate = self.clone();
        candidate.insert_each(into, subs)?;
        *self = candidate;
        Ok(())
    }

    /// Inserts a top-level style with the identifier `id`, the name `name`
    /// and the sub-styles `subs`: the style with all of them, or nothing. A
    /// refusal leaves the registry as it was.
    pub fn insert_style(&mut self, id: StyleId, name: BoundedName, subs: &Vec<SubEntry>) -> (result:
        Result<(), Error>)
        ensures
            reports(
                result,
                final(self)@,
                insert_style_outcome(
                    old(self)@,
                    old(self).limits(),
                    id@,
                    name@,
                    entries_view(subs@),
                ),
            ),
            result is Err ==> *final(self) == *old(self),
            final(self).limits() == old(self).limits(),
    {
        self.can_insert_parent(&id, &name)?;
        check_entry_names(&self.config, subs)?;
        if entries_repeat(subs) {
            return Err(Error::DuplicatedStyle);
        }
        let mut candidate = self.clone();
        candidate.insert_parent(id, name)?;
        candidate.insert_each(&id, subs)?;
        *self = candidate;
        Ok(())
    }

    /// Makes a name of `value` under the registry's limit.
    pub fn to_bounded_style(&self, value: Vec<u8>) -> (made: Result<BoundedName, Error>)
        ensures
            match made {
                Ok(name) => name@ == value@ && name_fits(value@, self.limits().name_max_length),
                Err(e) => e == Error::NameTooLong && !name_fits(
                    value@,
                    self.limits().name_max_length,
                ),
            },
    {
        BoundedName::make(value, self.config.name_max_length)
    }

    /// Gives what `id` stands for the name `new_name`. Only the name
    /// changes: the identifier stays, and so does every link to it. A
    /// top-level style moves to the place its new name takes. A refusal
    /// leaves the registry as it was.
    pub fn update_style_name(&mut self, id: &StyleId, new_name: Vec<u8>) -> (result: Result<
        Event,
        Error,
    >)
        ensures
            reports(
                result,
                final(self)@,
                rename_outcome(old(self)@, old(self).limits(), id@, new_name@),
            ),
            result is Ok ==> result->Ok_0@ == rename_event(old(self)@, id@, new_name@),
            result is Err ==> *final(self) == *old(self),
            final(self).limits() == old(self).limits(),
    {
        proof {
            use_type_invariant(&*self);
        }
        let ghost before = self@;
        let event_name = bytes_copy(&new_name);
        let bounded = self.to_bounded_style(new_name)?;
        match position_of_style_id(&self.styles, id) {
            Some(p) => {
                if position_of_style_named(&self.styles, bounded.as_bytes()).is_some() {
                    return Err(Error::NameAlreadyExists);
                }
                let old_name = bytes_copy(self.styles[p].name.as_bytes());
                let mut styles: Vec<Style> = Vec::new();
                std::mem::swap(&mut styles, &mut self.styles);
                let mut style = styles.remove(p);
                let ghost rest = styles_view(styles@);
                style.name = bounded;
                let ghost moved = style@;
                let place = place_for(&styles, style.name.as_bytes());
                styles.insert(place, style);
                proof {
                    assert(rest =~= before.remove(p as int));
                    assert(styles_view(styles@) =~= rest.insert(place as int, moved));
                    lemma_style_index(before, self.config, p as int);
                    lemma_rename_well_formed(before, self.config, id@, event_name@);
                }
                self.styles = styles;
                Ok(Event::StyleNameUpdated(old_name, event_name))
            },
            None => match locate_sub_id(&self.styles, id) {
                Some((i, j)) => {
                    if position_of_sub_named(
                        &self.styles[i].sub_styles,
                        bounded.as_bytes(),
                    ).is_some() {
                        return Err(Error::NameAlreadyExists);
                    }
                    let old_name = bytes_copy(self.styles[i].sub_styles[j].name.as_bytes());
                    let mut styles: Vec<Style> = Vec::new();
                    std::mem::swap(&mut styles, &mut self.styles);
                    let ghost old_styles = styles@;
                    styles[i].sub_styles[j].name = bounded;
                    proof {
                        assert(sub_styles_view(styles@[i as int].sub_styles@) =~= sub_styles_view(
                            old_styles[i as int].sub_styles@,
                        ).update(
                            j as int,
                            SubStyleView {
                                name: event_name@,
                                ..before[i as int].sub_styles[j as int]
                            },
                        ));
                        assert(styles_view(styles@) =~= with_sub_renamed(
                            before,
                            i as int,
                            j as int,
                            event_name@,
                        ));
                        lemma_rename_well_formed(before, self.config, id@, event_name@);
                    }
                    self.styles = styles;
                    Ok(Event::SubStyleNameUpdated(old_name, event_name))
                },
                None => Err(Error::StyleNotFound),
            },
        }
    }

    /// Removes what the identifier `id` stands for: a top-level style goes
    /// with all its sub-styles, a sub-style goes alone. A refusal leaves the
    /// registry as it was.
    pub fn remove_id(&mut self, id: &StyleId) -> (result: Result<Event, Error>)
        ensures
            reports(result, final(self)@, remove_outcome(old(self)@, id@)),
            result is Ok ==> result->Ok_0@ == remove_event(old(self)@, id@),
            result is Err ==> *final(self) == *old(self),
            final(self).limits() == old(self).limits(),
    {
        proof {
            use_type_invariant(&*self);
        }
        let ghost before = self@;
        match position_of_style_id(&self.styles, id) {
            Some(p) => {
                let mut styles: Vec<Style> = Vec::new();
                std::mem::swap(&mut styles, &mut self.styles);
                let _ = styles.remove(p);
                proof {
                    assert(styles_view(styles@) =~= before.remove(p as int));
                    lemma_remove_well_formed(before, self.config, id@);
                }
                self.styles = styles;
                Ok(Event::StyleRemoved(*id))
            },
            None => match locate_sub_id(&self.styles, id) {
                Some((i, j)) => {
                    let mut styles: Vec<Style> = Vec::new();
                    std::mem::swap(&mut styles, &mut self.styles);
                    let ghost old_styles = styles@;
                    let _ = styles[i].sub_styles.remove(j);
                    proof {
                        assert(sub_styles_view(styles@[i as int].sub_styles@) =~= sub_styles_view(
                            old_styles[i as int].sub_styles@,
                        ).remove(j as int));
                        assert(styles_view(styles@) =~= with_sub_removed(
                            before,
                            i as int,
                            j as int,
                        ));
                        lemma_remove_well_formed(before, self.config, id@);
                    }
                    self.styles = styles;
                    Ok(Event::SubStyleRemoved(*id))
                },
                None => Err(Error::StyleNotFound),
            },
        }
    }

    /// Removes what `key` names: a top-level style goes with all its
    /// sub-styles, a sub-style goes alone. A refusal leaves the registry as
    /// it was.
    pub fn remove(&mut self, key: &StyleKey) -> (result: Result<Event, Error>)
        ensures
            reports(result, final(self)@, remove_key_outcome(old(self)@, key@)),
            result is Ok ==> resolve_spec(old(self)@, key@) is Some && result->Ok_0@
                == remove_event(old(self)@, resolve_spec(old(self)@, key@)->Some_0),
            result is Err ==> *final(self) == *old(self),
            final(self).limits() == old(self).limits(),
    {
        match self.resolve(key) {
            Some(id) => self.remove_id(&id),
            None => Err(Error::StyleNotFound),
        }
    }
}

/// Reads the names of `subs` in order as a submitted list, and gives the
/// error of the first that cannot be a name or that outgrows the limit.
pub fn check_entry_names(cfg: &Config, subs: &Vec<SubEntry>) -> (result: Result<(), Error>)
    ensures
        match result {
            Ok(_) => sub_names_error(*cfg, entry_names(entries_view(subs@))) is None,
            Err(e) => sub_names_error(*cfg, entry_names(entries_view(subs@))) == Some(e),
        },
{
    let ghost names = entry_names(entries_view(subs@));
    let mut k: usize = 0;
    while k < subs.len()
        invariant
            k <= subs.len(),
            names == entry_names(entries_view(subs@)),
            forall|m: int| 0 <= m < k ==> #[trigger] sub_name_fault(*cfg, names, m) is None,
        decreases subs.len() - k,
    {
        if subs[k].name.len() > cfg.name_max_length as usize {
            proof {
                lemma_first_fault(*cfg, names, k as int);
            }
            return Err(Error::NameTooLong);
        }
        if k >= cfg.max_sub_styles as usize {
            proof {
                lemma_first_fault(*cfg, names, k as int);
            }
            return Err(Error::StylesCapacity);
        }
        k += 1;
    }
    Ok(())
}

/// Whether two of `subs` share a name or an identifier.
pub fn entries_repeat(subs: &Vec<SubEntry>) -> (repeat: bool)
    ensures
        repeat == has_repeat(entries_view(subs@)),
{
    let ghost entries = entries_view(subs@);
    let mut l: usize = 0;
    while l < subs.len()
        invariant
            l <= subs.len(),
            entries == entries_view(subs@),
            forall|a: int, b: int|
                0 <= a < b < l ==> (#[trigger] entries[a]).name != (#[trigger] entries[b]).name
                    && entries[a].id != entries[b].id,
        decreases subs.len() - l,
    {
        let mut j: usize = 0;
        while j < l
            invariant
                j <= l < subs.len(),
                entries == entries_view(subs@),
                forall|a: int|
                    0 <= a < j ==> (#[trigger] entries[a]).name != entries[l as int].name
                        && entries[a].id != entries[l as int].id,
            decreases l - j,
        {
            if subs[j].name == subs[l].name || subs[j].id == subs[l].id {
                assert(entries[j as int].name == entries[l as int].name || entries[j as int].id
                    == entries[l as int].id);
                return true;
            }
            j += 1;
        }
        l += 1;
    }
    false
}

} // verus!
