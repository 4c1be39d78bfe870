//! The registry as plain values: what it holds, when it is well formed,
//! and what each operation makes of it.

use crate::config::Config;
use crate::error::Error;
use crate::event::EventView;
use crate::id::derive_id_spec;
use crate::name::name_fits;
use crate::order::bytes_order;
use crate::style::{StyleKindView, StyleView, SubStyleView};
use vstd::prelude::*;

verus! {

/// A place in a registry: a top-level style, or a sub-style of one.
pub enum Pos {
    Style(int),
    Sub(int, int),
}

/// Whether `p` is a place of `reg`.
pub open spec fn valid_pos(reg: Seq<StyleView>, p: Pos) -> bool {
    match p {
        Pos::Style(i) => 0 <= i < reg.len(),
        Pos::Sub(i, j) => 0 <= i < reg.len() && 0 <= j < reg[i].sub_styles.len(),
    }
}

/// The identifier held at `p`.
pub open spec fn id_at(reg: Seq<StyleView>, p: Pos) -> Seq<u8> {
    match p {
        Pos::Style(i) => reg[i].id,
        Pos::Sub(i, j) => reg[i].sub_styles[j].id,
    }
}

/// The name held at `p`.
pub open spec fn name_at(reg: Seq<StyleView>, p: Pos) -> Seq<u8> {
    match p {
        Pos::Style(i) => reg[i].name,
        Pos::Sub(i, j) => reg[i].sub_styles[j].name,
    }
}

/// Whether `p` comes before `q`, or is `q`, when the registry is read style
/// by style, each style before its sub-styles.
pub open spec fn pos_le(p: Pos, q: Pos) -> bool {
    match (p, q) {
        (Pos::Style(i), Pos::Style(k)) => i <= k,
        (Pos::Style(i), Pos::Sub(k, _)) => i <= k,
        (Pos::Sub(i, _), Pos::Style(k)) => i < k,
        (Pos::Sub(i, j), Pos::Sub(k, l)) => i < k || (i == k && j <= l),
    }
}

/// Whether `p` is a place of `reg` that holds the identifier `id`.
pub open spec fn holds_id(reg: Seq<StyleView>, p: Pos, id: Seq<u8>) -> bool {
    valid_pos(reg, p) && id_at(reg, p) == id
}

/// Whether `p` is a place of `reg` that holds the name `name`.
pub open spec fn holds_name(reg: Seq<StyleView>, p: Pos, name: Seq<u8>) -> bool {
    valid_pos(reg, p) && name_at(reg, p) == name
}

/// Whether a top-level style has the identifier `id`.
pub open spec fn has_style_id(reg: Seq<StyleView>, id: Seq<u8>) -> bool {
    exists|i: int| #[trigger] holds_id(reg, Pos::Style(i), id)
}

/// Whether a sub-style of some style has the identifier `id`.
pub open spec fn has_sub_id(reg: Seq<StyleView>, id: Seq<u8>) -> bool {
    exists|i: int, j: int| #[trigger] holds_id(reg, Pos::Sub(i, j), id)
}

/// Whether the identifier `id` occurs in the registry, at either level.
pub open spec fn contains_id(reg: Seq<StyleView>, id: Seq<u8>) -> bool {
    has_style_id(reg, id) || has_sub_id(reg, id)
}

/// Whether a top-level style is called `name`.
pub open spec fn has_style_named(reg: Seq<StyleView>, name: Seq<u8>) -> bool {
    exists|i: int| #[trigger] holds_name(reg, Pos::Style(i), name)
}

/// Whether a sub-style of some style is called `name`.
pub open spec fn has_sub_named(reg: Seq<StyleView>, name: Seq<u8>) -> bool {
    exists|i: int, j: int| #[trigger] holds_name(reg, Pos::Sub(i, j), name)
}

/// Whether the name `name` occurs in the registry, at either level.
pub open spec fn contains_name(reg: Seq<StyleView>, name: Seq<u8>) -> bool {
    has_style_named(reg, name) || has_sub_named(reg, name)
}

/// Whether one of `subs` is called `name`.
pub open spec fn subs_have_name(subs: Seq<SubStyleView>, name: Seq<u8>) -> bool {
    exists|j: int| 0 <= j < subs.len() && (#[trigger] subs[j]).name == name
}

/// The index of a top-level style with the identifier `id`.
pub open spec fn style_index(reg: Seq<StyleView>, id: Seq<u8>) -> int {
    choose|i: int| #[trigger] holds_id(reg, Pos::Style(i), id)
}

/// The index of a top-level style called `name`.
pub open spec fn style_index_named(reg: Seq<StyleView>, name: Seq<u8>) -> int {
    choose|i: int| #[trigger] holds_name(reg, Pos::Style(i), name)
}

/// A place of a sub-style with the identifier `id`.
pub open spec fn sub_pos(reg: Seq<StyleView>, id: Seq<u8>) -> (int, int) {
    choose|i: int, j: int| #[trigger] holds_id(reg, Pos::Sub(i, j), id)
}

/// Whether `p` is the first sub-style called `name`, in reading order.
pub open spec fn is_first_sub_named(reg: Seq<StyleView>, p: Pos, name: Seq<u8>) -> bool {
    &&& p is Sub
    &&& holds_name(reg, p, name)
    &&& forall|i: int, j: int| #[trigger]
        holds_name(reg, Pos::Sub(i, j), name) ==> pos_le(p, Pos::Sub(i, j))
}

/// The first sub-style called `name`, in reading order.
pub open spec fn first_sub_named(reg: Seq<StyleView>, name: Seq<u8>) -> Pos {
    choose|p: Pos| is_first_sub_named(reg, p, name)
}

/// What every style of a registry must satisfy under the limits `cfg`: its
/// names fit, its sub-styles are no more than allowed, each points back to it,
/// and no two of them share a name.
pub open spec fn style_well_formed(style: StyleView, cfg: Config) -> bool {
    &&& name_fits(style.name, cfg.name_max_length)
    &&& style.sub_styles.len() <= cfg.max_sub_styles
    &&& forall|j: int|
        0 <= j < style.sub_styles.len() ==> {
            &&& name_fits((#[trigger] style.sub_styles[j]).name, cfg.name_max_length)
            &&& style.sub_styles[j].parent_id == style.id
        }
    &&& forall|j: int, l: int|
        0 <= j < l < style.sub_styles.len() ==> (#[trigger] style.sub_styles[j]).name != (
        #[trigger] style.sub_styles[l]).name
}

/// Whether the top-level styles stand in the order of their names, byte by
/// byte, each name before the next.
pub open spec fn names_ascend(reg: Seq<StyleView>) -> bool {
    forall|i: int, k: int|
        0 <= i < k < reg.len() ==> bytes_order((#[trigger] reg[i]).name, (#[trigger] reg[k]).name)
            < 0
}

/// The invariant of a registry under the limits `cfg`: it holds no more
/// styles than allowed, each is well formed, the top-level styles stand in
/// the order of their names, so that no two share a name, and no identifier
/// occurs at two places.
pub open spec fn well_formed(reg: Seq<StyleView>, cfg: Config) -> bool {
    &&& reg.len() <= cfg.max_styles
    &&& forall|i: int| 0 <= i < reg.len() ==> style_well_formed(#[trigger] reg[i], cfg)
    &&& names_ascend(reg)
    &&& forall|i: int, k: int|
        0 <= i < k < reg.len() ==> (#[trigger] reg[i]).name != (#[trigger] reg[k]).name
    &&& forall|p: Pos, q: Pos|
        #![trigger valid_pos(reg, p), valid_pos(reg, q)]
        valid_pos(reg, p) && valid_pos(reg, q) && id_at(reg, p) == id_at(reg, q) ==> p == q
}

/// Whether every identifier in the registry is the one derived from the
/// name it stands beside: a style's from its name, a sub-style's from its
/// parent's identifier and its own name. Adding and removing keep this;
/// renaming, which changes a name and keeps the identifier, does not.
pub open spec fn ids_derived(reg: Seq<StyleView>) -> bool {
    &&& forall|i: int|
        0 <= i < reg.len() ==> (#[trigger] reg[i]).id == derive_id_spec(None, reg[i].name)
    &&& forall|i: int, j: int|
        0 <= i < reg.len() && 0 <= j < reg[i].sub_styles.len() ==> (
        #[trigger] reg[i].sub_styles[j]).id == derive_id_spec(
            Some(reg[i].id),
            reg[i].sub_styles[j].name,
        )
}

/// What the identifier `id` stands for: a top-level style if one has it, else
/// a sub-style if one has it, else nothing.
pub open spec fn find_spec(reg: Seq<StyleView>, id: Seq<u8>) -> StyleKindView {
    if has_style_id(reg, id) {
        StyleKindView::MainStyle(reg[style_index(reg, id)])
    } else if has_sub_id(reg, id) {
        let (i, j) = sub_pos(reg, id);
        StyleKindView::SubStyle(reg[i].sub_styles[j])
    } else {
        StyleKindView::NotFound
    }
}

/// A way to name a style: by its identifier or by its name.
pub enum StyleKeyView {
    Id(Seq<u8>),
    Name(Seq<u8>),
}

/// Whether the registry holds what `key` names, at either level.
pub open spec fn contains_spec(reg: Seq<StyleView>, key: StyleKeyView) -> bool {
    match key {
        StyleKeyView::Id(id) => contains_id(reg, id),
        StyleKeyView::Name(name) => contains_name(reg, name),
    }
}

/// The identifier that `key` names. An identifier names itself if it
/// occurs. A name goes to the top-level style called so, else to the first
/// sub-style called so in reading order.
pub open spec fn resolve_spec(reg: Seq<StyleView>, key: StyleKeyView) -> Option<Seq<u8>> {
    match key {
        StyleKeyView::Id(id) => if contains_id(reg, id) {
            Some(id)
        } else {
            None
        },
        StyleKeyView::Name(name) => if has_style_named(reg, name) {
            Some(reg[style_index_named(reg, name)].id)
        } else if has_sub_named(reg, name) {
            Some(id_at(reg, first_sub_named(reg, name)))
        } else {
            None
        },
    }
}

/// The identifier of the top-level style that `key` names as a parent. A
/// name that cannot be a name is refused before it is looked up.
pub open spec fn resolve_parent_spec(reg: Seq<StyleView>, cfg: Config, key: StyleKeyView) -> Result<
    Seq<u8>,
    Error,
> {
    match key {
        StyleKeyView::Id(id) => if has_style_id(reg, id) {
            Ok(id)
        } else {
            Err(Error::StyleNotFound)
        },
        StyleKeyView::Name(name) => if !name_fits(name, cfg.name_max_length) {
            Err(Error::NameTooLong)
        } else if has_style_named(reg, name) {
            Ok(reg[style_index_named(reg, name)].id)
        } else {
            Err(Error::StyleNotFound)
        },
    }
}

/// The names of the top-level styles, in order.
pub open spec fn parent_names(reg: Seq<StyleView>) -> Seq<Seq<u8>> {
    Seq::new(reg.len(), |i: int| reg[i].name)
}

/// The names of `subs`, in order.
pub open spec fn sub_names(subs: Seq<SubStyleView>) -> Seq<Seq<u8>> {
    Seq::new(subs.len(), |j: int| subs[j].name)
}

/// The names of all sub-styles, style by style, in order.
pub open spec fn all_sub_names(reg: Seq<StyleView>) -> Seq<Seq<u8>>
    decreases reg.len(),
{
    if reg.len() == 0 {
        Seq::empty()
    } else {
        all_sub_names(reg.drop_last()) + sub_names(reg.last().sub_styles)
    }
}

/// A sub-style about to be inserted: its identifier and its name.
pub struct SubEntryView {
    pub id: Seq<u8>,
    pub name: Seq<u8>,
}

/// What is wrong with the `k`-th of the submitted sub-style names, if
/// anything: it cannot be a name, or the list has outgrown the limit.
pub open spec fn sub_name_fault(cfg: Config, names: Seq<Seq<u8>>, k: int) -> Option<Error> {
    if !name_fits(names[k], cfg.name_max_length) {
        Some(Error::NameTooLong)
    } else if k >= cfg.max_sub_styles {
        Some(Error::StylesCapacity)
    } else {
        None
    }
}

/// Whether `k` is the first of the submitted names with something wrong.
pub open spec fn is_first_fault(cfg: Config, names: Seq<Seq<u8>>, k: int) -> bool {
    &&& 0 <= k < names.len()
    &&& sub_name_fault(cfg, names, k) is Some
    &&& forall|m: int| 0 <= m < k ==> #[trigger] sub_name_fault(cfg, names, m) is None
}

/// The error that a list of submitted sub-style names gives when it is read
/// in order: that of the first name with something wrong.
pub open spec fn sub_names_error(cfg: Config, names: Seq<Seq<u8>>) -> Option<Error> {
    if exists|k: int| is_first_fault(cfg, names, k) {
        sub_name_fault(cfg, names, choose|k: int| is_first_fault(cfg, names, k))
    } else {
        None
    }
}

/// Whether two of `subs` share a name or an identifier.
pub open spec fn has_repeat(subs: Seq<SubEntryView>) -> bool {
    exists|j: int, l: int|
        0 <= j < l < subs.len() && ((#[trigger] subs[j]).name == (#[trigger] subs[l]).name
            || subs[j].id == subs[l].id)
}

/// The registry with `sub` appended to the sub-styles of the style at `p`.
pub open spec fn with_sub_pushed(reg: Seq<StyleView>, p: int, sub: SubStyleView) -> Seq<
    StyleView,
> {
    reg.update(p, StyleView { sub_styles: reg[p].sub_styles.push(sub), ..reg[p] })
}

/// Inserting one sub-style with a given identifier under the style `parent`:
/// the new registry, or why it is refused.
pub open spec fn insert_sub_outcome(
    reg: Seq<StyleView>,
    cfg: Config,
    parent: Seq<u8>,
    sub: SubEntryView,
) -> Result<Seq<StyleView>, Error> {
    if !has_style_id(reg, parent) {
        Err(Error::StyleNotFound)
    } else if !name_fits(sub.name, cfg.name_max_length) {
        Err(Error::NameTooLong)
    } else {
        let p = style_index(reg, parent);
        if subs_have_name(reg[p].sub_styles, sub.name) || contains_id(reg, sub.id) {
            Err(Error::NameAlreadyExists)
        } else if reg[p].sub_styles.len() >= cfg.max_sub_styles {
            Err(Error::StylesCapacity)
        } else {
            Ok(
                with_sub_pushed(
                    reg,
                    p,
                    SubStyleView { id: sub.id, name: sub.name, parent_id: parent },
                ),
            )
        }
    }
}

/// Inserting `subs` one after the other under the style `parent`: the new
/// registry, or the first refusal.
pub open spec fn insert_subs_outcome(
    reg: Seq<StyleView>,
    cfg: Config,
    parent: Seq<u8>,
    subs: Seq<SubEntryView>,
) -> Result<Seq<StyleView>, Error>
    decreases subs.len(),
{
    if subs.len() == 0 {
        Ok(reg)
    } else {
        match insert_subs_outcome(reg, cfg, parent, subs.drop_last()) {
            Ok(r) => insert_sub_outcome(r, cfg, parent, subs.last()),
            Err(e) => Err(e),
        }
    }
}

/// Inserting `subs` under the style `parent`, which must exist even when
/// `subs` is empty.
pub open spec fn checked_add_subs_outcome(
    reg: Seq<StyleView>,
    cfg: Config,
    parent: Seq<u8>,
    subs: Seq<SubEntryView>,
) -> Result<Seq<StyleView>, Error> {
    if !has_style_id(reg, parent) {
        Err(Error::StyleNotFound)
    } else {
        insert_subs_outcome(reg, cfg, parent, subs)
    }
}

/// The number of top-level styles whose name stands before `name`: the
/// place that a style called `name` takes among them.
pub open spec fn place_of(reg: Seq<StyleView>, name: Seq<u8>) -> int
    decreases reg.len(),
{
    if reg.len() == 0 {
        0
    } else if bytes_order(reg.last().name, name) < 0 {
        place_of(reg.drop_last(), name) + 1
    } else {
        place_of(reg.drop_last(), name)
    }
}

/// The registry with `style` put in at the place its name takes.
pub open spec fn with_style_placed(reg: Seq<StyleView>, style: StyleView) -> Seq<StyleView> {
    reg.insert(place_of(reg, style.name), style)
}

/// Inserting a top-level style with a given identifier and no sub-styles,
/// at the place its name takes.
pub open spec fn insert_parent_outcome(
    reg: Seq<StyleView>,
    cfg: Config,
    id: Seq<u8>,
    name: Seq<u8>,
) -> Result<Seq<StyleView>, Error> {
    if !name_fits(name, cfg.name_max_length) {
        Err(Error::NameTooLong)
    } else if has_style_named(reg, name) || contains_id(reg, id) {
        Err(Error::NameAlreadyExists)
    } else if reg.len() >= cfg.max_styles {
        Err(Error::StylesCapacity)
    } else {
        Ok(with_style_placed(reg, StyleView { id, name, sub_styles: Seq::empty() }))
    }
}

/// The names of `subs`, in order.
pub open spec fn entry_names(subs: Seq<SubEntryView>) -> Seq<Seq<u8>> {
    Seq::new(subs.len(), |k: int| subs[k].name)
}

/// Inserting a top-level style with given identifiers for itself and for its
/// sub-styles: the new registry, or why it is refused. The style itself is
/// judged first, then the list of names as submitted, then repeats in it,
/// then each sub-style as it is inserted.
pub open spec fn insert_style_outcome(
    reg: Seq<StyleView>,
    cfg: Config,
    id: Seq<u8>,
    name: Seq<u8>,
    subs: Seq<SubEntryView>,
) -> Result<Seq<StyleView>, Error> {
    match insert_parent_outcome(reg, cfg, id, name) {
        Err(e) => Err(e),
        Ok(with_parent) => match sub_names_error(cfg, entry_names(subs)) {
            Some(e) => Err(e),
            None => if has_repeat(subs) {
                Err(Error::DuplicatedStyle)
            } else {
                insert_subs_outcome(with_parent, cfg, id, subs)
            },
        },
    }
}

/// The sub-styles called `names` under `parent`, each with the identifier
/// derived for it.
pub open spec fn derived_subs(parent: Seq<u8>, names: Seq<Seq<u8>>) -> Seq<SubEntryView> {
    Seq::new(
        names.len(),
        |k: int| SubEntryView { id: derive_id_spec(Some(parent), names[k]), name: names[k] },
    )
}

/// The list of submitted sub-style names, empty where none was submitted.
pub open spec fn submitted(sub: Option<Seq<Seq<u8>>>) -> Seq<Seq<u8>> {
    match sub {
        Some(names) => names,
        None => Seq::empty(),
    }
}

/// Adding the style called `name` with the sub-styles called `sub`, all
/// identifiers derived.
pub open spec fn add_style_outcome(
    reg: Seq<StyleView>,
    cfg: Config,
    name: Seq<u8>,
    sub: Option<Seq<Seq<u8>>>,
) -> Result<Seq<StyleView>, Error> {
    let id = derive_id_spec(None, name);
    insert_style_outcome(reg, cfg, id, name, derived_subs(id, submitted(sub)))
}

/// Adding the sub-styles called `names` under the style that `parent`
/// names, all identifiers derived.
pub open spec fn add_sub_style_outcome(
    reg: Seq<StyleView>,
    cfg: Config,
    parent: StyleKeyView,
    names: Seq<Seq<u8>>,
) -> Result<Seq<StyleView>, Error> {
    match resolve_parent_spec(reg, cfg, parent) {
        Err(e) => Err(e),
        Ok(id) => match sub_names_error(cfg, names) {
            Some(e) => Err(e),
            None => insert_subs_outcome(reg, cfg, id, derived_subs(id, names)),
        },
    }
}

/// The registry with the style at `p` renamed, and moved to the place its
/// new name takes.
pub open spec fn with_style_renamed(reg: Seq<StyleView>, p: int, name: Seq<u8>) -> Seq<
    StyleView,
> {
    with_style_placed(reg.remove(p), StyleView { name, ..reg[p] })
}

/// The registry with the `j`-th sub-style of the style at `i` renamed.
pub open spec fn with_sub_renamed(reg: Seq<StyleView>, i: int, j: int, name: Seq<u8>) -> Seq<
    StyleView,
> {
    reg.update(
        i,
        StyleView {
            sub_styles: reg[i].sub_styles.update(
                j,
                SubStyleView { name, ..reg[i].sub_styles[j] },
            ),
            ..reg[i]
        },
    )
}

/// Renaming what `id` stands for: the new registry, or why it is refused.
/// Only the name changes; no identifier is derived again.
pub open spec fn rename_outcome(
    reg: Seq<StyleView>,
    cfg: Config,
    id: Seq<u8>,
    new_name: Seq<u8>,
) -> Result<Seq<StyleView>, Error> {
    if !name_fits(new_name, cfg.name_max_length) {
        Err(Error::NameTooLong)
    } else if has_style_id(reg, id) {
        if has_style_named(reg, new_name) {
            Err(Error::NameAlreadyExists)
        } else {
            Ok(with_style_renamed(reg, style_index(reg, id), new_name))
        }
    } else if has_sub_id(reg, id) {
        let (i, j) = sub_pos(reg, id);
        if subs_have_name(reg[i].sub_styles, new_name) {
            Err(Error::NameAlreadyExists)
        } else {
            Ok(with_sub_renamed(reg, i, j, new_name))
        }
    } else {
        Err(Error::StyleNotFound)
    }
}

/// The registry without the `j`-th sub-style of the style at `i`.
pub open spec fn with_sub_removed(reg: Seq<StyleView>, i: int, j: int) -> Seq<StyleView> {
    reg.update(i, StyleView { sub_styles: reg[i].sub_styles.remove(j), ..reg[i] })
}

/// Removing what `id` stands for: a top-level style goes with all its
/// sub-styles, a sub-style goes alone.
pub open spec fn remove_outcome(reg: Seq<StyleView>, id: Seq<u8>) -> Result<
    Seq<StyleView>,
    Error,
> {
    if has_style_id(reg, id) {
        Ok(reg.remove(style_index(reg, id)))
    } else if has_sub_id(reg, id) {
        let (i, j) = sub_pos(reg, id);
        Ok(with_sub_removed(reg, i, j))
    } else {
        Err(Error::StyleNotFound)
    }
}

/// Removing what `key` names.
pub open spec fn remove_key_outcome(reg: Seq<StyleView>, key: StyleKeyView) -> Result<
    Seq<StyleView>,
    Error,
> {
    match resolve_spec(reg, key) {
        Some(id) => remove_outcome(reg, id),
        None => Err(Error::StyleNotFound),
    }
}

/// The events of sub-styles added under these names, in order.
pub open spec fn sub_added_events(names: Seq<Seq<u8>>) -> Seq<EventView> {
    Seq::new(names.len(), |k: int| EventView::SubStyleAdded(names[k]))
}

/// The events of a style added with sub-styles: the style first, then each
/// sub-style in the order submitted.
pub open spec fn add_style_events(name: Seq<u8>, sub: Option<Seq<Seq<u8>>>) -> Seq<EventView> {
    seq![EventView::StyleAdded(name)] + sub_added_events(submitted(sub))
}

/// The event of a renaming: the old name and the new one, and the level at
/// which it took place.
pub open spec fn rename_event(reg: Seq<StyleView>, id: Seq<u8>, new_name: Seq<u8>) -> EventView {
    if has_style_id(reg, id) {
        EventView::StyleNameUpdated(reg[style_index(reg, id)].name, new_name)
    } else {
        let (i, j) = sub_pos(reg, id);
        EventView::SubStyleNameUpdated(reg[i].sub_styles[j].name, new_name)
    }
}

/// The event of a removal: the identifier removed, and the level at which it
/// stood.
pub open spec fn remove_event(reg: Seq<StyleView>, id: Seq<u8>) -> EventView {
    if has_style_id(reg, id) {
        EventView::StyleRemoved(id)
    } else {
        EventView::SubStyleRemoved(id)
    }
}

/// One entry of a seed list: a style's name and the names of its sub-styles.
pub struct SeedView {
    pub name: Seq<u8>,
    pub sub_names: Seq<Seq<u8>>,
}

/// Whether a seed can stand by itself under the limits `cfg`: its name and
/// the names of its sub-styles fit, these are no more than a style may
/// have, and no two of them are the same.
pub open spec fn seed_stands(cfg: Config, seed: SeedView) -> bool {
    &&& name_fits(seed.name, cfg.name_max_length)
    &&& seed.sub_names.len() <= cfg.max_sub_styles
    &&& forall|j: int|
        0 <= j < seed.sub_names.len() ==> name_fits(
            #[trigger] seed.sub_names[j],
            cfg.name_max_length,
        )
    &&& forall|j: int, l: int|
        0 <= j < l < seed.sub_names.len() ==> #[trigger] seed.sub_names[j]
            != #[trigger] seed.sub_names[l]
}

/// Whether a seed list can stand under the limits `cfg`, as far as its names
/// and its lengths tell: it holds no more styles than a registry may, each
/// seed stands by itself, and no two seeds have the same name. Nothing here
/// asks about identifiers.
pub open spec fn seeds_stand(cfg: Config, seeds: Seq<SeedView>) -> bool {
    &&& seeds.len() <= cfg.max_styles
    &&& forall|k: int| 0 <= k < seeds.len() ==> seed_stands(cfg, #[trigger] seeds[k])
    &&& forall|k: int, m: int|
        0 <= k < m < seeds.len() ==> (#[trigger] seeds[k]).name != (#[trigger] seeds[m]).name
}

/// Adding the styles of a seed list one after the other to an empty
/// registry: the registry they make, or the first refusal.
pub open spec fn genesis_outcome(cfg: Config, seeds: Seq<SeedView>) -> Result<
    Seq<StyleView>,
    Error,
>
    decreases seeds.len(),
{
    if seeds.len() == 0 {
        Ok(Seq::empty())
    } else {
        match genesis_outcome(cfg, seeds.drop_last()) {
            Ok(reg) => add_style_outcome(
                reg,
                cfg,
                seeds.last().name,
                Some(seeds.last().sub_names),
            ),
            Err(e) => Err(e),
        }
    }
}

} // verus!
