//! What holds of the registry whatever it holds: the operations keep it
//! well formed, and each does what its name says.

use crate::config::Config;
use crate::error::Error;
use crate::id::derive_id_spec;
use crate::lemmas::{
    lemma_first_fault, lemma_gone_with_style, lemma_id_at_occurs,
    lemma_insert_parent_well_formed, lemma_insert_style_well_formed,
    lemma_insert_sub_well_formed, lemma_insert_subs_well_formed, lemma_place_in_range,
    lemma_remove_well_formed, lemma_rename_well_formed, lemma_style_index, lemma_sub_pos,
    shifted, unplaced, within_style,
};
use crate::model::{
    add_style_outcome, add_sub_style_outcome, contains_id, contains_name, derived_subs,
    entry_names, find_spec, genesis_outcome, has_style_id, has_style_named, holds_id,
    holds_name, id_at, ids_derived, insert_parent_outcome, insert_sub_outcome,
    insert_subs_outcome, place_of, remove_key_outcome, remove_outcome, rename_outcome,
    resolve_parent_spec, resolve_spec, seeds_stand, style_index, style_index_named,
    sub_name_fault, sub_names_error, submitted, subs_have_name, valid_pos, well_formed, Pos,
    SeedView, StyleKeyView, SubEntryView,
};
use crate::name::name_fits;
use crate::style::{StyleKindView, StyleView, SubStyleView};
use vstd::prelude::*;

verus! {

/// Adding a style keeps the registry well formed.
pub proof fn law_add_style_keeps_well_formed(
    reg: Seq<StyleView>,
    cfg: Config,
    name: Seq<u8>,
    sub: Option<Seq<Seq<u8>>>,
)
    requires
        well_formed(reg, cfg),
        add_style_outcome(reg, cfg, name, sub) is Ok,
    ensures
        well_formed(add_style_outcome(reg, cfg, name, sub)->Ok_0, cfg),
{
    let id = derive_id_spec(None, name);
    lemma_insert_style_well_formed(reg, cfg, id, name, derived_subs(id, submitted(sub)));
}

/// Adding sub-styles keeps the registry well formed.
pub proof fn law_add_sub_style_keeps_well_formed(
    reg: Seq<StyleView>,
    cfg: Config,
    parent: StyleKeyView,
    names: Seq<Seq<u8>>,
)
    requires
        well_formed(reg, cfg),
        add_sub_style_outcome(reg, cfg, parent, names) is Ok,
    ensures
        well_formed(add_sub_style_outcome(reg, cfg, parent, names)->Ok_0, cfg),
{
    let id = resolve_parent_spec(reg, cfg, parent)->Ok_0;
    lemma_insert_subs_well_formed(reg, cfg, id, derived_subs(id, names));
}

/// Renaming keeps the registry well formed, and keeps every identifier
/// where it was.
pub proof fn law_rename_keeps_well_formed(
    reg: Seq<StyleView>,
    cfg: Config,
    id: Seq<u8>,
    new_name: Seq<u8>,
)
    requires
        well_formed(reg, cfg),
        rename_outcome(reg, cfg, id, new_name) is Ok,
    ensures
        well_formed(rename_outcome(reg, cfg, id, new_name)->Ok_0, cfg),
        forall|other: Seq<u8>|
            contains_id(rename_outcome(reg, cfg, id, new_name)->Ok_0, other) == contains_id(
                reg,
                other,
            ),
{
    lemma_rename_well_formed(reg, cfg, id, new_name);
    let r = rename_outcome(reg, cfg, id, new_name)->Ok_0;
    assert forall|other: Seq<u8>| contains_id(r, other) == contains_id(reg, other) by {
        lemma_rename_keeps_ids(reg, cfg, id, new_name, other);
    }
}

/// Renaming leaves every identifier in the registry, and brings none in.
proof fn lemma_rename_keeps_ids(
    reg: Seq<StyleView>,
    cfg: Config,
    id: Seq<u8>,
    new_name: Seq<u8>,
    other: Seq<u8>,
)
    requires
        rename_outcome(reg, cfg, id, new_name) is Ok,
    ensures
        contains_id(rename_outcome(reg, cfg, id, new_name)->Ok_0, other) == contains_id(
            reg,
            other,
        ),
{
    let r = rename_outcome(reg, cfg, id, new_name)->Ok_0;
    if has_style_id(reg, id) {
        let p = style_index(reg, id);
        let rest = reg.remove(p);
        let q = place_of(rest, new_name);
        lemma_place_in_range(rest, new_name);
        assert forall|a: Pos| valid_pos(r, a) implies contains_id(reg, id_at(r, a)) by {
            if within_style(a, q) {
                if let Pos::Sub(_, j) = a {
                    assert(holds_id(reg, Pos::Sub(p, j), id_at(r, a)));
                }
            } else {
                lemma_id_at_occurs(reg, shifted(unplaced(a, q), p));
            }
        }
        assert forall|b: Pos| valid_pos(reg, b) implies contains_id(r, id_at(reg, b)) by {
            match b {
                Pos::Style(k) => {
                    if k == p {
                        assert(holds_id(r, Pos::Style(q), id_at(reg, b)));
                    } else {
                        let k1 = if k < p { k } else { k - 1 };
                        let k2 = if k1 < q { k1 } else { k1 + 1 };
                        assert(holds_id(r, Pos::Style(k2), id_at(reg, b)));
                    }
                },
                Pos::Sub(k, j) => {
                    if k == p {
                        assert(holds_id(r, Pos::Sub(q, j), id_at(reg, b)));
                    } else {
                        let k1 = if k < p { k } else { k - 1 };
                        let k2 = if k1 < q { k1 } else { k1 + 1 };
                        assert(holds_id(r, Pos::Sub(k2, j), id_at(reg, b)));
                    }
                },
            }
        }
    } else {
        assert forall|a: Pos| valid_pos(r, a) implies contains_id(reg, id_at(r, a)) by {
            lemma_id_at_occurs(reg, a);
        }
        assert forall|b: Pos| valid_pos(reg, b) implies contains_id(r, id_at(reg, b)) by {
            lemma_id_at_occurs(r, b);
        }
    }
}

/// Removing keeps the registry well formed.
pub proof fn law_remove_keeps_well_formed(reg: Seq<StyleView>, cfg: Config, key: StyleKeyView)
    requires
        well_formed(reg, cfg),
        remove_key_outcome(reg, key) is Ok,
    ensures
        well_formed(remove_key_outcome(reg, key)->Ok_0, cfg),
{
    let id = resolve_spec(reg, key)->Some_0;
    lemma_remove_well_formed(reg, cfg, id);
}

/// Whatever a seed list builds is well formed.
pub proof fn law_genesis_is_well_formed(cfg: Config, seeds: Seq<SeedView>)
    requires
        genesis_outcome(cfg, seeds) is Ok,
    ensures
        well_formed(genesis_outcome(cfg, seeds)->Ok_0, cfg),
    decreases seeds.len(),
{
    if seeds.len() > 0 {
        law_genesis_is_well_formed(cfg, seeds.drop_last());
        let reg = genesis_outcome(cfg, seeds.drop_last())->Ok_0;
        law_add_style_keeps_well_formed(
            reg,
            cfg,
            seeds.last().name,
            Some(seeds.last().sub_names),
        );
    }
}

/// A name that fits and that no top-level style has, with an identifier
/// that occurs nowhere, can be added alone while the registry is not full.
/// The registry then holds the name and the identifier, and has grown by
/// one style.
pub proof fn law_fresh_style_is_added(reg: Seq<StyleView>, cfg: Config, name: Seq<u8>)
    requires
        name_fits(name, cfg.name_max_length),
        !has_style_named(reg, name),
        !contains_id(reg, derive_id_spec(None, name)),
        reg.len() < cfg.max_styles,
    ensures
        add_style_outcome(reg, cfg, name, None) is Ok,
        contains_name(add_style_outcome(reg, cfg, name, None)->Ok_0, name),
        contains_id(add_style_outcome(reg, cfg, name, None)->Ok_0, derive_id_spec(None, name)),
        add_style_outcome(reg, cfg, name, None)->Ok_0.len() == reg.len() + 1,
{
    let id = derive_id_spec(None, name);
    let r = insert_parent_outcome(reg, cfg, id, name)->Ok_0;
    let q = place_of(reg, name);
    lemma_place_in_range(reg, name);
    assert(holds_name(r, Pos::Style(q), name));
    assert(holds_id(r, Pos::Style(q), id));
}

/// A style whose name is longer than the limit is refused as too long,
/// whatever else is submitted with it and whatever the registry holds.
pub proof fn law_too_long_name_is_refused(
    reg: Seq<StyleView>,
    cfg: Config,
    name: Seq<u8>,
    sub: Option<Seq<Seq<u8>>>,
)
    requires
        name.len() > cfg.name_max_length,
    ensures
        add_style_outcome(reg, cfg, name, sub) == Err::<Seq<StyleView>, Error>(
            Error::NameTooLong,
        ),
{
}

/// A full registry refuses one more style for want of room, where nothing
/// else is wrong with the style itself.
pub proof fn law_full_registry_refuses(
    reg: Seq<StyleView>,
    cfg: Config,
    name: Seq<u8>,
    sub: Option<Seq<Seq<u8>>>,
)
    requires
        reg.len() >= cfg.max_styles,
        name_fits(name, cfg.name_max_length),
        !has_style_named(reg, name),
        !contains_id(reg, derive_id_spec(None, name)),
    ensures
        add_style_outcome(reg, cfg, name, sub) == Err::<Seq<StyleView>, Error>(
            Error::StylesCapacity,
        ),
{
}

/// Adding a style makes the registry one style longer, and never longer
/// than the limit.
pub proof fn law_add_style_grows_by_one(
    reg: Seq<StyleView>,
    cfg: Config,
    name: Seq<u8>,
    sub: Option<Seq<Seq<u8>>>,
)
    requires
        add_style_outcome(reg, cfg, name, sub) is Ok,
    ensures
        add_style_outcome(reg, cfg, name, sub)->Ok_0.len() == reg.len() + 1,
        add_style_outcome(reg, cfg, name, sub)->Ok_0.len() <= cfg.max_styles,
{
    let id = derive_id_spec(None, name);
    let with_parent = insert_parent_outcome(reg, cfg, id, name)->Ok_0;
    lemma_place_in_range(reg, name);
    lemma_insert_subs_keep_len(with_parent, cfg, id, derived_subs(id, submitted(sub)));
}

/// Inserting sub-styles leaves the number of top-level styles as it was.
pub proof fn lemma_insert_subs_keep_len(
    reg: Seq<StyleView>,
    cfg: Config,
    parent: Seq<u8>,
    subs: Seq<SubEntryView>,
)
    requires
        insert_subs_outcome(reg, cfg, parent, subs) is Ok,
    ensures
        insert_subs_outcome(reg, cfg, parent, subs)->Ok_0.len() == reg.len(),
    decreases subs.len(),
{
    if subs.len() > 0 {
        lemma_insert_subs_keep_len(reg, cfg, parent, subs.drop_last());
    }
}

/// A list of sub-styles that repeats a name is refused as duplicated,
/// where the style itself could be added and every name in the list could
/// be a sub-style's.
pub proof fn law_repeated_sub_style_is_refused(
    reg: Seq<StyleView>,
    cfg: Config,
    name: Seq<u8>,
    subs: Seq<Seq<u8>>,
    j: int,
    l: int,
)
    requires
        name_fits(name, cfg.name_max_length),
        !has_style_named(reg, name),
        !contains_id(reg, derive_id_spec(None, name)),
        reg.len() < cfg.max_styles,
        sub_names_error(cfg, subs) is None,
        0 <= j < l < subs.len(),
        subs[j] == subs[l],
    ensures
        add_style_outcome(reg, cfg, name, Some(subs)) == Err::<Seq<StyleView>, Error>(
            Error::DuplicatedStyle,
        ),
{
    let id = derive_id_spec(None, name);
    let entries = derived_subs(id, subs);
    assert(entry_names(entries) =~= subs);
}

/// The same parent and the same name always derive the same identifier.
pub proof fn law_derive_id_is_a_function(
    parent_a: Option<Seq<u8>>,
    name_a: Seq<u8>,
    parent_b: Option<Seq<u8>>,
    name_b: Seq<u8>,
)
    requires
        parent_a == parent_b,
        name_a == name_b,
    ensures
        derive_id_spec(parent_a, name_a) == derive_id_spec(parent_b, name_b),
{
}

/// Removing a top-level style by its identifier takes it out with all its
/// sub-styles: afterwards the registry holds neither its identifier nor that
/// of any of its former sub-styles, and every other style stands as before.
pub proof fn law_removed_style_takes_its_sub_styles(reg: Seq<StyleView>, cfg: Config, i: int)
    requires
        well_formed(reg, cfg),
        0 <= i < reg.len(),
    ensures
        remove_outcome(reg, reg[i].id) == Ok::<Seq<StyleView>, Error>(reg.remove(i)),
        !contains_id(reg.remove(i), reg[i].id),
        forall|j: int|
            0 <= j < reg[i].sub_styles.len() ==> !contains_id(
                reg.remove(i),
                (#[trigger] reg[i].sub_styles[j]).id,
            ),
{
    lemma_style_index(reg, cfg, i);
    lemma_gone_with_style(reg, cfg, i, Pos::Style(i));
    assert forall|j: int| 0 <= j < reg[i].sub_styles.len() implies !contains_id(
        reg.remove(i),
        (#[trigger] reg[i].sub_styles[j]).id,
    ) by {
        lemma_gone_with_style(reg, cfg, i, Pos::Sub(i, j));
    }
}

/// A sub-style added under a parent is found again by the identifier
/// derived from the parent's identifier and its name: as a sub-style, with
/// that name and that parent.
pub proof fn law_added_sub_style_is_found(
    reg: Seq<StyleView>,
    cfg: Config,
    parent: Seq<u8>,
    name: Seq<u8>,
)
    requires
        well_formed(reg, cfg),
        add_sub_style_outcome(reg, cfg, StyleKeyView::Id(parent), seq![name]) is Ok,
    ensures
        find_spec(
            add_sub_style_outcome(reg, cfg, StyleKeyView::Id(parent), seq![name])->Ok_0,
            derive_id_spec(Some(parent), name),
        ) == StyleKindView::SubStyle(
            SubStyleView { id: derive_id_spec(Some(parent), name), name, parent_id: parent },
        ),
{
    let id = derive_id_spec(Some(parent), name);
    let entries = derived_subs(parent, seq![name]);
    let entry = SubEntryView { id, name };
    assert(insert_subs_outcome(reg, cfg, parent, entries.drop_last()) == Ok::<
        Seq<StyleView>,
        Error,
    >(reg));
    lemma_insert_sub_well_formed(reg, cfg, parent, entry);
    let r = insert_sub_outcome(reg, cfg, parent, entry)->Ok_0;
    let p = style_index(reg, parent);
    let m = reg[p].sub_styles.len() as int;
    lemma_sub_pos(r, cfg, p, m);
}

/// A list of submitted names that gives no error holds names that fit, and
/// no more of them than a style may have.
pub proof fn law_accepted_names_fit(cfg: Config, names: Seq<Seq<u8>>)
    requires
        sub_names_error(cfg, names) is None,
    ensures
        names.len() <= cfg.max_sub_styles,
        forall|k: int| 0 <= k < names.len() ==> name_fits(#[trigger] names[k], cfg.name_max_length),
{
    lemma_no_error_no_fault(cfg, names, names.len() as int);
    if names.len() > 0 {
        assert(sub_name_fault(cfg, names, names.len() - 1) is None);
    }
    assert forall|k: int| 0 <= k < names.len() implies name_fits(
        #[trigger] names[k],
        cfg.name_max_length,
    ) by {
        assert(sub_name_fault(cfg, names, k) is None);
    }
}

/// Where the list gives no error, none of its names has anything wrong.
proof fn lemma_no_error_no_fault(cfg: Config, names: Seq<Seq<u8>>, upto: int)
    requires
        sub_names_error(cfg, names) is None,
        0 <= upto <= names.len(),
    ensures
        forall|k: int| 0 <= k < upto ==> #[trigger] sub_name_fault(cfg, names, k) is None,
    decreases upto,
{
    if upto > 0 {
        lemma_no_error_no_fault(cfg, names, upto - 1);
        if sub_name_fault(cfg, names, upto - 1) is Some {
            lemma_first_fault(cfg, names, upto - 1);
        }
    }
}

/// Inserting sub-styles whose identifiers are derived keeps every
/// identifier derived.
proof fn lemma_insert_subs_keep_ids_derived(
    reg: Seq<StyleView>,
    cfg: Config,
    parent: Seq<u8>,
    subs: Seq<SubEntryView>,
)
    requires
        ids_derived(reg),
        forall|k: int|
            0 <= k < subs.len() ==> (#[trigger] subs[k]).id == derive_id_spec(
                Some(parent),
                subs[k].name,
            ),
        insert_subs_outcome(reg, cfg, parent, subs) is Ok,
    ensures
        ids_derived(insert_subs_outcome(reg, cfg, parent, subs)->Ok_0),
    decreases subs.len(),
{
    if subs.len() > 0 {
        let before = subs.drop_last();
        lemma_insert_subs_keep_ids_derived(reg, cfg, parent, before);
    }
}

/// Adding a style keeps every identifier derived from the name beside it.
pub proof fn law_add_style_keeps_ids_derived(
    reg: Seq<StyleView>,
    cfg: Config,
    name: Seq<u8>,
    sub: Option<Seq<Seq<u8>>>,
)
    requires
        ids_derived(reg),
        add_style_outcome(reg, cfg, name, sub) is Ok,
    ensures
        ids_derived(add_style_outcome(reg, cfg, name, sub)->Ok_0),
{
    let id = derive_id_spec(None, name);
    let with_parent = insert_parent_outcome(reg, cfg, id, name)->Ok_0;
    lemma_place_in_range(reg, name);
    lemma_insert_subs_keep_ids_derived(with_parent, cfg, id, derived_subs(id, submitted(sub)));
}

/// Adding sub-styles keeps every identifier derived from the name beside it.
pub proof fn law_add_sub_style_keeps_ids_derived(
    reg: Seq<StyleView>,
    cfg: Config,
    parent: StyleKeyView,
    names: Seq<Seq<u8>>,
)
    requires
        ids_derived(reg),
        add_sub_style_outcome(reg, cfg, parent, names) is Ok,
    ensures
        ids_derived(add_sub_style_outcome(reg, cfg, parent, names)->Ok_0),
{
    let id = resolve_parent_spec(reg, cfg, parent)->Ok_0;
    lemma_insert_subs_keep_ids_derived(reg, cfg, id, derived_subs(id, names));
}

/// Removing keeps every identifier derived from the name beside it.
pub proof fn law_remove_keeps_ids_derived(reg: Seq<StyleView>, id: Seq<u8>)
    requires
        ids_derived(reg),
        remove_outcome(reg, id) is Ok,
    ensures
        ids_derived(remove_outcome(reg, id)->Ok_0),
{
}

/// In whatever a seed list builds, every identifier is derived from the
/// name beside it.
pub proof fn law_genesis_ids_are_derived(cfg: Config, seeds: Seq<SeedView>)
    requires
        genesis_outcome(cfg, seeds) is Ok,
    ensures
        ids_derived(genesis_outcome(cfg, seeds)->Ok_0),
    decreases seeds.len(),
{
    if seeds.len() > 0 {
        law_genesis_ids_are_derived(cfg, seeds.drop_last());
        let reg = genesis_outcome(cfg, seeds.drop_last())->Ok_0;
        law_add_style_keeps_ids_derived(
            reg,
            cfg,
            seeds.last().name,
            Some(seeds.last().sub_names),
        );
    }
}

/// Whether `r` holds the styles of `base`, name by name and identifier by
/// identifier, whatever their sub-styles.
pub open spec fn same_styles(r: Seq<StyleView>, base: Seq<StyleView>) -> bool {
    &&& r.len() == base.len()
    &&& forall|i: int|
        0 <= i < r.len() ==> (#[trigger] r[i]).name == base[i].name && r[i].id == base[i].id
}

/// Whether a seed of `seeds` is called `name`.
pub open spec fn has_seed_named(seeds: Seq<SeedView>, name: Seq<u8>) -> bool {
    exists|k: int| 0 <= k < seeds.len() && (#[trigger] seeds[k]).name == name
}

/// Whether `reg` holds one style for each seed, and no style that is not
/// called as a seed is.
pub open spec fn built_from(reg: Seq<StyleView>, seeds: Seq<SeedView>) -> bool {
    &&& reg.len() == seeds.len()
    &&& forall|i: int| 0 <= i < reg.len() ==> has_seed_named(seeds, (#[trigger] reg[i]).name)
}

/// Sub-styles whose names fit and differ, no more than a style may have,
/// are refused under a style that has none only where an identifier is
/// taken.
proof fn lemma_insert_subs_refused_only_for_identifiers(
    base: Seq<StyleView>,
    cfg: Config,
    q: int,
    subs: Seq<SubEntryView>,
)
    requires
        well_formed(base, cfg),
        0 <= q < base.len(),
        base[q].sub_styles.len() == 0,
        subs.len() <= cfg.max_sub_styles,
        forall|k: int|
            0 <= k < subs.len() ==> name_fits((#[trigger] subs[k]).name, cfg.name_max_length),
        forall|j: int, l: int|
            0 <= j < l < subs.len() ==> (#[trigger] subs[j]).name != (#[trigger] subs[l]).name,
    ensures
        match insert_subs_outcome(base, cfg, base[q].id, subs) {
            Ok(r) => {
                &&& same_styles(r, base)
                &&& r[q].sub_styles.len() == subs.len()
                &&& forall|j: int|
                    0 <= j < subs.len() ==> (#[trigger] r[q].sub_styles[j]).name == subs[j].name
            },
            Err(e) => e == Error::NameAlreadyExists,
        },
    decreases subs.len(),
{
    if subs.len() > 0 {
        let before = subs.drop_last();
        lemma_insert_subs_refused_only_for_identifiers(base, cfg, q, before);
        if let Ok(mid) = insert_subs_outcome(base, cfg, base[q].id, before) {
            lemma_insert_subs_well_formed(base, cfg, base[q].id, before);
            lemma_style_index(mid, cfg, q);
            let entry = subs.last();
            if subs_have_name(mid[q].sub_styles, entry.name) {
                // The sub-style called so came from an earlier entry called so.
                let j = choose|j: int|
                    0 <= j < mid[q].sub_styles.len() && (#[trigger] mid[q].sub_styles[j]).name
                        == entry.name;
                assert(subs[j].name == entry.name);
            }
        }
    }
}

/// A seed list that stands is refused only where two derived identifiers
/// meet; otherwise it builds a registry with one style for each seed.
proof fn lemma_standing_seeds(cfg: Config, seeds: Seq<SeedView>)
    requires
        seeds_stand(cfg, seeds),
    ensures
        match genesis_outcome(cfg, seeds) {
            Ok(reg) => built_from(reg, seeds),
            Err(e) => e == Error::NameAlreadyExists || e == Error::DuplicatedStyle,
        },
    decreases seeds.len(),
{
    if seeds.len() > 0 {
        let before = seeds.drop_last();
        assert(seeds_stand(cfg, before));
        lemma_standing_seeds(cfg, before);
        if let Ok(reg) = genesis_outcome(cfg, before) {
            law_genesis_is_well_formed(cfg, before);
            let seed = seeds.last();
            let id = derive_id_spec(None, seed.name);
            let entries = derived_subs(id, seed.sub_names);
            if has_style_named(reg, seed.name) {
                // The style called so was built from an earlier seed called so.
                let i = style_index_named(reg, seed.name);
                let k = choose|k: int|
                    0 <= k < before.len() && (#[trigger] before[k]).name == reg[i].name;
                assert(seeds[k].name == seed.name);
            }
            if let Ok(with_parent) = insert_parent_outcome(reg, cfg, id, seed.name) {
                lemma_insert_parent_well_formed(reg, cfg, id, seed.name);
                lemma_place_in_range(reg, seed.name);
                let q = place_of(reg, seed.name);
                lemma_insert_subs_refused_only_for_identifiers(with_parent, cfg, q, entries);
                if let Ok(r) = insert_subs_outcome(with_parent, cfg, id, entries) {
                    assert forall|i: int| 0 <= i < r.len() implies has_seed_named(
                        seeds,
                        (#[trigger] r[i]).name,
                    ) by {
                        if i != q {
                            // It stood in the registry before, built from an earlier seed.
                            let i0 = if i < q { i } else { i - 1 };
                            let k = choose|k: int|
                                0 <= k < before.len() && (#[trigger] before[k]).name
                                    == reg[i0].name;
                            assert(seeds[k].name == r[i].name);
                        }
                    }
                }
            }
        }
    }
}

/// A seed list that stands is refused only where two derived identifiers
/// are the same: for a name that is already there where a new identifier
/// meets one in the registry, for a repeated entry where two sub-styles of
/// one style meet. No limit and no name can be the reason.
pub proof fn law_standing_seeds_are_refused_only_for_identifiers(
    cfg: Config,
    seeds: Seq<SeedView>,
)
    requires
        seeds_stand(cfg, seeds),
        genesis_outcome(cfg, seeds) is Err,
    ensures
        genesis_outcome(cfg, seeds)->Err_0 == Error::NameAlreadyExists || genesis_outcome(
            cfg,
            seeds,
        )->Err_0 == Error::DuplicatedStyle,
{
    lemma_standing_seeds(cfg, seeds);
}

/// What a seed list builds holds one style for each seed, each called as a
/// seed is.
pub proof fn law_genesis_builds_every_seed(cfg: Config, seeds: Seq<SeedView>)
    requires
        seeds_stand(cfg, seeds),
        genesis_outcome(cfg, seeds) is Ok,
    ensures
        built_from(genesis_outcome(cfg, seeds)->Ok_0, seeds),
{
    lemma_standing_seeds(cfg, seeds);
}

} // verus!
