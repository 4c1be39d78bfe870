//! Facts about the model that the proofs of the operations rest on.

use crate::config::Config;
use crate::model::{
    contains_id, first_sub_named, has_style_id, has_style_named, has_sub_id, has_sub_named,
    holds_id, holds_name, id_at, insert_parent_outcome, insert_style_outcome,
    insert_sub_outcome, insert_subs_outcome, is_first_fault, is_first_sub_named, name_at,
    names_ascend, place_of, remove_outcome, rename_outcome, resolve_parent_spec, style_index,
    style_index_named, style_well_formed, sub_name_fault, sub_names_error, sub_pos, valid_pos,
    well_formed, with_style_placed, with_style_renamed, with_sub_pushed, with_sub_removed,
    with_sub_renamed, Pos, StyleKeyView, SubEntryView,
};
use crate::name::name_fits;
use crate::order::{bytes_order, law_order_equal, law_order_strictly_transitive, law_order_total};
use crate::style::{StyleView, SubStyleView};
use vstd::prelude::*;

verus! {

/// An identifier held at a place of the registry occurs in it.
pub proof fn lemma_id_at_occurs(reg: Seq<StyleView>, p: Pos)
    requires
        valid_pos(reg, p),
    ensures
        contains_id(reg, id_at(reg, p)),
        p is Style ==> has_style_id(reg, id_at(reg, p)),
        p is Sub ==> has_sub_id(reg, id_at(reg, p)),
{
    let id = id_at(reg, p);
    match p {
        Pos::Style(i) => {
            assert(holds_id(reg, Pos::Style(i), id));
        },
        Pos::Sub(i, j) => {
            assert(holds_id(reg, Pos::Sub(i, j), id));
        },
    }
}

/// In a well-formed registry the style at `i` is the one its identifier
/// finds, and no sub-style has that identifier.
pub proof fn lemma_style_index(reg: Seq<StyleView>, cfg: Config, i: int)
    requires
        well_formed(reg, cfg),
        0 <= i < reg.len(),
    ensures
        has_style_id(reg, reg[i].id),
        style_index(reg, reg[i].id) == i,
        !has_sub_id(reg, reg[i].id),
{
    let id = reg[i].id;
    assert(holds_id(reg, Pos::Style(i), id));
}

/// In a well-formed registry the sub-style at `(i, j)` is the one its
/// identifier finds, and no top-level style has that identifier.
pub proof fn lemma_sub_pos(reg: Seq<StyleView>, cfg: Config, i: int, j: int)
    requires
        well_formed(reg, cfg),
        valid_pos(reg, Pos::Sub(i, j)),
    ensures
        has_sub_id(reg, reg[i].sub_styles[j].id),
        sub_pos(reg, reg[i].sub_styles[j].id) == (i, j),
        !has_style_id(reg, reg[i].sub_styles[j].id),
{
    let id = reg[i].sub_styles[j].id;
    assert(holds_id(reg, Pos::Sub(i, j), id));
}

/// The first of the submitted names with something wrong is the only one
/// that is first.
pub proof fn lemma_first_fault(cfg: Config, names: Seq<Seq<u8>>, k: int)
    requires
        is_first_fault(cfg, names, k),
    ensures
        sub_names_error(cfg, names) == sub_name_fault(cfg, names, k),
        sub_names_error(cfg, names) is Some,
{
}

/// The place of a name is a place of the list, or its end.
pub proof fn lemma_place_in_range(reg: Seq<StyleView>, name: Seq<u8>)
    ensures
        0 <= place_of(reg, name) <= reg.len(),
    decreases reg.len(),
{
    if reg.len() > 0 {
        lemma_place_in_range(reg.drop_last(), name);
    }
}

/// Among styles that stand in the order of their names, those whose name
/// stands before `name` are the first ones, as many as the place of `name`.
pub proof fn lemma_place_of(reg: Seq<StyleView>, name: Seq<u8>)
    requires
        names_ascend(reg),
    ensures
        0 <= place_of(reg, name) <= reg.len(),
        forall|i: int|
            0 <= i < reg.len() ==> (bytes_order((#[trigger] reg[i]).name, name) < 0 <==> i
                < place_of(reg, name)),
    decreases reg.len(),
{
    if reg.len() > 0 {
        let rest = reg.drop_last();
        let n = rest.len() as int;
        lemma_place_of(rest, name);
        assert forall|i: int| 0 <= i < reg.len() implies (bytes_order(
            (#[trigger] reg[i]).name,
            name,
        ) < 0 <==> i < place_of(reg, name)) by {
            if i < n {
                assert(rest[i] == reg[i]);
            }
            if bytes_order(reg[n].name, name) < 0 && place_of(rest, name) < n {
                let k = place_of(rest, name);
                assert(rest[k] == reg[k]);
                law_order_strictly_transitive(reg[k].name, reg[n].name, name);
            }
        }
    }
}

/// The place in the registry, before a style was put in at `q`, of what is
/// now at `a`.
pub open spec fn unplaced(a: Pos, q: int) -> Pos {
    match a {
        Pos::Style(i) => if i < q {
            a
        } else {
            Pos::Style(i - 1)
        },
        Pos::Sub(i, j) => if i < q {
            a
        } else {
            Pos::Sub(i - 1, j)
        },
    }
}

/// Whether `a` is the style at `q` or one of its sub-styles.
pub open spec fn within_style(a: Pos, q: int) -> bool {
    match a {
        Pos::Style(i) => i == q,
        Pos::Sub(i, _) => i == q,
    }
}

/// What stands beside a style put in at `q` stood in the registry before.
pub proof fn lemma_placed_keeps_places(reg: Seq<StyleView>, q: int, style: StyleView, a: Pos)
    requires
        0 <= q <= reg.len(),
        valid_pos(reg.insert(q, style), a),
        !within_style(a, q),
    ensures
        valid_pos(reg, unplaced(a, q)),
        id_at(reg, unplaced(a, q)) == id_at(reg.insert(q, style), a),
        name_at(reg, unplaced(a, q)) == name_at(reg.insert(q, style), a),
{
}

/// What a style must be to be put into a registry: well formed by itself,
/// with a name that no top-level style has, and with identifiers, its own
/// and those of its sub-styles, that differ from each other and occur
/// nowhere in the registry.
pub open spec fn can_be_placed(reg: Seq<StyleView>, cfg: Config, style: StyleView) -> bool {
    &&& reg.len() < cfg.max_styles
    &&& style_well_formed(style, cfg)
    &&& !has_style_named(reg, style.name)
    &&& !contains_id(reg, style.id)
    &&& forall|j: int|
        0 <= j < style.sub_styles.len() ==> {
            &&& !contains_id(reg, (#[trigger] style.sub_styles[j]).id)
            &&& style.sub_styles[j].id != style.id
        }
    &&& forall|j: int, l: int|
        0 <= j < l < style.sub_styles.len() ==> (#[trigger] style.sub_styles[j]).id != (
        #[trigger] style.sub_styles[l]).id
}

/// Putting a style in at the place its name takes keeps a registry well
/// formed.
pub proof fn lemma_placed_well_formed(reg: Seq<StyleView>, cfg: Config, style: StyleView)
    requires
        well_formed(reg, cfg),
        can_be_placed(reg, cfg, style),
    ensures
        well_formed(with_style_placed(reg, style), cfg),
{
    let q = place_of(reg, style.name);
    let r = reg.insert(q, style);
    lemma_place_of(reg, style.name);
    assert forall|i: int| 0 <= i < reg.len() && i >= q implies bytes_order(
        style.name,
        (#[trigger] reg[i]).name,
    ) < 0 by {
        if reg[i].name == style.name {
            assert(holds_name(reg, Pos::Style(i), style.name));
        }
        law_order_total(style.name, reg[i].name);
    }
    assert forall|i: int, k: int| 0 <= i < k < r.len() implies bytes_order(
        (#[trigger] r[i]).name,
        (#[trigger] r[k]).name,
    ) < 0 && r[i].name != r[k].name by {
        law_order_equal(r[i].name, r[k].name);
    }
    assert forall|a: Pos, b: Pos|
        #![trigger valid_pos(r, a), valid_pos(r, b)]
        valid_pos(r, a) && valid_pos(r, b) && id_at(r, a) == id_at(r, b) implies a == b by {
        if !within_style(a, q) && !within_style(b, q) {
            lemma_placed_keeps_places(reg, q, style, a);
            lemma_placed_keeps_places(reg, q, style, b);
        } else if !within_style(a, q) {
            lemma_id_at_occurs(reg, unplaced(a, q));
        } else if !within_style(b, q) {
            lemma_id_at_occurs(reg, unplaced(b, q));
        }
    }
}

/// Inserting a top-level style keeps a registry well formed.
pub proof fn lemma_insert_parent_well_formed(
    reg: Seq<StyleView>,
    cfg: Config,
    id: Seq<u8>,
    name: Seq<u8>,
)
    requires
        well_formed(reg, cfg),
        insert_parent_outcome(reg, cfg, id, name) is Ok,
    ensures
        well_formed(insert_parent_outcome(reg, cfg, id, name)->Ok_0, cfg),
{
    lemma_placed_well_formed(reg, cfg, StyleView { id, name, sub_styles: Seq::empty() });
}

/// Inserting a sub-style keeps a registry well formed.
pub proof fn lemma_insert_sub_well_formed(
    reg: Seq<StyleView>,
    cfg: Config,
    parent: Seq<u8>,
    sub: SubEntryView,
)
    requires
        well_formed(reg, cfg),
        insert_sub_outcome(reg, cfg, parent, sub) is Ok,
    ensures
        well_formed(insert_sub_outcome(reg, cfg, parent, sub)->Ok_0, cfg),
{
    let p = style_index(reg, parent);
    let record = SubStyleView { id: sub.id, name: sub.name, parent_id: parent };
    let r = with_sub_pushed(reg, p, record);
    let m = reg[p].sub_styles.len() as int;
    assert forall|a: Pos, b: Pos|
        #![trigger valid_pos(r, a), valid_pos(r, b)]
        valid_pos(r, a) && valid_pos(r, b) && id_at(r, a) == id_at(r, b) implies a == b by {
        let new_place = Pos::Sub(p, m);
        if a != new_place && b != new_place {
            lemma_pushed_sub_keeps_places(reg, p, record, a);
            lemma_pushed_sub_keeps_places(reg, p, record, b);
        } else if a != new_place {
            lemma_id_at_occurs(reg, a);
        } else if b != new_place {
            lemma_id_at_occurs(reg, b);
        }
    }
}

/// Appending a sub-style leaves every other place as it was.
pub proof fn lemma_pushed_sub_keeps_places(
    reg: Seq<StyleView>,
    p: int,
    sub: SubStyleView,
    a: Pos,
)
    requires
        0 <= p < reg.len(),
        valid_pos(with_sub_pushed(reg, p, sub), a),
        a != Pos::Sub(p, reg[p].sub_styles.len() as int),
    ensures
        valid_pos(reg, a),
        id_at(reg, a) == id_at(with_sub_pushed(reg, p, sub), a),
        name_at(reg, a) == name_at(with_sub_pushed(reg, p, sub), a),
{
}

/// Inserting sub-styles one after the other keeps a registry well formed.
pub proof fn lemma_insert_subs_well_formed(
    reg: Seq<StyleView>,
    cfg: Config,
    parent: Seq<u8>,
    subs: Seq<SubEntryView>,
)
    requires
        well_formed(reg, cfg),
        insert_subs_outcome(reg, cfg, parent, subs) is Ok,
    ensures
        well_formed(insert_subs_outcome(reg, cfg, parent, subs)->Ok_0, cfg),
    decreases subs.len(),
{
    if subs.len() > 0 {
        lemma_insert_subs_well_formed(reg, cfg, parent, subs.drop_last());
        let r = insert_subs_outcome(reg, cfg, parent, subs.drop_last())->Ok_0;
        lemma_insert_sub_well_formed(r, cfg, parent, subs.last());
    }
}

/// Inserting a style with its sub-styles keeps a registry well formed.
pub proof fn lemma_insert_style_well_formed(
    reg: Seq<StyleView>,
    cfg: Config,
    id: Seq<u8>,
    name: Seq<u8>,
    subs: Seq<SubEntryView>,
)
    requires
        well_formed(reg, cfg),
        insert_style_outcome(reg, cfg, id, name, subs) is Ok,
    ensures
        well_formed(insert_style_outcome(reg, cfg, id, name, subs)->Ok_0, cfg),
{
    lemma_insert_parent_well_formed(reg, cfg, id, name);
    let with_parent = insert_parent_outcome(reg, cfg, id, name)->Ok_0;
    lemma_insert_subs_well_formed(with_parent, cfg, id, subs);
}

/// What stood at the style at `i`, or at one of its sub-styles, occurs
/// nowhere once the style is removed.
pub proof fn lemma_gone_with_style(reg: Seq<StyleView>, cfg: Config, i: int, gone: Pos)
    requires
        well_formed(reg, cfg),
        valid_pos(reg, gone),
        within_style(gone, i),
    ensures
        !contains_id(reg.remove(i), id_at(reg, gone)),
{
    let r = reg.remove(i);
    let id = id_at(reg, gone);
    if has_style_id(r, id) {
        let k = style_index(r, id);
        lemma_removed_style_places(reg, i, Pos::Style(k));
    }
    if has_sub_id(r, id) {
        let (k, l) = sub_pos(r, id);
        lemma_removed_style_places(reg, i, Pos::Sub(k, l));
    }
}

/// Giving the style at `p` a name that no top-level style has, and moving
/// it to the place the name takes, keeps a registry well formed.
pub proof fn lemma_style_moved_well_formed(
    reg: Seq<StyleView>,
    cfg: Config,
    p: int,
    new_name: Seq<u8>,
)
    requires
        well_formed(reg, cfg),
        0 <= p < reg.len(),
        name_fits(new_name, cfg.name_max_length),
        !has_style_named(reg, new_name),
    ensures
        well_formed(with_style_renamed(reg, p, new_name), cfg),
{
    let rest = reg.remove(p);
    let style = StyleView { name: new_name, ..reg[p] };
    lemma_style_index(reg, cfg, p);
    lemma_remove_well_formed(reg, cfg, reg[p].id);
    if has_style_named(rest, new_name) {
        let k = style_index_named(rest, new_name);
        let back = if k < p { k } else { k + 1 };
        assert(holds_name(reg, Pos::Style(back), new_name));
    }
    lemma_gone_with_style(reg, cfg, p, Pos::Style(p));
    assert forall|j: int| 0 <= j < style.sub_styles.len() implies {
        &&& !contains_id(rest, (#[trigger] style.sub_styles[j]).id)
        &&& style.sub_styles[j].id != style.id
    } by {
        lemma_gone_with_style(reg, cfg, p, Pos::Sub(p, j));
    }
    assert forall|j: int, l: int| 0 <= j < l < style.sub_styles.len() implies (
    #[trigger] style.sub_styles[j]).id != (#[trigger] style.sub_styles[l]).id by {
        assert(valid_pos(reg, Pos::Sub(p, j)) && valid_pos(reg, Pos::Sub(p, l)));
    }
    lemma_placed_well_formed(rest, cfg, style);
}

/// Renaming keeps a registry well formed.
pub proof fn lemma_rename_well_formed(
    reg: Seq<StyleView>,
    cfg: Config,
    id: Seq<u8>,
    new_name: Seq<u8>,
)
    requires
        well_formed(reg, cfg),
        rename_outcome(reg, cfg, id, new_name) is Ok,
    ensures
        well_formed(rename_outcome(reg, cfg, id, new_name)->Ok_0, cfg),
{
    let r = rename_outcome(reg, cfg, id, new_name)->Ok_0;
    if has_style_id(reg, id) {
        let p = style_index(reg, id);
        lemma_style_moved_well_formed(reg, cfg, p, new_name);
    } else {
        let (i0, j0) = sub_pos(reg, id);
        assert forall|a: Pos, b: Pos|
            #![trigger valid_pos(r, a), valid_pos(r, b)]
            valid_pos(r, a) && valid_pos(r, b) && id_at(r, a) == id_at(r, b) implies a == b by {
            lemma_renamed_sub_keeps_ids(reg, i0, j0, new_name, a);
            lemma_renamed_sub_keeps_ids(reg, i0, j0, new_name, b);
        }
    }
}

/// Renaming a sub-style leaves every place and every identifier as it was.
pub proof fn lemma_renamed_sub_keeps_ids(
    reg: Seq<StyleView>,
    i: int,
    j: int,
    name: Seq<u8>,
    a: Pos,
)
    requires
        valid_pos(reg, Pos::Sub(i, j)),
    ensures
        valid_pos(with_sub_renamed(reg, i, j, name), a) == valid_pos(reg, a),
        valid_pos(reg, a) ==> id_at(with_sub_renamed(reg, i, j, name), a) == id_at(reg, a),
{
}

/// Removing keeps a registry well formed.
pub proof fn lemma_remove_well_formed(reg: Seq<StyleView>, cfg: Config, id: Seq<u8>)
    requires
        well_formed(reg, cfg),
        remove_outcome(reg, id) is Ok,
    ensures
        well_formed(remove_outcome(reg, id)->Ok_0, cfg),
{
    let r = remove_outcome(reg, id)->Ok_0;
    if has_style_id(reg, id) {
        let p = style_index(reg, id);
        assert forall|a: Pos, b: Pos|
            #![trigger valid_pos(r, a), valid_pos(r, b)]
            valid_pos(r, a) && valid_pos(r, b) && id_at(r, a) == id_at(r, b) implies a == b by {
            lemma_removed_style_places(reg, p, a);
            lemma_removed_style_places(reg, p, b);
        }
    } else {
        let (i0, j0) = sub_pos(reg, id);
        assert forall|a: Pos, b: Pos|
            #![trigger valid_pos(r, a), valid_pos(r, b)]
            valid_pos(r, a) && valid_pos(r, b) && id_at(r, a) == id_at(r, b) implies a == b by {
            lemma_removed_sub_places(reg, i0, j0, a);
            lemma_removed_sub_places(reg, i0, j0, b);
        }
    }
}

/// The place in the registry before a style was removed at `p` of what is
/// now at `a`.
pub open spec fn shifted(a: Pos, p: int) -> Pos {
    match a {
        Pos::Style(i) => if i < p {
            a
        } else {
            Pos::Style(i + 1)
        },
        Pos::Sub(i, j) => if i < p {
            a
        } else {
            Pos::Sub(i + 1, j)
        },
    }
}

/// What is at a place after the style at `p` was removed was at the shifted
/// place before, which is not the removed style nor one of its sub-styles.
pub proof fn lemma_removed_style_places(reg: Seq<StyleView>, p: int, a: Pos)
    requires
        0 <= p < reg.len(),
        valid_pos(reg.remove(p), a),
    ensures
        valid_pos(reg, shifted(a, p)),
        id_at(reg, shifted(a, p)) == id_at(reg.remove(p), a),
        name_at(reg, shifted(a, p)) == name_at(reg.remove(p), a),
        shifted(a, p) != Pos::Style(p),
        forall|j: int| shifted(a, p) != Pos::Sub(p, j),
{
}

/// The place in the registry before the sub-style at `(i0, j0)` was removed
/// of what is now at `a`.
pub open spec fn shifted_sub(a: Pos, i0: int, j0: int) -> Pos {
    match a {
        Pos::Style(_) => a,
        Pos::Sub(i, j) => if i == i0 && j >= j0 {
            Pos::Sub(i, j + 1)
        } else {
            a
        },
    }
}

/// What is at a place after the sub-style at `(i0, j0)` was removed was at
/// the shifted place before, which is not the removed one.
pub proof fn lemma_removed_sub_places(reg: Seq<StyleView>, i0: int, j0: int, a: Pos)
    requires
        valid_pos(reg, Pos::Sub(i0, j0)),
        valid_pos(with_sub_removed(reg, i0, j0), a),
    ensures
        valid_pos(reg, shifted_sub(a, i0, j0)),
        id_at(reg, shifted_sub(a, i0, j0)) == id_at(with_sub_removed(reg, i0, j0), a),
        name_at(reg, shifted_sub(a, i0, j0)) == name_at(with_sub_removed(reg, i0, j0), a),
        shifted_sub(a, i0, j0) != Pos::Sub(i0, j0),
{
}

/// Once the first `n` of `subs` are refused, the whole list is refused for
/// the same reason.
pub proof fn lemma_insert_subs_refused_early(
    reg: Seq<StyleView>,
    cfg: Config,
    parent: Seq<u8>,
    subs: Seq<SubEntryView>,
    n: int,
)
    requires
        0 <= n <= subs.len(),
        insert_subs_outcome(reg, cfg, parent, subs.take(n)) is Err,
    ensures
        insert_subs_outcome(reg, cfg, parent, subs) == insert_subs_outcome(
            reg,
            cfg,
            parent,
            subs.take(n),
        ),
    decreases subs.len() - n,
{
    if n == subs.len() {
        assert(subs.take(n) =~= subs);
    } else {
        assert(subs.drop_last().take(n) =~= subs.take(n));
        lemma_insert_subs_refused_early(reg, cfg, parent, subs.drop_last(), n);
    }
}

/// Inserting the first `n + 1` of `subs` is inserting the first `n` and then
/// the next one.
pub proof fn lemma_insert_subs_step(
    reg: Seq<StyleView>,
    cfg: Config,
    parent: Seq<u8>,
    subs: Seq<SubEntryView>,
    n: int,
)
    requires
        0 <= n < subs.len(),
    ensures
        insert_subs_outcome(reg, cfg, parent, subs.take(n + 1)) == match insert_subs_outcome(
            reg,
            cfg,
            parent,
            subs.take(n),
        ) {
            Ok(r) => insert_sub_outcome(r, cfg, parent, subs[n]),
            Err(e) => Err(e),
        },
{
    assert(subs.take(n + 1).drop_last() =~= subs.take(n));
}

/// What is named as a parent and found is a top-level style.
pub proof fn lemma_resolved_parent_is_style(reg: Seq<StyleView>, cfg: Config, key: StyleKeyView)
    requires
        resolve_parent_spec(reg, cfg, key) is Ok,
    ensures
        has_style_id(reg, resolve_parent_spec(reg, cfg, key)->Ok_0),
{
    if let StyleKeyView::Name(name) = key {
        let i = style_index_named(reg, name);
        assert(holds_id(reg, Pos::Style(i), reg[i].id));
    }
}

/// The sub-style called `name` that no other precedes is the first one.
pub proof fn lemma_first_sub_named(reg: Seq<StyleView>, p: Pos, name: Seq<u8>)
    requires
        is_first_sub_named(reg, p, name),
    ensures
        has_sub_named(reg, name),
        first_sub_named(reg, name) == p,
{
}

} // verus!
