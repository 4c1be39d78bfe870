//! Telling whether a list of styles is a well-formed registry, and making
//! a registry of one that is.

use crate::config::Config;
use crate::model::{holds_id, id_at, pos_le, style_well_formed, valid_pos, well_formed, Pos};
use crate::name::name_fits;
use crate::order::{bytes_order, compare_bytes, law_order_equal, law_order_strictly_transitive};
use crate::pallet::Pallet;
use crate::search::{locate_sub_id, position_of_style_id, position_of_sub_named};
use crate::style::{styles_view, sub_styles_view, Style, StyleView};
use vstd::prelude::*;

verus! {

/// Whether no place before `p` holds the identifier that `p` holds.
pub open spec fn comes_first(reg: Seq<StyleView>, p: Pos) -> bool {
    &&& forall|k: int| #[trigger] holds_id(reg, Pos::Style(k), id_at(reg, p)) ==> pos_le(
        p,
        Pos::Style(k),
    )
    &&& forall|k: int, l: int| #[trigger]
        holds_id(reg, Pos::Sub(k, l), id_at(reg, p)) ==> pos_le(p, Pos::Sub(k, l))
}

/// What is asked of the style at `i` for the whole list to be well formed:
/// it is well formed itself, the name of every style before it stands
/// before its name, and neither its identifier nor that of any of its
/// sub-styles occurs at an earlier place.
pub open spec fn style_passes(reg: Seq<StyleView>, cfg: Config, i: int) -> bool {
    &&& style_well_formed(reg[i], cfg)
    &&& forall|k: int| 0 <= k < i ==> bytes_order((#[trigger] reg[k]).name, reg[i].name) < 0
    &&& comes_first(reg, Pos::Style(i))
    &&& forall|j: int|
        0 <= j < reg[i].sub_styles.len() ==> #[trigger] comes_first(reg, Pos::Sub(i, j))
}

/// A list no longer than allowed, every style of which passes, is well
/// formed.
pub proof fn lemma_passing_styles_are_well_formed(reg: Seq<StyleView>, cfg: Config)
    requires
        reg.len() <= cfg.max_styles,
        forall|i: int| 0 <= i < reg.len() ==> #[trigger] style_passes(reg, cfg, i),
    ensures
        well_formed(reg, cfg),
{
    assert forall|i: int| 0 <= i < reg.len() implies style_well_formed(#[trigger] reg[i], cfg) by {
        assert(style_passes(reg, cfg, i));
    }
    assert forall|i: int, k: int| 0 <= i < k < reg.len() implies bytes_order(
        (#[trigger] reg[i]).name,
        (#[trigger] reg[k]).name,
    ) < 0 && reg[i].name != reg[k].name by {
        assert(style_passes(reg, cfg, k));
        law_order_equal(reg[i].name, reg[k].name);
    }
    assert forall|p: Pos, q: Pos|
        #![trigger valid_pos(reg, p), valid_pos(reg, q)]
        valid_pos(reg, p) && valid_pos(reg, q) && id_at(reg, p) == id_at(reg, q) implies p
        == q by {
        lemma_passing_place_comes_first(reg, cfg, p);
        lemma_passing_place_comes_first(reg, cfg, q);
        lemma_first_before(reg, p, q);
        lemma_first_before(reg, q, p);
    }
}

/// Every place of a style that passes comes first.
proof fn lemma_passing_place_comes_first(reg: Seq<StyleView>, cfg: Config, p: Pos)
    requires
        valid_pos(reg, p),
        forall|i: int| 0 <= i < reg.len() ==> #[trigger] style_passes(reg, cfg, i),
    ensures
        comes_first(reg, p),
{
    match p {
        Pos::Style(i) => {
            assert(style_passes(reg, cfg, i));
        },
        Pos::Sub(i, j) => {
            assert(style_passes(reg, cfg, i));
        },
    }
}

/// A place that comes first stands before every place with its identifier.
proof fn lemma_first_before(reg: Seq<StyleView>, p: Pos, q: Pos)
    requires
        comes_first(reg, p),
        valid_pos(reg, q),
        id_at(reg, q) == id_at(reg, p),
    ensures
        pos_le(p, q),
{
    match q {
        Pos::Style(k) => {
            assert(holds_id(reg, Pos::Style(k), id_at(reg, p)));
        },
        Pos::Sub(k, l) => {
            assert(holds_id(reg, Pos::Sub(k, l), id_at(reg, p)));
        },
    }
}

/// In a well-formed list every style passes.
pub proof fn lemma_well_formed_styles_pass(reg: Seq<StyleView>, cfg: Config, i: int)
    requires
        well_formed(reg, cfg),
        0 <= i < reg.len(),
    ensures
        style_passes(reg, cfg, i),
{
    lemma_sole_place_comes_first(reg, cfg, Pos::Style(i));
    assert forall|j: int| 0 <= j < reg[i].sub_styles.len() implies #[trigger] comes_first(
        reg,
        Pos::Sub(i, j),
    ) by {
        lemma_sole_place_comes_first(reg, cfg, Pos::Sub(i, j));
    }
}

/// In a well-formed list every place comes first, being the only one with
/// its identifier.
proof fn lemma_sole_place_comes_first(reg: Seq<StyleView>, cfg: Config, p: Pos)
    requires
        well_formed(reg, cfg),
        valid_pos(reg, p),
    ensures
        comes_first(reg, p),
{
}

/// Whether `style` is well formed by itself under the limits `cfg`.
pub fn style_is_well_formed(style: &Style, cfg: &Config) -> (ok: bool)
    ensures
        ok == style_well_formed(style@, *cfg),
{
    let ghost subs = sub_styles_view(style.sub_styles@);
    if style.name.len() > cfg.name_max_length as usize {
        return false;
    }
    if style.sub_styles.len() > cfg.max_sub_styles as usize {
        return false;
    }
    let mut j: usize = 0;
    while j < style.sub_styles.len()
        invariant
            j <= style.sub_styles.len(),
            subs == sub_styles_view(style.sub_styles@),
            subs == style@.sub_styles,
            forall|l: int|
                0 <= l < j ==> {
                    &&& name_fits((#[trigger] subs[l]).name, cfg.name_max_length)
                    &&& subs[l].parent_id == style@.id
                },
            forall|a: int, b: int|
                0 <= a < b < j ==> (#[trigger] subs[a]).name != (#[trigger] subs[b]).name,
        decreases style.sub_styles.len() - j,
    {
        let sub = &style.sub_styles[j];
        assert(subs[j as int] == sub@);
        if sub.name.len() > cfg.name_max_length as usize {
            return false;
        }
        if sub.parent_id != style.id {
            return false;
        }
        match position_of_sub_named(&style.sub_styles, sub.name.as_bytes()) {
            Some(first) => {
                if first != j {
                    assert(subs[first as int].name == subs[j as int].name);
                    return false;
                }
            },
            None => {
                return false;
            },
        }
        j += 1;
    }
    true
}

/// Whether the identifier of the style at `i` occurs at no earlier place.
fn style_id_comes_first(styles: &Vec<Style>, i: usize) -> (ok: bool)
    requires
        i < styles.len(),
    ensures
        ok == comes_first(styles_view(styles@), Pos::Style(i as int)),
{
    let ghost reg = styles_view(styles@);
    let id = styles[i].id;
    assert(holds_id(reg, Pos::Style(i as int), id@));
    let first_style = position_of_style_id(styles, &id);
    let first_sub = locate_sub_id(styles, &id);
    match first_style {
        Some(s) => {
            if s != i {
                return false;
            }
        },
        None => {
            return false;
        },
    }
    if let Some((a, _)) = first_sub {
        if a < i {
            return false;
        }
    }
    true
}

/// Whether the identifier of the `j`-th sub-style of the style at `i`
/// occurs at no earlier place.
fn sub_id_comes_first(styles: &Vec<Style>, i: usize, j: usize) -> (ok: bool)
    requires
        i < styles.len(),
        j < styles@[i as int].sub_styles@.len(),
    ensures
        ok == comes_first(styles_view(styles@), Pos::Sub(i as int, j as int)),
{
    let ghost reg = styles_view(styles@);
    let id = styles[i].sub_styles[j].id;
    assert(holds_id(reg, Pos::Sub(i as int, j as int), id@));
    let first_style = position_of_style_id(styles, &id);
    let first_sub = locate_sub_id(styles, &id);
    if let Some(s) = first_style {
        if s <= i {
            return false;
        }
    }
    match first_sub {
        Some((a, b)) => {
            if a != i || b != j {
                return false;
            }
        },
        None => {
            return false;
        },
    }
    true
}

/// Whether the style at `i` passes, where those before it do.
fn style_at_passes(styles: &Vec<Style>, cfg: &Config, i: usize) -> (ok: bool)
    requires
        i < styles.len(),
        forall|k: int| 0 <= k < i ==> #[trigger] style_passes(styles_view(styles@), *cfg, k),
    ensures
        ok == style_passes(styles_view(styles@), *cfg, i as int),
{
    let ghost reg = styles_view(styles@);
    if !style_is_well_formed(&styles[i], cfg) {
        return false;
    }
    if i > 0 {
        if compare_bytes(styles[i - 1].name.as_bytes(), styles[i].name.as_bytes()) >= 0 {
            assert(reg[i - 1].name == styles@[i - 1].name@);
            return false;
        }
        assert forall|k: int| 0 <= k < i implies bytes_order(
            (#[trigger] reg[k]).name,
            reg[i as int].name,
        ) < 0 by {
            if k < i - 1 {
                assert(style_passes(reg, *cfg, i - 1));
                law_order_strictly_transitive(reg[k].name, reg[i - 1].name, reg[i as int].name);
            }
        }
    }
    if !style_id_comes_first(styles, i) {
        return false;
    }
    let mut j: usize = 0;
    while j < styles[i].sub_styles.len()
        invariant
            i < styles.len(),
            j <= styles@[i as int].sub_styles@.len(),
            reg == styles_view(styles@),
            forall|l: int| 0 <= l < j ==> #[trigger] comes_first(reg, Pos::Sub(i as int, l)),
        decreases styles@[i as int].sub_styles@.len() - j,
    {
        if !sub_id_comes_first(styles, i, j) {
            return false;
        }
        j += 1;
    }
    true
}

/// Whether `styles` is a well-formed registry under the limits `cfg`.
pub fn styles_are_well_formed(styles: &Vec<Style>, cfg: &Config) -> (ok: bool)
    ensures
        ok == well_formed(styles_view(styles@), *cfg),
{
    let ghost reg = styles_view(styles@);
    if styles.len() > cfg.max_styles as usize {
        return false;
    }
    let mut i: usize = 0;
    while i < styles.len()
        invariant
            i <= styles.len(),
            reg == styles_view(styles@),
            reg.len() <= cfg.max_styles,
            forall|k: int| 0 <= k < i ==> #[trigger] style_passes(reg, *cfg, k),
        decreases styles.len() - i,
    {
        if !style_at_passes(styles, cfg, i) {
            proof {
                if well_formed(reg, *cfg) {
                    lemma_well_formed_styles_pass(reg, *cfg, i as int);
                }
            }
            return false;
        }
        i += 1;
    }
    proof {
        lemma_passing_styles_are_well_formed(reg, *cfg);
    }
    true
}

impl Pallet {
    /// The registry that holds `styles` under the limits `config`, where
    /// they are well formed; nothing where they are not.
    pub fn from_styles(config: Config, styles: Vec<Style>) -> (restored: Option<Pallet>)
        ensures
            match restored {
                Some(pallet) => {
                    &&& pallet@ == styles_view(styles@)
                    &&& pallet.limits() == config
                    &&& well_formed(styles_view(styles@), config)
                },
                None => !well_formed(styles_view(styles@), config),
            },
    {
        if styles_are_well_formed(&styles, &config) {
            Some(Pallet { config, styles })
        } else {
            None
        }
    }

    /// The styles of the registry, by value.
    pub fn into_styles(self) -> (styles: Vec<Style>)
        ensures
            styles_view(styles@) == self@,
    {
        self.styles
    }
}

} // verus!
