//! Searching lists of styles and sub-styles by identifier and by name.

use crate::id::StyleId;
use crate::model::{
    has_style_id, has_style_named, has_sub_id, has_sub_named, holds_id, holds_name, place_of,
    pos_le, subs_have_name, Pos,
};
use crate::name::bytes_eq;
use crate::order::compare_bytes;
use crate::style::{styles_view, sub_styles_view, Style, SubStyle, SubStyleView};
use vstd::prelude::*;

verus! {

/// Whether one of `subs` has the identifier `id`.
pub open spec fn subs_have_id(subs: Seq<SubStyleView>, id: Seq<u8>) -> bool {
    exists|j: int| 0 <= j < subs.len() && (#[trigger] subs[j]).id == id
}

/// The index of the first top-level style with the identifier `id`.
pub fn position_of_style_id(styles: &Vec<Style>, id: &StyleId) -> (found: Option<usize>)
    ensures
        match found {
            Some(i) => {
                &&& holds_id(styles_view(styles@), Pos::Style(i as int), id@)
                &&& forall|k: int| #[trigger]
                    holds_id(styles_view(styles@), Pos::Style(k), id@) ==> i <= k
            },
            None => !has_style_id(styles_view(styles@), id@),
        },
{
    let ghost reg = styles_view(styles@);
    let mut i: usize = 0;
    while i < styles.len()
        invariant
            i <= styles.len(),
            reg == styles_view(styles@),
            forall|k: int| 0 <= k < i ==> !holds_id(reg, Pos::Style(k), id@),
        decreases styles.len() - i,
    {
        if styles[i].id == *id {
            return Some(i);
        }
        i += 1;
    }
    None
}

/// The index of the first top-level style called `name`.
pub fn position_of_style_named(styles: &Vec<Style>, name: &Vec<u8>) -> (found: Option<usize>)
    ensures
        match found {
            Some(i) => {
                &&& holds_name(styles_view(styles@), Pos::Style(i as int), name@)
                &&& forall|k: int| #[trigger]
                    holds_name(styles_view(styles@), Pos::Style(k), name@) ==> i <= k
            },
            None => !has_style_named(styles_view(styles@), name@),
        },
{
    let ghost reg = styles_view(styles@);
    let mut i: usize = 0;
    while i < styles.len()
        invariant
            i <= styles.len(),
            reg == styles_view(styles@),
            forall|k: int| 0 <= k < i ==> !holds_name(reg, Pos::Style(k), name@),
        decreases styles.len() - i,
    {
        if bytes_eq(styles[i].name.as_bytes(), name) {
            return Some(i);
        }
        i += 1;
    }
    None
}

/// The place that a style called `name` takes among `styles`: the number
/// of them whose name stands before it.
pub fn place_for(styles: &Vec<Style>, name: &Vec<u8>) -> (place: usize)
    ensures
        place == place_of(styles_view(styles@), name@),
        place <= styles.len(),
{
    let ghost reg = styles_view(styles@);
    let mut place: usize = 0;
    let mut i: usize = 0;
    while i < styles.len()
        invariant
            i <= styles.len(),
            place <= i,
            reg == styles_view(styles@),
            place == place_of(reg.take(i as int), name@),
        decreases styles.len() - i,
    {
        assert(reg.take(i + 1).drop_last() =~= reg.take(i as int));
        if compare_bytes(styles[i].name.as_bytes(), name) < 0 {
            place += 1;
        }
        i += 1;
    }
    assert(reg.take(styles.len() as int) =~= reg);
    place
}

/// The index of the first of `subs` with the identifier `id`.
pub fn position_of_sub_id(subs: &Vec<SubStyle>, id: &StyleId) -> (found: Option<usize>)
    ensures
        match found {
            Some(j) => j < subs.len() && subs@[j as int].id@ == id@ && forall|l: int|
                0 <= l < j ==> (#[trigger] subs@[l]).id@ != id@,
            None => !subs_have_id(sub_styles_view(subs@), id@),
        },
{
    let mut j: usize = 0;
    while j < subs.len()
        invariant
            j <= subs.len(),
            forall|l: int| 0 <= l < j ==> (#[trigger] subs@[l]).id@ != id@,
        decreases subs.len() - j,
    {
        if subs[j].id == *id {
            return Some(j);
        }
        j += 1;
    }
    None
}

/// The index of the first of `subs` called `name`.
pub fn position_of_sub_named(subs: &Vec<SubStyle>, name: &Vec<u8>) -> (found: Option<usize>)
    ensures
        match found {
            Some(j) => j < subs.len() && subs@[j as int].name@ == name@ && forall|l: int|
                0 <= l < j ==> (#[trigger] subs@[l]).name@ != name@,
            None => !subs_have_name(sub_styles_view(subs@), name@),
        },
        found is Some ==> subs_have_name(sub_styles_view(subs@), name@),
{
    let mut j: usize = 0;
    while j < subs.len()
        invariant
            j <= subs.len(),
            forall|l: int| 0 <= l < j ==> (#[trigger] subs@[l]).name@ != name@,
        decreases subs.len() - j,
    {
        if bytes_eq(subs[j].name.as_bytes(), name) {
            assert(sub_styles_view(subs@)[j as int].name == name@);
            return Some(j);
        }
        j += 1;
    }
    None
}

/// The place of the first sub-style with the identifier `id`, in reading
/// order.
pub fn locate_sub_id(styles: &Vec<Style>, id: &StyleId) -> (found: Option<(usize, usize)>)
    ensures
        match found {
            Some((i, j)) => {
                &&& holds_id(styles_view(styles@), Pos::Sub(i as int, j as int), id@)
                &&& forall|k: int, l: int| #[trigger]
                    holds_id(styles_view(styles@), Pos::Sub(k, l), id@) ==> pos_le(
                        Pos::Sub(i as int, j as int),
                        Pos::Sub(k, l),
                    )
            },
            None => !has_sub_id(styles_view(styles@), id@),
        },
{
    let ghost reg = styles_view(styles@);
    let mut i: usize = 0;
    while i < styles.len()
        invariant
            i <= styles.len(),
            reg == styles_view(styles@),
            forall|k: int, l: int| 0 <= k < i ==> !#[trigger] holds_id(reg, Pos::Sub(k, l), id@),
        decreases styles.len() - i,
    {
        if let Some(j) = position_of_sub_id(&styles[i].sub_styles, id) {
            return Some((i, j));
        }
        i += 1;
    }
    None
}

/// The place of the first sub-style called `name`, in reading order.
pub fn locate_sub_named(styles: &Vec<Style>, name: &Vec<u8>) -> (found: Option<(usize, usize)>)
    ensures
        match found {
            Some((i, j)) => {
                &&& holds_name(styles_view(styles@), Pos::Sub(i as int, j as int), name@)
                &&& forall|k: int, l: int| #[trigger]
                    holds_name(styles_view(styles@), Pos::Sub(k, l), name@) ==> pos_le(
                        Pos::Sub(i as int, j as int),
                        Pos::Sub(k, l),
                    )
            },
            None => !has_sub_named(styles_view(styles@), name@),
        },
{
    let ghost reg = styles_view(styles@);
    let mut i: usize = 0;
    while i < styles.len()
        invariant
            i <= styles.len(),
            reg == styles_view(styles@),
            forall|k: int, l: int|
                0 <= k < i ==> !#[trigger] holds_name(reg, Pos::Sub(k, l), name@),
        decreases styles.len() - i,
    {
        if let Some(j) = position_of_sub_named(&styles[i].sub_styles, name) {
            return Some((i, j));
        }
        i += 1;
    }
    None
}

} // verus!
