//! The records of the registry: styles and sub-styles.

use crate::id::StyleId;
use crate::name::BoundedName;
use vstd::prelude::*;

verus! {

/// What a sub-style is, as plain values.
pub struct SubStyleView {
    pub id: Seq<u8>,
    pub name: Seq<u8>,
    pub parent_id: Seq<u8>,
}

/// What a style is, as plain values.
pub struct StyleView {
    pub id: Seq<u8>,
    pub name: Seq<u8>,
    pub sub_styles: Seq<SubStyleView>,
}

/// What a lookup by identifier gives, as plain values.
pub enum StyleKindView {
    MainStyle(StyleView),
    SubStyle(SubStyleView),
    NotFound,
}

/// A style nested under a top-level style.
#[derive(Debug, PartialEq, Eq)]
pub struct SubStyle {
    pub id: StyleId,
    pub name: BoundedName,
    pub parent_id: StyleId,
}

/// A top-level style with the sub-styles it owns.
#[derive(Debug, PartialEq, Eq)]
pub struct Style {
    pub id: StyleId,
    pub name: BoundedName,
    pub sub_styles: Vec<SubStyle>,
}

/// What an identifier stands for in a registry.
#[derive(Debug, PartialEq, Eq)]
pub enum StyleKind {
    MainStyle(Style),
    SubStyle(SubStyle),
    NotFound,
}

impl View for SubStyle {
    type V = SubStyleView;

    open spec fn view(&self) -> SubStyleView {
        SubStyleView { id: self.id@, name: self.name@, parent_id: self.parent_id@ }
    }
}

/// The views of a list of sub-styles, in order.
pub open spec fn sub_styles_view(subs: Seq<SubStyle>) -> Seq<SubStyleView> {
    Seq::new(subs.len(), |j: int| subs[j]@)
}

impl View for Style {
    type V = StyleView;

    open spec fn view(&self) -> StyleView {
        StyleView {
            id: self.id@,
            name: self.name@,
            sub_styles: sub_styles_view(self.sub_styles@),
        }
    }
}

/// The views of a list of styles, in order.
pub open spec fn styles_view(styles: Seq<Style>) -> Seq<StyleView> {
    Seq::new(styles.len(), |i: int| styles[i]@)
}

impl View for StyleKind {
    type V = StyleKindView;

    open spec fn view(&self) -> StyleKindView {
        match self {
            StyleKind::MainStyle(style) => StyleKindView::MainStyle(style@),
            StyleKind::SubStyle(sub) => StyleKindView::SubStyle(sub@),
            StyleKind::NotFound => StyleKindView::NotFound,
        }
    }
}

impl Clone for SubStyle {
    fn clone(&self) -> (copy: Self)
        ensures
            copy@ == self@,
    {
        SubStyle { id: self.id, name: self.name.clone(), parent_id: self.parent_id }
    }
}

/// A copy of a list of sub-styles.
pub fn clone_sub_styles(subs: &Vec<SubStyle>) -> (copy: Vec<SubStyle>)
    ensures
        sub_styles_view(copy@) == sub_styles_view(subs@),
{
    let mut copy: Vec<SubStyle> = Vec::new();
    let mut j: usize = 0;
    while j < subs.len()
        invariant
            j <= subs.len(),
            copy.len() == j,
            forall|k: int| 0 <= k < j ==> copy@[k]@ == subs@[k]@,
        decreases subs.len() - j,
    {
        copy.push(subs[j].clone());
        j += 1;
    }
    copy
}

impl Clone for Style {
    fn clone(&self) -> (copy: Self)
        ensures
            copy@ == self@,
    {
        Style {
            id: self.id,
            name: self.name.clone(),
            sub_styles: clone_sub_styles(&self.sub_styles),
        }
    }
}

/// A copy of a list of styles.
pub fn clone_styles(styles: &Vec<Style>) -> (copy: Vec<Style>)
    ensures
        styles_view(copy@) == styles_view(styles@),
{
    let mut copy: Vec<Style> = Vec::new();
    let mut i: usize = 0;
    while i < styles.len()
        invariant
            i <= styles.len(),
            copy.len() == i,
            forall|k: int| 0 <= k < i ==> copy@[k]@ == styles@[k]@,
        decreases styles.len() - i,
    {
        copy.push(styles[i].clone());
        i += 1;
    }
    copy
}

impl Clone for StyleKind {
    fn clone(&self) -> (copy: Self)
        ensures
            copy@ == self@,
    {
        match self {
            StyleKind::MainStyle(style) => StyleKind::MainStyle(style.clone()),
            StyleKind::SubStyle(sub) => StyleKind::SubStyle(sub.clone()),
            StyleKind::NotFound => StyleKind::NotFound,
        }
    }
}

} // verus!
