//! The registry of styles and what can be asked of it.

use crate::config::Config;
use crate::error::Error;
use crate::id::StyleId;
use crate::key::{names_view, StyleKey};
use crate::lemmas::lemma_first_sub_named;
use crate::model::{
    all_sub_names, contains_id, contains_name, contains_spec, find_spec, has_style_named,
    has_sub_named, names_ascend, parent_names, resolve_spec, sub_names, well_formed, Pos,
};
use crate::name::{name_fits, BoundedName};
use crate::order::bytes_order;
use crate::search::{locate_sub_id, locate_sub_named, position_of_style_id, position_of_style_named};
use crate::style::{clone_styles, styles_view, Style, StyleKind, StyleView};
use vstd::prelude::*;

pub mod calls;
pub mod mutation;
pub mod restore;

verus! {

/// The registry of styles: a bounded list of top-level styles, held in the
/// order of their names, each with a bounded list of sub-styles, under the
/// limits it was made with.
///
/// Every value of this type is well formed in the sense of
/// [`well_formed`]; no operation can leave it otherwise.
#[derive(Debug)]
pub struct Pallet {
    config: Config,
    styles: Vec<Style>,
}

impl View for Pallet {
    type V = Seq<StyleView>;

    closed spec fn view(&self) -> Seq<StyleView> {
        styles_view(self.styles@)
    }
}

/// What an operation reports, held against what the model says of it: on
/// success the model gives the new state, on refusal the same error.
pub open spec fn reports<T>(
    result: Result<T, Error>,
    state: Seq<StyleView>,
    outcome: Result<Seq<StyleView>, Error>,
) -> bool {
    match result {
        Ok(_) => outcome == Ok::<Seq<StyleView>, Error>(state),
        Err(e) => outcome == Err::<Seq<StyleView>, Error>(e),
    }
}

impl Pallet {
    #[verifier::type_invariant]
    closed spec fn sound(self) -> bool {
        well_formed(self@, self.config)
    }

    /// The limits the registry was made with.
    pub closed spec fn limits(&self) -> Config {
        self.config
    }

    /// An empty registry under the limits `config`.
    pub fn new(config: Config) -> (pallet: Pallet)
        ensures
            pallet@ == Seq::<StyleView>::empty(),
            pallet.limits() == config,
    {
        let pallet = Pallet { config, styles: Vec::new() };
        pallet
    }

    /// The limits the registry was made with.
    pub fn config(&self) -> (config: Config)
        ensures
            config == self.limits(),
    {
        self.config
    }

    /// States the invariant of the registry, which holds of every value: a
    /// call costs nothing and tells the caller's proof that it holds here.
    pub fn well_formed_holds(&self)
        ensures
            well_formed(self@, self.limits()),
    {
        proof {
            use_type_invariant(self);
        }
    }

    /// The whole tree, as it stands: the styles in the order of their
    /// names, each with its sub-styles in the order in which they were added.
    pub fn styles(&self) -> (styles: &Vec<Style>)
        ensures
            styles_view(styles@) == self@,
            names_ascend(styles_view(styles@)),
    {
        proof {
            use_type_invariant(self);
        }
        &self.styles
    }

    /// The whole tree, as it stands: the styles in the order of their
    /// names, each with its sub-styles in the order in which they were added.
    pub fn get_styles(&self) -> (styles: Vec<Style>)
        ensures
            styles_view(styles@) == self@,
            names_ascend(styles_view(styles@)),
    {
        proof {
            use_type_invariant(self);
        }
        clone_styles(&self.styles)
    }

    /// The number of top-level styles.
    pub fn len(&self) -> (n: usize)
        ensures
            n == self@.len(),
            n <= self.limits().max_styles,
    {
        proof {
            use_type_invariant(self);
        }
        self.styles.len()
    }

    /// Whether the identifier `id` occurs, at either level.
    pub fn contains_id(&self, id: &StyleId) -> (found: bool)
        ensures
            found == contains_id(self@, id@),
    {
        position_of_style_id(&self.styles, id).is_some() || locate_sub_id(
            &self.styles,
            id,
        ).is_some()
    }

    /// Whether the registry holds what `key` names: a top-level style or a
    /// sub-style of any style with that identifier or that name.
    pub fn contains(&self, key: &StyleKey) -> (found: bool)
        ensures
            found == contains_spec(self@, key@),
    {
        match key {
            StyleKey::Id(id) => self.contains_id(id),
            StyleKey::Name(name) => position_of_style_named(&self.styles, name).is_some()
                || locate_sub_named(&self.styles, name).is_some(),
        }
    }

    /// What the identifier `id` stands for: a top-level style, a sub-style,
    /// or nothing. Top-level styles are searched first.
    pub fn find(&self, id: &StyleId) -> (kind: StyleKind)
        ensures
            kind@ == find_spec(self@, id@),
    {
        proof {
            use_type_invariant(self);
        }
        match position_of_style_id(&self.styles, id) {
            Some(i) => {
                StyleKind::MainStyle(self.styles[i].clone())
            },
            None => match locate_sub_id(&self.styles, id) {
                Some((i, j)) => {
                    StyleKind::SubStyle(self.styles[i].sub_styles[j].clone())
                },
                None => StyleKind::NotFound,
            },
        }
    }

    /// The identifier that `key` names, if it names anything. A name goes to
    /// the top-level style called so, else to the first sub-style called so.
    pub fn resolve(&self, key: &StyleKey) -> (id: Option<StyleId>)
        ensures
            match id {
                Some(id) => resolve_spec(self@, key@) == Some(id@),
                None => resolve_spec(self@, key@) is None,
            },
    {
        proof {
            use_type_invariant(self);
        }
        match key {
            StyleKey::Id(id) => {
                if self.contains_id(id) {
                    Some(*id)
                } else {
                    None
                }
            },
            StyleKey::Name(name) => match position_of_style_named(&self.styles, name) {
                Some(i) => {
                    Some(self.styles[i].id)
                },
                None => match locate_sub_named(&self.styles, name) {
                    Some((i, j)) => {
                        proof {
                            lemma_first_sub_named(self@, Pos::Sub(i as int, j as int), name@);
                        }
                        Some(self.styles[i].sub_styles[j].id)
                    },
                    None => None,
                },
            },
        }
    }

    /// The names of the top-level styles, in the order of the names, byte
    /// by byte, which is the order in which the registry holds them.
    pub fn parent_styles(&self) -> (names: Vec<BoundedName>)
        ensures
            names_view(names@) == parent_names(self@),
            forall|i: int, k: int|
                0 <= i < k < names.len() ==> bytes_order(
                    (#[trigger] names@[i])@,
                    (#[trigger] names@[k])@,
                ) < 0,
    {
        proof {
            use_type_invariant(self);
        }
        let mut names: Vec<BoundedName> = Vec::new();
        let mut i: usize = 0;
        while i < self.styles.len()
            invariant
                i <= self.styles.len(),
                names.len() == i,
                forall|k: int| 0 <= k < i ==> names@[k]@ == self.styles@[k].name@,
            decreases self.styles.len() - i,
        {
            names.push(self.styles[i].name.clone());
            i += 1;
        }
        assert forall|i: int, k: int| 0 <= i < k < names.len() implies bytes_order(
            (#[trigger] names@[i])@,
            (#[trigger] names@[k])@,
        ) < 0 by {
            assert(names@[i]@ == self@[i].name && names@[k]@ == self@[k].name);
        }
        names
    }

    /// The names of all sub-styles, style by style in the order of the
    /// styles' names, each style's in the order in which they were added.
    pub fn sub_styles(&self) -> (names: Vec<BoundedName>)
        ensures
            names_view(names@) == all_sub_names(self@),
            names_ascend(self@),
    {
        proof {
            use_type_invariant(self);
        }
        let mut names: Vec<BoundedName> = Vec::new();
        let mut i: usize = 0;
        while i < self.styles.len()
            invariant
                i <= self.styles.len(),
                names_view(names@) == all_sub_names(self@.take(i as int)),
            decreases self.styles.len() - i,
        {
            let subs = &self.styles[i].sub_styles;
            let ghost before = names_view(names@);
            let mut j: usize = 0;
            while j < subs.len()
                invariant
                    j <= subs.len(),
                    subs == &self.styles@[i as int].sub_styles,
                    i < self.styles.len(),
                    names_view(names@) == before + sub_names(self@[i as int].sub_styles).take(
                        j as int,
                    ),
                decreases subs.len() - j,
            {
                let ghost so_far = names_view(names@);
                names.push(subs[j].name.clone());
                assert(names_view(names@) =~= so_far.push(subs@[j as int].name@));
                j += 1;
            }
            assert(self@.take(i + 1).drop_last() =~= self@.take(i as int));
            i += 1;
        }
        assert(self@.take(self.styles.len() as int) =~= self@);
        names
    }

    /// Whether a top-level style is called `style_name`.
    pub fn is_parent_style(&self, style_name: &BoundedName) -> (found: bool)
        ensures
            found == has_style_named(self@, style_name@),
    {
        position_of_style_named(&self.styles, style_name.as_bytes()).is_some()
    }

    /// Whether a sub-style of some style is called `style_name`.
    pub fn is_sub_style(&self, style_name: &BoundedName) -> (found: bool)
        ensures
            found == has_sub_named(self@, style_name@),
    {
        locate_sub_named(&self.styles, style_name.as_bytes()).is_some()
    }

    /// Whether a style or a sub-style is called `style_name`.
    pub fn exist(&self, style_name: &BoundedName) -> (found: bool)
        ensures
            found == contains_name(self@, style_name@),
    {
        if self.is_parent_style(style_name) {
            return true;
        }
        self.is_sub_style(style_name)
    }

    /// Makes a name of `value` under the registry's limit and gives it back
    /// if a style or a sub-style is called so.
    pub fn exist_from(&self, value: Vec<u8>) -> (found: Result<Option<BoundedName>, Error>)
        ensures
            match found {
                Ok(Some(name)) => name@ == value@ && contains_name(self@, value@),
                Ok(None) => !contains_name(self@, value@),
                Err(e) => e == Error::NameTooLong,
            },
            found is Err <==> !name_fits(value@, self.limits().name_max_length),
    {
        let name = BoundedName::make(value, self.config.name_max_length)?;
        if self.exist(&name) {
            Ok(Some(name))
        } else {
            Ok(None)
        }
    }
}

impl Clone for Pallet {
    fn clone(&self) -> (copy: Self)
        ensures
            copy@ == self@,
            copy.limits() == self.limits(),
    {
        proof {
            use_type_invariant(self);
        }
        Pallet { config: self.config, styles: clone_styles(&self.styles) }
    }
}

} // verus!
