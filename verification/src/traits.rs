//! Direct changes to a registry, one name at a time.

use crate::config::Config;
use crate::error::Error;
use crate::key::StyleKey;
use crate::model::{add_style_outcome, add_sub_style_outcome, StyleKeyView};
use crate::name::BoundedName;
use crate::pallet::{reports, Pallet};
use crate::style::StyleView;
use vstd::prelude::*;

verus! {

/// Direct changes to a registry of styles, one name at a time, for setting
/// a registry up without reading events.
pub trait MutateMusicStyles: Sized {
    /// The registry, as plain values.
    spec fn registry(&self) -> Seq<StyleView>;

    /// The limits of the registry.
    spec fn registry_limits(&self) -> Config;

    /// Adds the style called `style_name`, without sub-styles. A refusal
    /// leaves the registry as it was.
    fn add_parent_style(&mut self, style_name: BoundedName) -> (result: Result<(), Error>)
        ensures
            reports(
                result,
                final(self).registry(),
                add_style_outcome(
                    old(self).registry(),
                    old(self).registry_limits(),
                    style_name@,
                    None,
                ),
            ),
            result is Err ==> final(self).registry() == old(self).registry(),
            final(self).registry_limits() == old(self).registry_limits(),
    ;

    /// Adds the sub-style called `sub_style_name` under the top-level style
    /// called `parent_style`. A refusal leaves the registry as it was.
    fn add_sub_style(&mut self, sub_style_name: BoundedName, parent_style: BoundedName) -> (result:
        Result<(), Error>)
        ensures
            reports(
                result,
                final(self).registry(),
                add_sub_style_outcome(
                    old(self).registry(),
                    old(self).registry_limits(),
                    StyleKeyView::Name(parent_style@),
                    seq![sub_style_name@],
                ),
            ),
            result is Err ==> final(self).registry() == old(self).registry(),
            final(self).registry_limits() == old(self).registry_limits(),
    ;
}

impl MutateMusicStyles for Pallet {
    open spec fn registry(&self) -> Seq<StyleView> {
        self@
    }

    open spec fn registry_limits(&self) -> Config {
        self.limits()
    }

    fn add_parent_style(&mut self, style_name: BoundedName) -> (result: Result<(), Error>) {
        let added = self.add_style(style_name.into_bytes(), None);
        match added {
            Ok(_) => Ok(()),
            Err(e) => Err(e),
        }
    }

    fn add_sub_style(&mut self, sub_style_name: BoundedName, parent_style: BoundedName) -> (result:
        Result<(), Error>) {
        let ghost name = sub_style_name@;
        let mut subs: Vec<Vec<u8>> = Vec::new();
        subs.push(sub_style_name.into_bytes());
        assert(crate::key::byte_strings_view(subs@) =~= seq![name]);
        let added = Pallet::add_sub_style(self, StyleKey::Name(parent_style.into_bytes()), subs);
        match added {
            Ok(_) => Ok(()),
            Err(e) => Err(e),
        }
    }
}

} // verus!
