//! The limits a registry is made with.

use vstd::prelude::*;

verus! {

/// The capacity limits of a registry.
#[derive(Debug, Clone, Copy, PartialEq, Eq)]
pub struct Config {
    /// The largest number of bytes a style name may have.
    pub name_max_length: u32,
    /// The largest number of top-level styles.
    pub max_styles: u32,
    /// The largest number of sub-styles under one style.
    pub max_sub_styles: u32,
}

impl Config {
    pub fn new(name_max_length: u32, max_styles: u32, max_sub_styles: u32) -> (cfg: Config)
        ensures
            cfg == (Config { name_max_length, max_styles, max_sub_styles }),
    {
        Config { name_max_length, max_styles, max_sub_styles }
    }
}

} // verus!
