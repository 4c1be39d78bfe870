//! The reasons for which the registry refuses an operation.

use vstd::prelude::*;

verus! {

/// Why an operation on the registry was refused.
#[derive(Debug, Clone, Copy, PartialEq, Eq)]
pub enum Error {
    /// A name is empty or longer than the configured maximum.
    NameTooLong,
    /// The name, or the identifier derived for it, is already taken.
    NameAlreadyExists,
    /// The identifier or name resolves to nothing.
    StyleNotFound,
    /// The list of styles, or of sub-styles, is full.
    StylesCapacity,
    /// The submitted list of sub-styles repeats an entry.
    DuplicatedStyle,
}

} // verus!
