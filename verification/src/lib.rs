//! A registry of music styles: a bounded list of styles in the order of
//! their names, each with a bounded list of sub-styles, found by name or by
//! an identifier derived from the names. Every change is all or nothing.

pub mod config;
pub mod error;
pub mod event;
pub mod genesis;
pub mod hashing;
pub mod id;
pub mod key;
pub mod laws;
pub mod lemmas;
pub mod model;
pub mod name;
pub mod order;
pub mod pallet;
pub mod search;
pub mod style;
pub mod traits;

pub use config::Config;
pub use error::Error;
pub use event::Event;
pub use genesis::GenesisConfig;
pub use id::{derive_id, StyleId};
pub use key::{StyleKey, SubEntry};
pub use name::BoundedName;
pub use pallet::Pallet;
pub use style::{Style, StyleKind, SubStyle};
pub use traits::MutateMusicStyles;
