//! Typed records from the key/value script files of a strategy game: a reader for the
//! script format, the catalog of modifiers, and projections of missions, religions and
//! bundled modifiers.

pub mod text;
pub mod modifiers;
pub mod tree;
pub mod scalar;
pub mod localisation;
pub mod error;
pub mod trigger;
pub mod effect;
pub mod missions;
pub mod religions;
pub mod bundled_modifiers;
pub mod imagemagick;
