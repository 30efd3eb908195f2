//! Lazy, zero-copy splitting of a string slice on a delimiter.
//!
//! Positions and lengths in the contracts are counted in characters: the view
//! of a `&str` is its sequence of `char`s.
pub mod matcher;
pub mod segments;
pub mod split;

pub use matcher::Delimiter;
pub use split::{until_char, StrSplit};
