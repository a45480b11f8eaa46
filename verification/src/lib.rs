//! Wraps whole-word occurrences of configured abbreviations in
//! `<abbr title="...">...</abbr>` markup.
//!
//! The text is searched with the `regex` crate; everything that happens to
//! the matches afterwards is verified.

pub mod engine;
pub mod entry;
pub mod laws;
pub mod markup;
pub mod matcher;
pub mod offsets;
pub mod preprocessor;
pub mod splice;

pub use crate::engine::{apply_entry, transform};
pub use crate::entry::{Abbreviation, ConfigError};
pub use crate::markup::{build_annotation, build_word_pattern};
pub use crate::preprocessor::{get_abbr_table, Abbr};
pub use crate::offsets::replace_spans;
