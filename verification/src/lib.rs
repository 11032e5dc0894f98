//! Consistency linter for gettext translation catalogs (PO files).
//!
//! The crate parses a catalog into entries and runs a battery of checks that
//! compare each source string with its translation.

pub mod args;
pub mod ascii;
pub mod c_format;
pub mod checker;
pub mod diagnostic;
pub mod dict;
pub mod highlight;
pub mod po;
pub mod result;
pub mod rules;
pub mod stats;
pub mod text;
pub mod words;
