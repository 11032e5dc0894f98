//! Implementation of all rules.

pub mod blank;
pub mod brackets;
pub mod c_formats;
pub mod changed;
pub mod common;
pub mod double_quotes;
pub mod double_spaces;
pub mod encoding;
pub mod escapes;
pub mod formats;
pub mod fuzzy;
pub mod long;
pub mod newlines;
pub mod obsolete;
pub mod pipes;
pub mod plurals;
pub mod punc;
pub mod rule;
pub mod short;
pub mod spelling;
pub mod tabs;
pub mod unchanged;
pub mod untranslated;
pub mod whitespace;
