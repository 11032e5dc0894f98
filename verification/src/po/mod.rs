//! Reader for PO catalogs: entries, messages, escaping, format strings.

pub mod charset;
pub mod entry;
pub mod escape;
pub mod format;
pub mod lines;
pub mod message;
pub mod parser;
pub mod translations;
