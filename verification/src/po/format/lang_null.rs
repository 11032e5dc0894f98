//! Format strings: no language.

use vstd::prelude::*;
use vstd::string::*;

use crate::po::format::FormatParser;

verus! {

/// The recognizer of a text without format strings.
#[derive(Clone, Copy)]
pub struct FormatNull;

impl FormatParser for FormatNull {
    open spec fn next_char_at(&self, bytes: Seq<u8>, pos: int, len: int) -> (int, bool) {
        (pos, false)
    }

    open spec fn end_format_at(&self, bytes: Seq<u8>, pos: int, len: int) -> int {
        len
    }

    #[inline]
    fn next_char(&self, _s: &str, pos: usize, _len: usize) -> (r: (usize, bool)) {
        (pos, false)
    }

    #[inline]
    fn find_end_format(&self, _s: &str, _pos: usize, len: usize) -> (r: usize) {
        len
    }
}

} // verus!
