//! Format strings of the supported languages, and the scanners built on
//! them: placeholders, words and characters of a text.

use vstd::prelude::*;
use vstd::string::*;

use crate::ascii;

pub mod char_pos;
pub mod format_pos;
pub mod lang_c;
pub mod lang_null;
pub mod lang_python;
pub mod language;
pub mod word_pos;

verus! {

/// A part of a text, with its position in bytes.
#[derive(Clone, Copy, Debug, PartialEq, Eq)]
pub struct MatchStrPos<'a> {
    pub s: &'a str,
    pub start: usize,
    pub end: usize,
}

impl<'a> MatchStrPos<'a> {
    /// True when this match is the part of `bytes` from `start` to `end`.
    pub open spec fn covers(&self, bytes: Seq<u8>, start: int, end: int) -> bool {
        &&& self.start == start
        &&& self.end == end
        &&& 0 <= start <= end <= bytes.len()
        &&& self.s.spec_bytes() == bytes.subrange(start, end)
    }
}

/// The position after the bytes that `keep` accepts, scanning from `pos`
/// and not beyond `len`.
pub open spec fn skip_while(bytes: Seq<u8>, pos: int, len: int, keep: spec_fn(u8) -> bool) -> int
    decreases len - pos,
{
    if 0 <= pos < len && keep(bytes[pos]) {
        skip_while(bytes, pos + 1, len, keep)
    } else {
        pos
    }
}

/// True for an ASCII letter.
pub open spec fn is_ascii_alpha(b: u8) -> bool {
    (ascii::LOWER_A <= b <= ascii::LOWER_Z) || (ascii::UPPER_A <= b <= ascii::UPPER_Z)
}

/// True for an ASCII digit.
pub open spec fn is_ascii_digit(b: u8) -> bool {
    ascii::DIGIT_0 <= b <= ascii::DIGIT_9
}

/// The position after the conversion character at `pos`, if there is one.
pub open spec fn conversion_end(bytes: Seq<u8>, pos: int, len: int) -> int {
    if 0 <= pos < len && is_ascii_alpha(bytes[pos]) {
        pos + 1
    } else {
        pos
    }
}

/// What a language with the marker `marker` reads at `pos`: a doubled marker
/// is a literal, a marker before another byte starts a placeholder, and a
/// marker that ends the text is an ordinary byte.
pub open spec fn marker_next_char(bytes: Seq<u8>, pos: int, len: int, marker: u8) -> (int, bool) {
    if pos + 1 >= len || bytes[pos] != marker {
        (pos, false)
    } else {
        (pos + 1, bytes[pos + 1] != marker)
    }
}

/// `skip_while` stays between `pos` and `len`, and every byte it passes is
/// accepted by `keep`.
pub proof fn lemma_skip_while(bytes: Seq<u8>, pos: int, len: int, keep: spec_fn(u8) -> bool)
    requires
        0 <= pos <= len,
    ensures
        pos <= skip_while(bytes, pos, len, keep) <= len,
        forall|k: int| pos <= k < skip_while(bytes, pos, len, keep) ==> keep(#[trigger] bytes[k]),
    decreases len - pos,
{
    if pos < len && keep(bytes[pos]) {
        lemma_skip_while(bytes, pos + 1, len, keep);
    }
}

/// A recognizer of the format strings of one language.
pub trait FormatParser {
    /// The position of the next byte to read at `pos`, and whether a
    /// placeholder starts there.
    spec fn next_char_at(&self, bytes: Seq<u8>, pos: int, len: int) -> (int, bool);

    /// The end of the placeholder whose marker stands just before `pos`.
    spec fn end_format_at(&self, bytes: Seq<u8>, pos: int, len: int) -> int;

    /// Returns the position of the next byte to read, and `true` if a
    /// placeholder starts there.
    fn next_char(&self, s: &str, pos: usize, len: usize) -> (r: (usize, bool))
        requires
            len <= s.spec_bytes().len(),
        ensures
            (r.0 as int, r.1) == self.next_char_at(s.spec_bytes(), pos as int, len as int),
    ;

    /// Returns the position after the placeholder that starts before `pos`.
    fn find_end_format(&self, s: &str, pos: usize, len: usize) -> (r: usize)
        requires
            len <= s.spec_bytes().len(),
        ensures
            r == self.end_format_at(s.spec_bytes(), pos as int, len as int),
    ;
}

} // verus!
