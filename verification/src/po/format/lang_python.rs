//! Format strings: Python language, with `%` and with braces.

use vstd::prelude::*;
use vstd::string::*;

use crate::ascii;
use crate::po::format::lang_c::marker_next;
use crate::text::{find_byte, lemma_find_byte};
use crate::po::format::{
    conversion_end, is_ascii_digit, lemma_skip_while, marker_next_char, skip_while, FormatParser,
};

verus! {

/// True for a byte of the flags, width or precision of a Python placeholder.
pub open spec fn is_python_flag(b: u8) -> bool {
    b == ascii::HYPHEN || b == ascii::PLUS || b == ascii::SPACE || b == ascii::HASH || b
        == ascii::DOT || is_ascii_digit(b)
}

/// The position after the length modifier at `pos`, if there is one: `h`,
/// `l` or `L`.
pub open spec fn python_length_end(bytes: Seq<u8>, pos: int, len: int) -> int {
    if 0 <= pos < len && (bytes[pos] == ascii::LOWER_H || bytes[pos] == ascii::LOWER_L
        || bytes[pos] == ascii::UPPER_L) {
        pos + 1
    } else {
        pos
    }
}

/// The end of what follows the keyword of a Python placeholder: flags, then
/// an optional length modifier, then one conversion character.
pub open spec fn python_conversion_end(bytes: Seq<u8>, pos: int, len: int) -> int {
    conversion_end(
        bytes,
        python_length_end(bytes, skip_while(bytes, pos, len, |b: u8| is_python_flag(b)), len),
        len,
    )
}

/// The end of the Python placeholder whose `%` stands just before `pos`. A
/// keyword in parentheses comes first; one that is not closed takes the rest
/// of the text.
pub open spec fn python_format_end(bytes: Seq<u8>, pos: int, len: int) -> int {
    if 0 <= pos < len && bytes[pos] == ascii::PAREN_OPEN {
        let close = find_byte(bytes, pos, ascii::PAREN_CLOSE);
        if close >= bytes.len() {
            len
        } else {
            python_conversion_end(bytes, close + 1, len)
        }
    } else {
        python_conversion_end(bytes, pos, len)
    }
}

/// The end of the brace placeholder entered at depth `level`, scanning from
/// `pos`: the position after the brace that closes it, or `len`.
pub open spec fn brace_end(bytes: Seq<u8>, pos: int, len: int, level: int) -> int
    decreases len - pos,
{
    if !(0 <= pos < len) {
        pos
    } else if bytes[pos] == ascii::CURLY_OPEN {
        brace_end(bytes, pos + 1, len, level + 1)
    } else if bytes[pos] == ascii::CURLY_CLOSE {
        if level <= 1 {
            pos + 1
        } else {
            brace_end(bytes, pos + 1, len, level - 1)
        }
    } else {
        brace_end(bytes, pos + 1, len, level)
    }
}

/// The end of the brace placeholder whose `{` stands just before `pos`.
pub open spec fn brace_format_end(bytes: Seq<u8>, pos: int, len: int) -> int {
    brace_end(bytes, pos, len, 1)
}

/// A Python placeholder in a whole text ends between `pos` and the end of
/// the text, at `pos`, at the end, or after an ASCII byte.
pub proof fn lemma_python_format_end(bytes: Seq<u8>, pos: int)
    requires
        0 <= pos <= bytes.len(),
    ensures
        pos <= python_format_end(bytes, pos, bytes.len() as int) <= bytes.len(),
        ({
            let end = python_format_end(bytes, pos, bytes.len() as int);
            end == pos || end == bytes.len() || bytes[end - 1] < 0x80
        }),
{
    let len = bytes.len() as int;
    if pos < len && bytes[pos] == ascii::PAREN_OPEN {
        lemma_find_byte(bytes, pos, ascii::PAREN_CLOSE);
        let close = find_byte(bytes, pos, ascii::PAREN_CLOSE);
        if close < len {
            lemma_skip_while(bytes, close + 1, len, |b: u8| is_python_flag(b));
        }
    } else {
        lemma_skip_while(bytes, pos, len, |b: u8| is_python_flag(b));
    }
}

/// A brace placeholder ends after `pos` at the latest at `len`, at `len` or
/// after a closing brace.
pub proof fn lemma_brace_end(bytes: Seq<u8>, pos: int, len: int, level: int)
    requires
        0 <= pos <= len <= bytes.len(),
    ensures
        pos <= brace_end(bytes, pos, len, level) <= len,
        ({
            let end = brace_end(bytes, pos, len, level);
            end == len || (end > pos && bytes[end - 1] == ascii::CURLY_CLOSE)
        }),
    decreases len - pos,
{
    if pos < len {
        if bytes[pos] == ascii::CURLY_OPEN {
            lemma_brace_end(bytes, pos + 1, len, level + 1);
        } else if bytes[pos] == ascii::CURLY_CLOSE {
            if level > 1 {
                lemma_brace_end(bytes, pos + 1, len, level - 1);
            }
        } else {
            lemma_brace_end(bytes, pos + 1, len, level);
        }
    }
}

/// The recognizer of Python format strings with `%`.
#[derive(Clone, Copy)]
pub struct FormatPython;

impl FormatParser for FormatPython {
    open spec fn next_char_at(&self, bytes: Seq<u8>, pos: int, len: int) -> (int, bool) {
        marker_next_char(bytes, pos, len, ascii::PERCENT)
    }

    open spec fn end_format_at(&self, bytes: Seq<u8>, pos: int, len: int) -> int {
        python_format_end(bytes, pos, len)
    }

    #[inline]
    fn next_char(&self, s: &str, pos: usize, len: usize) -> (r: (usize, bool)) {
        marker_next(s.as_bytes(), pos, len, ascii::PERCENT)
    }

    #[inline]
    fn find_end_format(&self, s: &str, pos: usize, len: usize) -> (r: usize) {
        let bytes = s.as_bytes();
        let mut pos_end = pos;
        if pos_end < len && bytes[pos_end] == ascii::PAREN_OPEN {
            let mut close = pos_end;
            while close < bytes.len() && bytes[close] != ascii::PAREN_CLOSE
                invariant
                    pos <= close <= bytes@.len(),
                    find_byte(bytes@, pos as int, ascii::PAREN_CLOSE) == find_byte(
                        bytes@,
                        close as int,
                        ascii::PAREN_CLOSE,
                    ),
                decreases bytes@.len() - close,
            {
                close += 1;
            }
            if close >= bytes.len() {
                return len;
            }
            pos_end = close + 1;
        }
        let ghost start = pos_end;
        // Skip conversion flags.
        while pos_end < len && (bytes[pos_end] == ascii::HYPHEN || bytes[pos_end] == ascii::PLUS
            || bytes[pos_end] == ascii::SPACE || bytes[pos_end] == ascii::HASH || bytes[pos_end]
            == ascii::DOT || (bytes[pos_end] >= ascii::DIGIT_0 && bytes[pos_end]
            <= ascii::DIGIT_9))
            invariant
                len <= bytes@.len(),
                start <= pos_end,
                skip_while(bytes@, start as int, len as int, |b: u8| is_python_flag(b))
                    == skip_while(bytes@, pos_end as int, len as int, |b: u8| is_python_flag(b)),
            decreases len - pos_end,
        {
            pos_end += 1;
        }
        // Parse length modifiers (h, l, L).
        if pos_end < len && (bytes[pos_end] == ascii::LOWER_H || bytes[pos_end] == ascii::LOWER_L
            || bytes[pos_end] == ascii::UPPER_L) {
            pos_end += 1;
        }
        // Parse conversion type (e.g. s, d, f, etc.).
        if pos_end < len && ((bytes[pos_end] >= ascii::LOWER_A && bytes[pos_end]
            <= ascii::LOWER_Z) || (bytes[pos_end] >= ascii::UPPER_A && bytes[pos_end]
            <= ascii::UPPER_Z)) {
            pos_end += 1;
        }
        pos_end
    }
}

/// The recognizer of Python format strings with braces.
#[derive(Clone, Copy)]
pub struct FormatPythonBrace;

impl FormatParser for FormatPythonBrace {
    open spec fn next_char_at(&self, bytes: Seq<u8>, pos: int, len: int) -> (int, bool) {
        marker_next_char(bytes, pos, len, ascii::CURLY_OPEN)
    }

    open spec fn end_format_at(&self, bytes: Seq<u8>, pos: int, len: int) -> int {
        brace_format_end(bytes, pos, len)
    }

    #[inline]
    fn next_char(&self, s: &str, pos: usize, len: usize) -> (r: (usize, bool)) {
        marker_next(s.as_bytes(), pos, len, ascii::CURLY_OPEN)
    }

    #[inline]
    fn find_end_format(&self, s: &str, pos: usize, len: usize) -> (r: usize) {
        let bytes = s.as_bytes();
        let mut pos_end = pos;
        // Find the closing curly bracket, skipping any nested curly brackets.
        let mut nested: usize = 0;
        while pos_end < len
            invariant
                bytes@ == s.spec_bytes(),
                len <= bytes@.len(),
                pos <= pos_end,
                nested <= pos_end - pos,
                brace_end(bytes@, pos as int, len as int, 1) == brace_end(
                    bytes@,
                    pos_end as int,
                    len as int,
                    nested + 1,
                ),
            decreases len - pos_end,
        {
            if bytes[pos_end] == ascii::CURLY_OPEN {
                nested += 1;
            } else if bytes[pos_end] == ascii::CURLY_CLOSE {
                if nested == 0 {
                    return pos_end + 1;
                }
                nested -= 1;
            }
            pos_end += 1;
        }
        pos_end
    }
}

} // verus!
