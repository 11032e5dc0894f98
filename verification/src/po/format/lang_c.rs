//! Format strings: C language.

use vstd::prelude::*;
use vstd::string::*;
use vstd::utf8::*;

use crate::ascii;

use crate::po::format::{
    conversion_end, is_ascii_digit, lemma_skip_while, marker_next_char, skip_while, FormatParser,
};
use crate::text::{
    decimal_value, lemma_ascii_boundary, lemma_encode_ascii, lemma_encode_concat, parse_decimal,
    substr,
};

verus! {

/// True for a byte of the flags, width, precision or reordering of a C
/// placeholder.
pub open spec fn is_c_flag(b: u8) -> bool {
    b == ascii::HYPHEN || b == ascii::PLUS || b == ascii::SPACE || b == ascii::HASH || b
        == ascii::DOT || b == ascii::DOLLAR || is_ascii_digit(b)
}

/// The position after the length modifier at `pos`, if there is one: `h`,
/// `hh`, `l`, `ll`, or one of `q L j z Z t`.
pub open spec fn c_length_end(bytes: Seq<u8>, pos: int, len: int) -> int {
    if 0 <= pos < len {
        let b = bytes[pos];
        if b == ascii::LOWER_H || b == ascii::LOWER_L {
            if pos + 1 < len && bytes[pos + 1] == b {
                pos + 2
            } else {
                pos + 1
            }
        } else if b == ascii::LOWER_Q || b == ascii::UPPER_L || b == ascii::LOWER_J || b
            == ascii::LOWER_Z || b == ascii::UPPER_Z || b == ascii::LOWER_T {
            pos + 1
        } else {
            pos
        }
    } else {
        pos
    }
}

/// The end of the C placeholder whose `%` stands just before `pos`: flags,
/// then an optional length modifier, then one conversion character.
pub open spec fn c_format_end(bytes: Seq<u8>, pos: int, len: int) -> int {
    conversion_end(
        bytes,
        c_length_end(bytes, skip_while(bytes, pos, len, |b: u8| is_c_flag(b)), len),
        len,
    )
}

/// A C placeholder ends between `pos` and `len` and holds ASCII bytes only.
pub proof fn lemma_c_format_end(bytes: Seq<u8>, pos: int, len: int)
    requires
        0 <= pos <= len <= bytes.len(),
    ensures
        pos <= c_format_end(bytes, pos, len) <= len,
        forall|k: int| pos <= k < c_format_end(bytes, pos, len) ==> #[trigger] bytes[k] < 0x80,
{
    lemma_skip_while(bytes, pos, len, |b: u8| is_c_flag(b));
}

/// Returns the position after the C placeholder whose `%` stands just before
/// `start`, reading no byte at or after `len`.
pub fn get_index_end_c_format(bytes: &[u8], start: usize, len: usize) -> (r: usize)
    requires
        len <= bytes@.len(),
    ensures
        r == c_format_end(bytes@, start as int, len as int),
{
    let mut pos = start;
    // Skip flags / width / precision / reordering.
    while pos < len && (bytes[pos] == ascii::HYPHEN || bytes[pos] == ascii::PLUS || bytes[pos]
        == ascii::SPACE || bytes[pos] == ascii::HASH || bytes[pos] == ascii::DOT || bytes[pos]
        == ascii::DOLLAR || (bytes[pos] >= ascii::DIGIT_0 && bytes[pos] <= ascii::DIGIT_9))
        invariant
            len <= bytes@.len(),
            start <= pos,
            skip_while(bytes@, start as int, len as int, |b: u8| is_c_flag(b)) == skip_while(
                bytes@,
                pos as int,
                len as int,
                |b: u8| is_c_flag(b),
            ),
        decreases len - pos,
    {
        pos += 1;
    }
    // Parse length modifiers (h, hh, l, ll, q, L, j, z, Z, t).
    if pos < len {
        let b = bytes[pos];
        if b == ascii::LOWER_H || b == ascii::LOWER_L {
            pos += 1;
            if pos < len && bytes[pos] == b {
                pos += 1;
            }
        } else if b == ascii::LOWER_Q || b == ascii::UPPER_L || b == ascii::LOWER_J || b
            == ascii::LOWER_Z || b == ascii::UPPER_Z || b == ascii::LOWER_T {
            pos += 1;
        }
    }
    // Parse conversion specifier (e.g. s, d, f, etc.).
    if pos < len && ((bytes[pos] >= ascii::LOWER_A && bytes[pos] <= ascii::LOWER_Z) || (bytes[pos]
        >= ascii::UPPER_A && bytes[pos] <= ascii::UPPER_Z)) {
        pos += 1;
    }
    pos
}

/// Reads what stands at `pos` for a language whose marker is `marker`.
pub fn marker_next(bytes: &[u8], pos: usize, len: usize, marker: u8) -> (r: (usize, bool))
    requires
        len <= bytes@.len(),
    ensures
        (r.0 as int, r.1) == marker_next_char(bytes@, pos as int, len as int, marker),
{
    if pos >= len || len - pos <= 1 || bytes[pos] != marker {
        (pos, false)
    } else {
        (pos + 1, bytes[pos + 1] != marker)
    }
}

/// The position after the digits that follow the first byte of a
/// placeholder.
pub open spec fn reorder_end(bytes: Seq<u8>) -> int {
    skip_while(bytes, 1, bytes.len() as int, |b: u8| is_ascii_digit(b))
}

/// True for a placeholder of the form `%<digits>$...`, which names the
/// argument that it takes.
pub open spec fn has_reorder_index(bytes: Seq<u8>) -> bool {
    &&& bytes.len() > 0
    &&& bytes[0] == ascii::PERCENT
    &&& 1 < reorder_end(bytes) < bytes.len()
    &&& bytes[reorder_end(bytes)] == ascii::DOLLAR
}

/// The key by which a placeholder is sorted: its reordering index, or the
/// greatest `usize` where it has none or where the index does not fit.
pub open spec fn sort_index(bytes: Seq<u8>) -> nat {
    if has_reorder_index(bytes) && decimal_value(bytes.subrange(1, reorder_end(bytes)))
        <= usize::MAX {
        decimal_value(bytes.subrange(1, reorder_end(bytes)))
    } else {
        usize::MAX as nat
    }
}

/// The placeholder without its reordering index: `%3$d` gives `%d`.
pub open spec fn stripped_index(bytes: Seq<u8>) -> Seq<u8> {
    if has_reorder_index(bytes) {
        seq![ascii::PERCENT] + bytes.subrange(reorder_end(bytes) + 1, bytes.len() as int)
    } else {
        bytes
    }
}

/// Finds the end of the digits that follow the first byte.
fn scan_reorder_digits(bytes: &[u8]) -> (pos: usize)
    requires
        bytes@.len() > 0,
    ensures
        pos == reorder_end(bytes@),
        1 <= pos <= bytes@.len(),
        forall|k: int| 1 <= k < pos ==> is_ascii_digit(#[trigger] bytes@[k]),
{
    let mut pos: usize = 1;
    proof {
        lemma_skip_while(bytes@, 1, bytes@.len() as int, |b: u8| is_ascii_digit(b));
    }
    while pos < bytes.len() && bytes[pos] >= ascii::DIGIT_0 && bytes[pos] <= ascii::DIGIT_9
        invariant
            1 <= pos <= bytes@.len(),
            reorder_end(bytes@) == skip_while(
                bytes@,
                pos as int,
                bytes@.len() as int,
                |b: u8| is_ascii_digit(b),
            ),
        decreases bytes@.len() - pos,
    {
        pos += 1;
    }
    pos
}

/// Returns the reordering index of the placeholder `fmt`, or `usize::MAX`
/// if it has none: for `"%3$d"`, 3.
pub fn fmt_sort_index(fmt: &str) -> (r: usize)
    ensures
        r == sort_index(fmt.spec_bytes()),
{
    let bytes = fmt.as_bytes();
    if bytes.len() == 0 || bytes[0] != ascii::PERCENT {
        return usize::MAX;
    }
    let pos = scan_reorder_digits(bytes);
    if pos == 1 || pos >= bytes.len() || bytes[pos] != ascii::DOLLAR {
        return usize::MAX;
    }
    assert forall|i: int| 0 <= i < bytes@.subrange(1, pos as int).len() implies ascii::DIGIT_0
        <= #[trigger] bytes@.subrange(1, pos as int)[i] <= ascii::DIGIT_9 by {
        assert(is_ascii_digit(bytes@[i + 1]));
    }
    match parse_decimal(bytes, 1, pos) {
        Some(index) => if index > usize::MAX as u64 {
            usize::MAX
        } else {
            index as usize
        },
        None => usize::MAX,
    }
}

/// Returns the placeholder `fmt` without its reordering index: for
/// `"%3$d"`, `"%d"`.
pub fn fmt_strip_index(fmt: &str) -> (r: String)
    ensures
        encode_utf8(r@) == stripped_index(fmt.spec_bytes()),
{
    let bytes = fmt.as_bytes();
    if bytes.len() == 0 || bytes[0] != ascii::PERCENT {
        return fmt.to_owned();
    }
    let pos = scan_reorder_digits(bytes);
    if pos == 1 || pos >= bytes.len() || bytes[pos] != ascii::DOLLAR {
        return fmt.to_owned();
    }
    proof {
        encode_utf8_valid_utf8(fmt@);
        lemma_ascii_boundary(bytes@, pos as int);
        is_char_boundary_start_end_of_seq(bytes@);
    }
    let rest = substr(fmt, pos + 1, bytes.len());
    let mut result = String::from_str("%");
    proof {
        reveal_strlit("%");
        lemma_encode_ascii("%"@);
        assert(encode_utf8("%"@) =~= seq![ascii::PERCENT]);
        lemma_encode_concat("%"@, rest@);
    }
    result.append(rest);
    result
}

/// The recognizer of C format strings.
#[derive(Clone, Copy)]
pub struct FormatC;

impl FormatParser for FormatC {
    open spec fn next_char_at(&self, bytes: Seq<u8>, pos: int, len: int) -> (int, bool) {
        marker_next_char(bytes, pos, len, ascii::PERCENT)
    }

    open spec fn end_format_at(&self, bytes: Seq<u8>, pos: int, len: int) -> int {
        c_format_end(bytes, pos, len)
    }

    #[inline]
    fn next_char(&self, s: &str, pos: usize, len: usize) -> (r: (usize, bool)) {
        marker_next(s.as_bytes(), pos, len, ascii::PERCENT)
    }

    #[inline]
    fn find_end_format(&self, s: &str, pos: usize, len: usize) -> (r: usize) {
        get_index_end_c_format(s.as_bytes(), pos, len)
    }
}

} // verus!
