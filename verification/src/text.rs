//! Primitives on text: a string seen as its UTF-8 bytes, with positions that
//! are byte offsets, and the characters that start at such positions.

use vstd::prelude::*;
use vstd::slice::*;
use vstd::string::*;
use vstd::utf8::*;

use crate::ascii;

verus! {

/// `String::push` appends one character at the end of the string.
pub assume_specification[ String::push ](s: &mut String, c: char)
    ensures
        final(s)@ == old(s)@.push(c),
;

/// Whether `c` is a letter or a number of Unicode: what `char::is_alphanumeric`
/// answers.
pub uninterp spec fn unicode_alphanumeric(c: char) -> bool;

/// `char::is_alphanumeric` depends on the character alone; its answer is
/// named `unicode_alphanumeric`.
pub assume_specification[ char::is_alphanumeric ](c: char) -> (r: bool)
    ensures
        r == unicode_alphanumeric(c),
;

/// Whether `c` is white space of Unicode: what `char::is_whitespace`
/// answers.
pub uninterp spec fn unicode_whitespace(c: char) -> bool;

/// `char::is_whitespace` depends on the character alone; its answer is named
/// `unicode_whitespace`.
pub assume_specification[ char::is_whitespace ](c: char) -> (r: bool)
    ensures
        r == unicode_whitespace(c),
;

/// `s` without the white space at its start.
pub open spec fn trimmed_start(s: Seq<char>) -> Seq<char>
    decreases s.len(),
{
    if s.len() > 0 && unicode_whitespace(s[0]) {
        trimmed_start(s.drop_first())
    } else {
        s
    }
}

/// `s` without the white space at its end.
pub open spec fn trimmed_end(s: Seq<char>) -> Seq<char>
    decreases s.len(),
{
    if s.len() > 0 && unicode_whitespace(s.last()) {
        trimmed_end(s.drop_last())
    } else {
        s
    }
}

/// `s` without the white space at its start and at its end.
pub open spec fn trimmed(s: Seq<char>) -> Seq<char> {
    trimmed_end(trimmed_start(s))
}

/// `str::trim` gives the text without the white space at its start and at
/// its end, white space being what `char::is_whitespace` accepts.
pub assume_specification[ str::trim ](s: &str) -> (r: &str)
    ensures
        r@ == trimmed(s@),
;

/// The lowercase form of a text: what `str::to_lowercase` gives.
pub uninterp spec fn lowercased(s: Seq<char>) -> Seq<char>;

/// `str::to_lowercase` depends on the text alone; its result is named
/// `lowercased`.
pub assume_specification[ str::to_lowercase ](s: &str) -> (r: String)
    ensures
        r@ == lowercased(s@),
;

/// The uppercase form of a text: what `str::to_uppercase` gives.
pub uninterp spec fn uppercased(s: Seq<char>) -> Seq<char>;

/// `str::to_uppercase` depends on the text alone; its result is named
/// `uppercased`.
pub assume_specification[ str::to_uppercase ](s: &str) -> (r: String)
    ensures
        r@ == uppercased(s@),
;

/// Whether `c` is a letter of Unicode: what `char::is_alphabetic` answers.
pub uninterp spec fn unicode_alphabetic(c: char) -> bool;

/// `char::is_alphabetic` depends on the character alone; its answer is
/// named `unicode_alphabetic`.
pub assume_specification[ char::is_alphabetic ](c: char) -> (r: bool)
    ensures
        r == unicode_alphabetic(c),
;

/// Whether `c` is an uppercase letter of Unicode: what `char::is_uppercase`
/// answers.
pub uninterp spec fn unicode_uppercase(c: char) -> bool;

/// `char::is_uppercase` depends on the character alone; its answer is named
/// `unicode_uppercase`.
pub assume_specification[ char::is_uppercase ](c: char) -> (r: bool)
    ensures
        r == unicode_uppercase(c),
;

/// The text that `String::from_utf8_lossy` makes of bytes: each malformed
/// sequence replaced by U+FFFD.
pub uninterp spec fn lossy_text(bytes: Seq<u8>) -> Seq<char>;

/// Calls `std::str::from_utf8`: the bytes as a string where they are valid
/// UTF-8, and nothing where they are not.
#[verifier::external_body]
pub(crate) fn utf8_str<'a>(bytes: &'a [u8]) -> (r: Option<&'a str>)
    ensures
        r is Some <==> valid_utf8(bytes@),
        r is Some ==> r->0.spec_bytes() == bytes@,
{
    std::str::from_utf8(bytes).ok()
}

/// Calls `String::from_utf8_lossy`, whose result is named `lossy_text`;
/// valid UTF-8 is decoded as it stands.
#[verifier::external_body]
pub(crate) fn utf8_lossy(bytes: &[u8]) -> (r: String)
    ensures
        r@ == lossy_text(bytes@),
        valid_utf8(bytes@) ==> r@ == decode_utf8(bytes@),
{
    String::from_utf8_lossy(bytes).into_owned()
}

/// The position of the first byte `b` at or after `pos`, or the length of
/// `bytes` if there is none.
pub open spec fn find_byte(bytes: Seq<u8>, pos: int, b: u8) -> int
    decreases bytes.len() - pos,
{
    if pos < 0 || pos >= bytes.len() {
        bytes.len() as int
    } else if bytes[pos] == b {
        pos
    } else {
        find_byte(bytes, pos + 1, b)
    }
}

/// `find_byte` gives a position at or after `pos` that holds `b`, or the
/// length of `bytes`.
pub proof fn lemma_find_byte(bytes: Seq<u8>, pos: int, b: u8)
    requires
        0 <= pos <= bytes.len(),
    ensures
        pos <= find_byte(bytes, pos, b) <= bytes.len(),
        find_byte(bytes, pos, b) < bytes.len() ==> bytes[find_byte(bytes, pos, b)] == b,
        forall|k: int| pos <= k < find_byte(bytes, pos, b) ==> #[trigger] bytes[k] != b,
    decreases bytes.len() - pos,
{
    if pos < bytes.len() && bytes[pos] != b {
        lemma_find_byte(bytes, pos + 1, b);
    }
}

/// A position that holds `b` after none that does is what `find_byte`
/// gives.
pub proof fn lemma_find_byte_is(bytes: Seq<u8>, pos: int, b: u8, at: int)
    requires
        0 <= pos <= at <= bytes.len(),
        at < bytes.len() ==> bytes[at] == b,
        forall|k: int| pos <= k < at ==> #[trigger] bytes[k] != b,
    ensures
        find_byte(bytes, pos, b) == at,
    decreases at - pos,
{
    if pos < at {
        lemma_find_byte_is(bytes, pos + 1, b, at);
    }
}

/// The position of the last byte `b` before `end`, or -1 if there is none.
pub open spec fn rfind_byte(bytes: Seq<u8>, end: int, b: u8) -> int
    decreases end,
{
    if end <= 0 || end > bytes.len() {
        -1
    } else if bytes[end - 1] == b {
        end - 1
    } else {
        rfind_byte(bytes, end - 1, b)
    }
}

/// `rfind_byte` gives a position before `end` that holds `b` before none
/// that does, or -1.
pub proof fn lemma_rfind_byte(bytes: Seq<u8>, end: int, b: u8)
    requires
        0 <= end <= bytes.len(),
    ensures
        -1 <= rfind_byte(bytes, end, b) < end,
        rfind_byte(bytes, end, b) >= 0 ==> bytes[rfind_byte(bytes, end, b)] == b,
        forall|k: int| rfind_byte(bytes, end, b) < k < end ==> #[trigger] bytes[k] != b,
    decreases end,
{
    if end > 0 && bytes[end - 1] != b {
        lemma_rfind_byte(bytes, end - 1, b);
    }
}

/// A position that holds `b` before none that does is what `rfind_byte`
/// gives.
pub proof fn lemma_rfind_byte_is(bytes: Seq<u8>, end: int, b: u8, at: int)
    requires
        -1 <= at < end <= bytes.len(),
        at >= 0 ==> bytes[at] == b,
        forall|k: int| at < k < end ==> #[trigger] bytes[k] != b,
    ensures
        rfind_byte(bytes, end, b) == at,
    decreases end,
{
    if end - 1 > at {
        lemma_rfind_byte_is(bytes, end - 1, b, at);
    }
}

/// Calls `memchr::memchr`: the index of the first occurrence of `needle` in
/// `haystack`, or nothing if it does not occur.
#[verifier::external_body]
fn memchr_first(needle: u8, haystack: &[u8]) -> (r: Option<usize>)
    ensures
        match r {
            Some(i) => i < haystack@.len() && haystack@[i as int] == needle && forall|k: int|
                0 <= k < i ==> #[trigger] haystack@[k] != needle,
            None => forall|k: int| 0 <= k < haystack@.len() ==> #[trigger] haystack@[k] != needle,
        },
{
    memchr::memchr(needle, haystack)
}

/// Calls `memchr::memrchr`: the index of the last occurrence of `needle` in
/// `haystack`, or nothing if it does not occur.
#[verifier::external_body]
fn memchr_last(needle: u8, haystack: &[u8]) -> (r: Option<usize>)
    ensures
        match r {
            Some(i) => i < haystack@.len() && haystack@[i as int] == needle && forall|k: int|
                i < k < haystack@.len() ==> #[trigger] haystack@[k] != needle,
            None => forall|k: int| 0 <= k < haystack@.len() ==> #[trigger] haystack@[k] != needle,
        },
{
    memchr::memrchr(needle, haystack)
}

/// Finds the first byte `b` of `bytes` at or after `pos`; gives the length
/// of `bytes` if there is none.
pub fn find_first(bytes: &[u8], pos: usize, b: u8) -> (r: usize)
    requires
        pos <= bytes@.len(),
    ensures
        r == find_byte(bytes@, pos as int, b),
        pos <= r <= bytes@.len(),
{
    let rest = slice_subrange(bytes, pos, bytes.len());
    match memchr_first(b, rest) {
        Some(i) => {
            proof {
                assert forall|k: int| pos <= k < pos + i implies #[trigger] bytes@[k] != b by {
                    assert(rest@[k - pos] == bytes@[k]);
                }
                assert(rest@[i as int] == bytes@[pos + i]);
                lemma_find_byte_is(bytes@, pos as int, b, pos + i);
            }
            pos + i
        },
        None => {
            proof {
                assert forall|k: int| pos <= k < bytes@.len() implies #[trigger] bytes@[k]
                    != b by {
                    assert(rest@[k - pos] == bytes@[k]);
                }
                lemma_find_byte_is(bytes@, pos as int, b, bytes@.len() as int);
            }
            bytes.len()
        },
    }
}

/// Finds the last byte `b` of `bytes`; gives nothing if there is none.
pub fn find_last(bytes: &[u8], b: u8) -> (r: Option<usize>)
    ensures
        match r {
            Some(i) => i == rfind_byte(bytes@, bytes@.len() as int, b),
            None => rfind_byte(bytes@, bytes@.len() as int, b) == -1,
        },
{
    let r = memchr_last(b, bytes);
    proof {
        match r {
            Some(i) => {
                lemma_rfind_byte_is(bytes@, bytes@.len() as int, b, i as int);
            },
            None => {
                lemma_rfind_byte_is(bytes@, bytes@.len() as int, b, -1);
            },
        }
    }
    r
}

/// The bytes of `bytes` from `pos` to the end.
pub open spec fn tail(bytes: Seq<u8>, pos: int) -> Seq<u8> {
    bytes.subrange(pos, bytes.len() as int)
}

/// The character whose encoding starts at `pos`.
pub open spec fn char_at(bytes: Seq<u8>, pos: int) -> char {
    decode_first_scalar(tail(bytes, pos)) as char
}

/// The number of bytes of the character whose encoding starts at `pos`.
pub open spec fn width_at(bytes: Seq<u8>, pos: int) -> int {
    length_of_first_scalar(tail(bytes, pos))
}

/// The number of bytes of `bytes` from `pos` on: what a scan has left.
pub open spec fn left(bytes: Seq<u8>, pos: int) -> nat {
    if pos < bytes.len() {
        (bytes.len() - pos) as nat
    } else {
        0
    }
}

/// A character takes from one to four bytes.
pub proof fn lemma_width_at(bytes: Seq<u8>, pos: int)
    ensures
        1 <= width_at(bytes, pos) <= 4,
{
}

/// True for an ASCII byte.
pub open spec fn is_ascii_byte(b: u8) -> bool {
    b < 0x80
}

/// In valid UTF-8, a character starts at each boundary before the end, and
/// the position after it is a boundary again.
pub proof fn lemma_boundary_step(bytes: Seq<u8>, pos: int)
    requires
        valid_utf8(bytes),
        is_char_boundary(bytes, pos),
        0 <= pos < bytes.len(),
    ensures
        valid_utf8(tail(bytes, pos)),
        valid_first_scalar(tail(bytes, pos)),
        1 <= width_at(bytes, pos) <= 4,
        pos + width_at(bytes, pos) <= bytes.len(),
        is_char_boundary(bytes, pos + width_at(bytes, pos)),
        encode_scalar(char_at(bytes, pos) as u32).len() == width_at(bytes, pos),
    decreases bytes.len(),
{
    valid_utf8_split(bytes, pos);
    let t = tail(bytes, pos);
    decode_utf8_first_scalar(t);
    if pos == 0 {
        assert(t =~= bytes);
        is_char_boundary_start_end_of_seq(pop_first_scalar(bytes));
    } else {
        let first = length_of_first_scalar(bytes);
        let rest = pop_first_scalar(bytes);
        assert(is_char_boundary(rest, pos - first));
        assert(pos - first >= 0) by {
            reveal_with_fuel(is_char_boundary, 2);
        }
        assert(pos - first < rest.len());
        lemma_boundary_step(rest, pos - first);
        assert(tail(rest, pos - first) =~= t);
    }
}

/// In valid UTF-8, an ASCII byte is a character of its own: a boundary stands
/// before it and after it.
pub proof fn lemma_ascii_boundary(bytes: Seq<u8>, pos: int)
    requires
        valid_utf8(bytes),
        0 <= pos < bytes.len(),
        is_ascii_byte(bytes[pos]),
    ensures
        is_char_boundary(bytes, pos),
        is_char_boundary(bytes, pos + 1),
        width_at(bytes, pos) == 1,
{
    is_char_boundary_iff_not_is_continuation_byte(bytes, pos);
    lemma_boundary_step(bytes, pos);
    assert(tail(bytes, pos)[0] == bytes[pos]);
}

/// A position inside a part cut at boundaries is a boundary of the part
/// exactly when it is one of the whole.
pub proof fn lemma_boundary_in_part(bytes: Seq<u8>, start: int, end: int, pos: int)
    requires
        valid_utf8(bytes),
        0 <= start <= pos <= end <= bytes.len(),
        is_char_boundary(bytes, start),
        is_char_boundary(bytes, end),
    ensures
        valid_utf8(bytes.subrange(start, end)),
        is_char_boundary(bytes.subrange(start, end), pos - start) == is_char_boundary(bytes, pos),
{
    valid_utf8_split(bytes, end);
    let head = bytes.subrange(0, end);
    if start < end {
        is_char_boundary_iff_not_is_continuation_byte(bytes, start);
        is_char_boundary_iff_not_is_continuation_byte(head, start);
    } else {
        is_char_boundary_start_end_of_seq(head);
    }
    valid_utf8_split(head, start);
    let part = bytes.subrange(start, end);
    assert(part =~= head.subrange(start, head.len() as int));
    if pos < end {
        is_char_boundary_iff_not_is_continuation_byte(bytes, pos);
        is_char_boundary_iff_not_is_continuation_byte(part, pos - start);
    } else {
        is_char_boundary_start_end_of_seq(part);
    }
}

/// The part of `s` between two boundaries.
pub fn substr<'a>(s: &'a str, start: usize, end: usize) -> (r: &'a str)
    requires
        start <= end <= s.spec_bytes().len(),
        is_char_boundary(s.spec_bytes(), start as int),
        is_char_boundary(s.spec_bytes(), end as int),
    ensures
        r.spec_bytes() == s.spec_bytes().subrange(start as int, end as int),
{
    let (head, _) = s.split_at(end);
    proof {
        encode_utf8_valid_utf8(s@);
        lemma_boundary_in_part(s.spec_bytes(), 0, end as int, start as int);
    }
    let (_, part) = head.split_at(start);
    assert(part.spec_bytes() =~= s.spec_bytes().subrange(start as int, end as int));
    part
}

/// The number of bytes that encode `c`.
pub fn char_width(c: char) -> (w: usize)
    ensures
        w == encode_scalar(c as u32).len(),
        1 <= w <= 4,
{
    proof {
        char_is_scalar(c);
    }
    let v = c as u32;
    if v < 0x80 {
        1
    } else if v < 0x800 {
        2
    } else if v < 0x10000 {
        3
    } else {
        4
    }
}

/// The start of the character that ends at `pos`: the nearest position
/// before `pos` that holds no continuation byte, or 0.
pub open spec fn prev_boundary(bytes: Seq<u8>, pos: int) -> int
    decreases pos,
{
    if pos <= 1 {
        0
    } else if pos - 1 < bytes.len() && is_continuation_byte(bytes[pos - 1]) {
        prev_boundary(bytes, pos - 1)
    } else {
        pos - 1
    }
}

/// The start of the character that ends at `pos` lies before `pos`.
pub proof fn lemma_prev_boundary_bounds(bytes: Seq<u8>, pos: int)
    requires
        0 < pos,
    ensures
        0 <= prev_boundary(bytes, pos) < pos,
    decreases pos,
{
    if pos > 1 && pos - 1 < bytes.len() && is_continuation_byte(bytes[pos - 1]) {
        lemma_prev_boundary_bounds(bytes, pos - 1);
    }
}

/// The start of the character that ends at `pos` lies before `pos` and is
/// a boundary.
pub proof fn lemma_prev_boundary(bytes: Seq<u8>, pos: int)
    requires
        valid_utf8(bytes),
        0 < pos <= bytes.len(),
    ensures
        0 <= prev_boundary(bytes, pos) < pos,
        is_char_boundary(bytes, prev_boundary(bytes, pos)),
    decreases pos,
{
    if pos > 1 {
        if is_continuation_byte(bytes[pos - 1]) {
            lemma_prev_boundary(bytes, pos - 1);
        } else {
            is_char_boundary_iff_not_is_continuation_byte(bytes, pos - 1);
        }
    }
}

/// Finds the start of the character that ends at `pos`.
pub fn step_back(bytes: &[u8], pos: usize) -> (r: usize)
    requires
        0 < pos <= bytes@.len(),
    ensures
        r == prev_boundary(bytes@, pos as int),
        r < pos,
{
    let mut p = pos - 1;
    while p > 0 && bytes[p] & 0xC0 == 0x80
        invariant
            p < pos <= bytes@.len(),
            prev_boundary(bytes@, pos as int) == prev_boundary(bytes@, p + 1),
        decreases p,
    {
        proof {
            utf8_byte_ranges_bitwise(bytes@[p as int]);
        }
        p -= 1;
    }
    proof {
        if p > 0 {
            utf8_byte_ranges_bitwise(bytes@[p as int]);
        }
    }
    p
}

/// Reads the character that starts at the boundary `pos`.
pub fn read_char(s: &str, pos: usize) -> (c: char)
    requires
        pos < s.spec_bytes().len(),
        is_char_boundary(s.spec_bytes(), pos as int),
    ensures
        c == char_at(s.spec_bytes(), pos as int),
{
    let (_, rest) = s.split_at(pos);
    proof {
        assert(rest.spec_bytes() =~= tail(s.spec_bytes(), pos as int));
        if rest@.len() == 0 {
            assert(encode_utf8(rest@) =~= Seq::<u8>::empty());
        }
        encode_utf8_first_scalar(rest@);
        char_u32_cast(rest@[0], decode_first_scalar(rest.spec_bytes()));
    }
    let mut it = rest.chars();
    match it.next() {
        Some(c) => c,
        None => '\0',
    }
}

/// The UTF-8 bytes of two texts put together are the bytes of the first
/// followed by those of the second.
pub proof fn lemma_encode_concat(a: Seq<char>, b: Seq<char>)
    ensures
        encode_utf8(a + b) == encode_utf8(a) + encode_utf8(b),
    decreases a.len(),
{
    if a.len() == 0 {
        assert(a + b =~= b);
        assert(encode_utf8(a) + encode_utf8(b) =~= encode_utf8(b));
    } else {
        lemma_encode_concat(a.drop_first(), b);
        assert((a + b).drop_first() =~= a.drop_first() + b);
        assert(encode_utf8(a + b) =~= encode_utf8(a) + encode_utf8(b));
    }
}

/// The UTF-8 bytes of an ASCII text are its characters, one byte each.
pub proof fn lemma_encode_ascii(a: Seq<char>)
    requires
        is_ascii_chars(a),
    ensures
        encode_utf8(a).len() == a.len(),
        forall|i: int| 0 <= i < a.len() ==> #[trigger] encode_utf8(a)[i] == a[i] as u8,
{
    is_ascii_chars_encode_utf8(a);
}

/// True when every byte of `s` is an ASCII digit.
pub open spec fn all_digits(s: Seq<u8>) -> bool {
    forall|i: int| 0 <= i < s.len() ==> ascii::DIGIT_0 <= #[trigger] s[i] <= ascii::DIGIT_9
}

/// The number that a sequence of ASCII digits writes in base ten.
pub open spec fn decimal_value(digits: Seq<u8>) -> nat
    decreases digits.len(),
{
    if digits.len() == 0 {
        0
    } else {
        decimal_value(digits.drop_last()) * 10 + (digits.last() - ascii::DIGIT_0) as nat
    }
}

/// The number written by the first digits is at most the number written by
/// all of them.
pub proof fn lemma_decimal_prefix(digits: Seq<u8>, n: int)
    requires
        all_digits(digits),
        0 <= n <= digits.len(),
    ensures
        decimal_value(digits.subrange(0, n)) <= decimal_value(digits),
    decreases digits.len() - n,
{
    if n == digits.len() {
        assert(digits.subrange(0, n) =~= digits);
    } else {
        let next = digits.subrange(0, n + 1);
        assert(next.drop_last() =~= digits.subrange(0, n));
        assert(next.last() == digits[n]);
        lemma_decimal_prefix(digits, n + 1);
    }
}

/// Reads the number that the digits of `bytes` from `start` to `end` write,
/// or `None` if it does not fit.
pub fn parse_decimal(bytes: &[u8], start: usize, end: usize) -> (r: Option<u64>)
    requires
        start <= end <= bytes@.len(),
        all_digits(bytes@.subrange(start as int, end as int)),
    ensures
        r == if decimal_value(bytes@.subrange(start as int, end as int)) <= u64::MAX {
            Some(decimal_value(bytes@.subrange(start as int, end as int)) as u64)
        } else {
            None
        },
{
    let ghost digits = bytes@.subrange(start as int, end as int);
    let mut value: u64 = 0;
    let mut i = start;
    while i < end
        invariant
            start <= i <= end <= bytes@.len(),
            digits == bytes@.subrange(start as int, end as int),
            all_digits(digits),
            value == decimal_value(digits.subrange(0, i - start)),
        decreases end - i,
    {
        assert(digits[i - start] == bytes@[i as int]);
        let d = (bytes[i] - ascii::DIGIT_0) as u64;
        proof {
            let next = digits.subrange(0, i + 1 - start);
            assert(next.drop_last() =~= digits.subrange(0, i - start));
            assert(next.last() == digits[i - start]);
            assert(digits[i - start] == bytes@[i as int]);
            lemma_decimal_prefix(digits, i + 1 - start);
        }
        if value > (u64::MAX - d) / 10 {
            return None;
        }
        value = value * 10 + d;
        i += 1;
    }
    assert(digits.subrange(0, i - start) =~= digits);
    Some(value)
}

/// The character that writes the digit `d`.
pub open spec fn digit_char(d: nat) -> char {
    if d == 0 {
        '0'
    } else if d == 1 {
        '1'
    } else if d == 2 {
        '2'
    } else if d == 3 {
        '3'
    } else if d == 4 {
        '4'
    } else if d == 5 {
        '5'
    } else if d == 6 {
        '6'
    } else if d == 7 {
        '7'
    } else if d == 8 {
        '8'
    } else {
        '9'
    }
}

/// The digits that write `n` in base ten, without leading zeros.
pub open spec fn decimal_text(n: nat) -> Seq<char>
    decreases n,
{
    if n < 10 {
        seq![digit_char(n)]
    } else {
        decimal_text(n / 10).push(digit_char(n % 10))
    }
}

/// Appends to `out` the digits that write `n` in base ten.
pub fn push_decimal(out: &mut String, n: u64)
    ensures
        final(out)@ == old(out)@ + decimal_text(n as nat),
    decreases n,
{
    if n >= 10 {
        push_decimal(out, n / 10);
    }
    let d = n % 10;
    let c = if d == 0 {
        '0'
    } else if d == 1 {
        '1'
    } else if d == 2 {
        '2'
    } else if d == 3 {
        '3'
    } else if d == 4 {
        '4'
    } else if d == 5 {
        '5'
    } else if d == 6 {
        '6'
    } else if d == 7 {
        '7'
    } else if d == 8 {
        '8'
    } else {
        '9'
    };
    out.push(c);
    assert(final(out)@ =~= old(out)@ + decimal_text(n as nat));
}

/// The parts of `bytes` from `pos` on that the byte `sep` separates, each
/// decoded and without the white space around it.
pub open spec fn trimmed_parts(bytes: Seq<u8>, pos: int, sep: u8) -> Seq<Seq<char>>
    decreases left(bytes, pos),
    via trimmed_parts_decreases
{
    let at = find_byte(bytes, pos, sep);
    let part = trimmed(decode_utf8(bytes.subrange(pos, at)));
    if pos < 0 || at >= bytes.len() {
        seq![part]
    } else {
        seq![part] + trimmed_parts(bytes, at + 1, sep)
    }
}

#[via_fn]
proof fn trimmed_parts_decreases(bytes: Seq<u8>, pos: int, sep: u8) {
    if 0 <= pos <= bytes.len() {
        lemma_find_byte(bytes, pos, sep);
    }
}

/// The texts of a list of strings.
pub open spec fn texts(strings: Seq<String>) -> Seq<Seq<char>> {
    Seq::new(strings.len(), |i: int| strings[i]@)
}

/// Splits a string at an ASCII separator, from the boundary `from` on, and
/// trims each part.
pub fn split_trimmed(s: &str, from: usize, sep: u8) -> (v: Vec<String>)
    requires
        from <= s.spec_bytes().len(),
        is_char_boundary(s.spec_bytes(), from as int),
        sep < 0x80,
    ensures
        texts(v@) == trimmed_parts(s.spec_bytes(), from as int, sep),
{
    let bytes = s.as_bytes();
    let mut v: Vec<String> = Vec::new();
    let mut pos = from;
    proof {
        encode_utf8_valid_utf8(s@);
    }
    loop
        invariant_except_break
            bytes@ == s.spec_bytes(),
            valid_utf8(bytes@),
            sep < 0x80,
            pos <= bytes@.len(),
            is_char_boundary(bytes@, pos as int),
            trimmed_parts(bytes@, from as int, sep) == texts(v@) + trimmed_parts(
                bytes@,
                pos as int,
                sep,
            ),
        ensures
            texts(v@) == trimmed_parts(bytes@, from as int, sep),
        decreases bytes@.len() - pos,
    {
        let at = find_first(bytes, pos, sep);
        proof {
            lemma_find_byte(bytes@, pos as int, sep);
            if at < bytes@.len() {
                lemma_ascii_boundary(bytes@, at as int);
            } else {
                is_char_boundary_start_end_of_seq(bytes@);
            }
        }
        let piece = substr(s, pos, at);
        proof {
            encode_utf8_decode_utf8(piece@);
        }
        let ghost before = texts(v@);
        v.push(piece.trim().to_owned());
        assert(texts(v@) =~= before.push(
            trimmed(decode_utf8(bytes@.subrange(pos as int, at as int))),
        ));
        if at >= bytes.len() {
            assert(texts(v@) =~= trimmed_parts(bytes@, from as int, sep));
            break;
        }
        assert(trimmed_parts(bytes@, from as int, sep) =~= texts(v@) + trimmed_parts(
            bytes@,
            at + 1,
            sep,
        ));
        pos = at + 1;
    }
    v
}

/// True when `a` comes before `b` in the order of their bytes.
pub open spec fn lex_less(a: Seq<u8>, b: Seq<u8>) -> bool
    decreases a.len(),
{
    if b.len() == 0 {
        false
    } else if a.len() == 0 {
        true
    } else if a[0] != b[0] {
        a[0] < b[0]
    } else {
        lex_less(a.drop_first(), b.drop_first())
    }
}

/// Of two byte sequences that differ, one comes before the other.
pub proof fn lemma_lex_total(a: Seq<u8>, b: Seq<u8>)
    ensures
        a == b || lex_less(a, b) || lex_less(b, a),
        !(lex_less(a, b) && lex_less(b, a)),
        !lex_less(a, a),
    decreases a.len(),
{
    if a.len() > 0 && b.len() > 0 && a[0] == b[0] {
        lemma_lex_total(a.drop_first(), b.drop_first());
        if a.drop_first() == b.drop_first() {
            assert(a =~= seq![a[0]] + a.drop_first());
            assert(b =~= seq![b[0]] + b.drop_first());
        }
    } else if a.len() == 0 && b.len() == 0 {
        assert(a =~= b);
    }
    if a.len() > 0 {
        lemma_lex_total(a.drop_first(), a.drop_first());
    }
}

/// The order of bytes is transitive.
pub proof fn lemma_lex_transitive(a: Seq<u8>, b: Seq<u8>, c: Seq<u8>)
    requires
        lex_less(a, b),
        lex_less(b, c),
    ensures
        lex_less(a, c),
    decreases a.len(),
{
    if a.len() > 0 && b.len() > 0 && c.len() > 0 && a[0] == b[0] && b[0] == c[0] {
        lemma_lex_transitive(a.drop_first(), b.drop_first(), c.drop_first());
    }
}

/// A list of texts in the order of their bytes, each once, with `w` put
/// at its place unless it is there.
pub open spec fn with_word(sorted: Seq<Seq<char>>, w: Seq<char>) -> Seq<Seq<char>>
    decreases sorted.len(),
{
    if sorted.len() == 0 {
        seq![w]
    } else if sorted[0] == w {
        sorted
    } else if lex_less(encode_utf8(w), encode_utf8(sorted[0])) {
        seq![w] + sorted
    } else {
        seq![sorted[0]] + with_word(sorted.drop_first(), w)
    }
}

/// True when the texts stand in the order of their bytes, each once.
pub open spec fn in_byte_order(list: Seq<Seq<char>>) -> bool {
    forall|i: int, j: int|
        0 <= i < j < list.len() ==> lex_less(
            encode_utf8(#[trigger] list[i]),
            encode_utf8(#[trigger] list[j]),
        )
}

/// A list in the order of its bytes stays in that order when a word is put
/// at its place, and then holds the word and what it held, nothing else.
pub proof fn lemma_with_word(sorted: Seq<Seq<char>>, w: Seq<char>)
    requires
        in_byte_order(sorted),
    ensures
        in_byte_order(with_word(sorted, w)),
        with_word(sorted, w).contains(w),
        forall|x: Seq<char>|
            with_word(sorted, w).contains(x) <==> (sorted.contains(x) || x == w),
    decreases sorted.len(),
{
    let r = with_word(sorted, w);
    if sorted.len() == 0 {
        assert(r[0] == w);
        assert forall|x: Seq<char>| r.contains(x) <==> (sorted.contains(x) || x == w) by {
            if r.contains(x) {
                let i = choose|i: int| 0 <= i < r.len() && r[i] == x;
            }
        }
    } else if sorted[0] == w {
        assert(r[0] == w);
    } else if lex_less(encode_utf8(w), encode_utf8(sorted[0])) {
        assert(r[0] == w);
        assert forall|i: int, j: int| 0 <= i < j < r.len() implies lex_less(
            encode_utf8(#[trigger] r[i]),
            encode_utf8(#[trigger] r[j]),
        ) by {
            assert(r[j] == sorted[j - 1]);
            if i == 0 {
                if j - 1 > 0 {
                    assert(lex_less(encode_utf8(sorted[0]), encode_utf8(sorted[j - 1])));
                    lemma_lex_transitive(
                        encode_utf8(w),
                        encode_utf8(sorted[0]),
                        encode_utf8(sorted[j - 1]),
                    );
                }
            } else {
                assert(r[i] == sorted[i - 1]);
            }
        }
        assert forall|x: Seq<char>| r.contains(x) <==> (sorted.contains(x) || x == w) by {
            if r.contains(x) {
                let i = choose|i: int| 0 <= i < r.len() && r[i] == x;
                if i > 0 {
                    assert(sorted[i - 1] == x);
                }
            }
            if sorted.contains(x) {
                let i = choose|i: int| 0 <= i < sorted.len() && sorted[i] == x;
                assert(r[i + 1] == x);
            }
        }
    } else {
        let rest = sorted.drop_first();
        assert(in_byte_order(rest)) by {
            assert forall|i: int, j: int| 0 <= i < j < rest.len() implies lex_less(
                encode_utf8(#[trigger] rest[i]),
                encode_utf8(#[trigger] rest[j]),
            ) by {
                assert(rest[i] == sorted[i + 1] && rest[j] == sorted[j + 1]);
            }
        }
        lemma_with_word(rest, w);
        let tail = with_word(rest, w);
        assert(r =~= seq![sorted[0]] + tail);
        lemma_lex_total(encode_utf8(sorted[0]), encode_utf8(w));
        if encode_utf8(sorted[0]) == encode_utf8(w) {
            lemma_same_bytes_same_text(sorted[0], w);
        }
        assert forall|i: int, j: int| 0 <= i < j < r.len() implies lex_less(
            encode_utf8(#[trigger] r[i]),
            encode_utf8(#[trigger] r[j]),
        ) by {
            assert(r[j] == tail[j - 1]);
            if i == 0 {
                let x = tail[j - 1];
                assert(tail.contains(x));
                if x != w {
                    assert(rest.contains(x));
                    let m = choose|m: int| 0 <= m < rest.len() && rest[m] == x;
                    assert(rest[m] == sorted[m + 1]);
                    assert(lex_less(encode_utf8(sorted[0]), encode_utf8(sorted[m + 1])));
                }
            } else {
                assert(r[i] == tail[i - 1]);
            }
        }
        assert(tail.contains(w));
        let at = choose|at: int| 0 <= at < tail.len() && tail[at] == w;
        assert(r[at + 1] == w);
        assert forall|x: Seq<char>| r.contains(x) <==> (sorted.contains(x) || x == w) by {
            if r.contains(x) {
                let i = choose|i: int| 0 <= i < r.len() && r[i] == x;
                if i == 0 {
                    assert(sorted[0] == x);
                } else {
                    assert(tail[i - 1] == x);
                    assert(tail.contains(x));
                    if x != w {
                        assert(rest.contains(x));
                        let m = choose|m: int| 0 <= m < rest.len() && rest[m] == x;
                        assert(sorted[m + 1] == x);
                    }
                }
            }
            if sorted.contains(x) {
                let i = choose|i: int| 0 <= i < sorted.len() && sorted[i] == x;
                if i == 0 {
                    assert(r[0] == x);
                } else {
                    assert(rest[i - 1] == x);
                    assert(rest.contains(x));
                    assert(tail.contains(x));
                    let m = choose|m: int| 0 <= m < tail.len() && tail[m] == x;
                    assert(r[m + 1] == x);
                }
            }
        }
    }
}

/// Puts a word at its place in a list of words in the order of their
/// bytes, unless it is there.
pub fn insert_word(list: &mut Vec<String>, word: &str)
    ensures
        texts(final(list)@) == with_word(texts(old(list)@), word@),
{
    let ghost before = texts(list@);
    let mut p: usize = 0;
    assert(before.subrange(0, 0) + with_word(before.subrange(0, before.len() as int), word@)
        =~= with_word(before, word@)) by {
        assert(before.subrange(0, before.len() as int) =~= before);
    }
    while p < list.len() && bytes_less(list[p].as_str().as_bytes(), word.as_bytes())
        invariant
            p <= list@.len(),
            before == texts(list@),
            with_word(before, word@) == before.subrange(0, p as int) + with_word(
                before.subrange(p as int, before.len() as int),
                word@,
            ),
        decreases list@.len() - p,
    {
        proof {
            let rest = before.subrange(p as int, before.len() as int);
            assert(rest[0] == before[p as int]);
            assert(before[p as int] == list@[p as int]@);
            lemma_lex_total(encode_utf8(rest[0]), encode_utf8(word@));
            assert(rest.drop_first() =~= before.subrange(p + 1, before.len() as int));
            assert(before.subrange(0, p + 1) =~= before.subrange(0, p as int).push(
                before[p as int],
            ));
            assert(with_word(before, word@) =~= before.subrange(0, p + 1) + with_word(
                before.subrange(p + 1, before.len() as int),
                word@,
            ));
        }
        p += 1;
    }
    let ghost rest = before.subrange(p as int, before.len() as int);
    if p < list.len() && str_eq(list[p].as_str(), word) {
        proof {
            assert(rest[0] == before[p as int]);
            assert(before[p as int] == list@[p as int]@);
            assert(with_word(rest, word@) == rest);
            assert(before.subrange(0, p as int) + rest =~= before);
        }
    } else {
        proof {
            if p < before.len() {
                assert(rest[0] == before[p as int]);
                assert(before[p as int] == list@[p as int]@);
                lemma_lex_total(encode_utf8(rest[0]), encode_utf8(word@));
                if encode_utf8(rest[0]) == encode_utf8(word@) {
                    lemma_same_bytes_same_text(rest[0], word@);
                }
                assert(with_word(rest, word@) =~= seq![word@] + rest);
            } else {
                assert(with_word(rest, word@) =~= seq![word@]);
            }
        }
        list.insert(p, word.to_owned());
        assert(texts(list@) =~= before.subrange(0, p as int) + (seq![word@] + rest));
    }
}

/// Tells whether `a` comes before `b` in the order of their bytes.
pub fn bytes_less(a: &[u8], b: &[u8]) -> (r: bool)
    ensures
        r == lex_less(a@, b@),
{
    let mut i: usize = 0;
    assert(a@.subrange(0, a@.len() as int) =~= a@);
    assert(b@.subrange(0, b@.len() as int) =~= b@);
    loop
        invariant
            i <= a@.len(),
            i <= b@.len(),
            lex_less(a@, b@) == lex_less(
                a@.subrange(i as int, a@.len() as int),
                b@.subrange(i as int, b@.len() as int),
            ),
        decreases a@.len() - i,
    {
        let ghost ra = a@.subrange(i as int, a@.len() as int);
        let ghost rb = b@.subrange(i as int, b@.len() as int);
        if i >= b.len() {
            return false;
        }
        if i >= a.len() {
            return true;
        }
        assert(ra[0] == a@[i as int] && rb[0] == b@[i as int]);
        if a[i] != b[i] {
            return a[i] < b[i];
        }
        assert(ra.drop_first() =~= a@.subrange(i + 1, a@.len() as int));
        assert(rb.drop_first() =~= b@.subrange(i + 1, b@.len() as int));
        i += 1;
    }
}

/// True when `bytes` starts with `prefix`.
pub open spec fn has_prefix(bytes: Seq<u8>, prefix: Seq<u8>) -> bool {
    prefix.len() <= bytes.len() && bytes.subrange(0, prefix.len() as int) == prefix
}

/// True when `bytes` ends with `suffix`.
pub open spec fn has_suffix(bytes: Seq<u8>, suffix: Seq<u8>) -> bool {
    suffix.len() <= bytes.len() && bytes.subrange(
        bytes.len() - suffix.len(),
        bytes.len() as int,
    ) == suffix
}

/// The first position at or after `pos` at which `needle` stands in `hay`,
/// or the length of `hay` if it stands nowhere.
pub open spec fn find_sub(hay: Seq<u8>, needle: Seq<u8>, pos: int) -> int
    decreases left(hay, pos),
{
    if pos < 0 || pos >= hay.len() || pos + needle.len() > hay.len() {
        if pos == hay.len() && needle.len() == 0 {
            pos
        } else {
            hay.len() as int
        }
    } else if hay.subrange(pos, pos + needle.len()) == needle {
        pos
    } else {
        find_sub(hay, needle, pos + 1)
    }
}

/// `find_sub` gives a position at which `needle` stands, or the length of
/// `hay`.
pub proof fn lemma_find_sub(hay: Seq<u8>, needle: Seq<u8>, pos: int)
    requires
        0 <= pos,
    ensures
        find_sub(hay, needle, pos) == hay.len() || (pos <= find_sub(hay, needle, pos)
            && find_sub(hay, needle, pos) + needle.len() <= hay.len() && hay.subrange(
            find_sub(hay, needle, pos),
            find_sub(hay, needle, pos) + needle.len(),
        ) == needle),
    decreases left(hay, pos),
{
    if pos < hay.len() && pos + needle.len() <= hay.len() && hay.subrange(
        pos,
        pos + needle.len(),
    ) != needle {
        lemma_find_sub(hay, needle, pos + 1);
    }
    if pos == hay.len() && needle.len() == 0 {
        assert(hay.subrange(pos, pos) =~= needle);
    }
}

/// Tells whether `bytes` starts with `prefix`.
pub fn starts_with(bytes: &[u8], prefix: &[u8]) -> (r: bool)
    ensures
        r == has_prefix(bytes@, prefix@),
{
    if prefix.len() > bytes.len() {
        return false;
    }
    bytes_eq(slice_subrange(bytes, 0, prefix.len()), prefix)
}

/// Tells whether `bytes` ends with `suffix`.
pub fn ends_with(bytes: &[u8], suffix: &[u8]) -> (r: bool)
    ensures
        r == has_suffix(bytes@, suffix@),
{
    if suffix.len() > bytes.len() {
        return false;
    }
    bytes_eq(slice_subrange(bytes, bytes.len() - suffix.len(), bytes.len()), suffix)
}

/// Finds the first place at which `needle` stands in `hay`; gives the
/// length of `hay` if it stands nowhere.
pub fn find_bytes(hay: &[u8], needle: &[u8]) -> (r: usize)
    ensures
        r == find_sub(hay@, needle@, 0),
        r <= hay@.len(),
{
    if needle.len() > hay.len() {
        return hay.len();
    }
    let last = hay.len() - needle.len();
    let mut pos: usize = 0;
    while pos <= last
        invariant
            needle@.len() <= hay@.len() <= usize::MAX,
            last == hay@.len() - needle@.len(),
            pos <= last + 1,
            find_sub(hay@, needle@, 0) == find_sub(hay@, needle@, pos as int),
        decreases last + 1 - pos,
    {
        if bytes_eq(slice_subrange(hay, pos, pos + needle.len()), needle) {
            return pos;
        }
        if pos == last {
            assert(find_sub(hay@, needle@, pos + 1) == hay@.len());
            return hay.len();
        }
        pos += 1;
    }
    hay.len()
}

/// Tells whether two byte slices hold the same bytes.
pub fn bytes_eq(a: &[u8], b: &[u8]) -> (r: bool)
    ensures
        r == (a@ == b@),
{
    if a.len() != b.len() {
        return false;
    }
    let mut i: usize = 0;
    while i < a.len()
        invariant
            a@.len() == b@.len(),
            i <= a@.len(),
            a@.subrange(0, i as int) == b@.subrange(0, i as int),
        decreases a@.len() - i,
    {
        if a[i] != b[i] {
            assert(a@[i as int] != b@[i as int]);
            return false;
        }
        assert(a@.subrange(0, i + 1) =~= a@.subrange(0, i as int).push(a@[i as int]));
        assert(b@.subrange(0, i + 1) =~= b@.subrange(0, i as int).push(b@[i as int]));
        i += 1;
    }
    assert(a@ =~= a@.subrange(0, i as int));
    assert(b@ =~= b@.subrange(0, i as int));
    true
}

/// Two texts with the same UTF-8 bytes are the same text.
pub proof fn lemma_same_bytes_same_text(a: Seq<char>, b: Seq<char>)
    requires
        encode_utf8(a) == encode_utf8(b),
    ensures
        a == b,
{
    encode_utf8_decode_utf8(a);
    encode_utf8_decode_utf8(b);
}

/// Tells whether two strings hold the same text.
pub fn str_eq(a: &str, b: &str) -> (r: bool)
    ensures
        r == (a@ == b@),
{
    let r = bytes_eq(a.as_bytes(), b.as_bytes());
    proof {
        if r {
            lemma_same_bytes_same_text(a@, b@);
        }
    }
    r
}

} // verus!
