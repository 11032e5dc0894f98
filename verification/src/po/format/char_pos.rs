//! Scanner of the characters of a text, skipping placeholders.

use vstd::prelude::*;
use vstd::string::*;
use vstd::utf8::*;

use crate::po::format::language::{
    lemma_end_format_at, lemma_language_keeps_boundaries, lemma_next_char_at, Language,
    Recognizer,
};
use crate::po::format::{FormatParser, MatchStrPos};
use crate::text::{
    char_at, char_width, left, lemma_ascii_boundary, lemma_boundary_step,
    lemma_width_at, read_char, substr, unicode_alphanumeric, width_at,
};

verus! {

/// True for a character that counts: a letter, a number or a hyphen.
pub open spec fn is_counted_char(c: char) -> bool {
    unicode_alphanumeric(c) || c == '-'
}

/// The first counted character at or after `pos` that stands outside the
/// placeholders of `language`, as its start and its end.
pub open spec fn next_counted_char(language: Language, bytes: Seq<u8>, pos: int) -> Option<
    (int, int),
>
    decreases left(bytes, pos),
    via next_counted_char_decreases
{
    let len = bytes.len() as int;
    if pos < 0 || pos >= len {
        None
    } else {
        let (next, is_format) = language.next_char_at(bytes, pos, len);
        if is_format {
            next_counted_char(language, bytes, language.end_format_at(bytes, next, len))
        } else if is_counted_char(char_at(bytes, next)) {
            Some((next, next + width_at(bytes, next)))
        } else {
            next_counted_char(language, bytes, next + width_at(bytes, next))
        }
    }
}

#[via_fn]
proof fn next_counted_char_decreases(language: Language, bytes: Seq<u8>, pos: int) {
    if 0 <= pos < bytes.len() {
        lemma_next_char_at(language, bytes, pos);
        let next = language.next_char_at(bytes, pos, bytes.len() as int).0;
        lemma_width_at(bytes, next);
        lemma_end_format_at(language, bytes, next);
    }
}

/// The counted characters of `bytes` from `pos` on, in order.
pub open spec fn counted_chars_from(language: Language, bytes: Seq<u8>, pos: int) -> Seq<
    (int, int),
>
    decreases left(bytes, pos),
{
    match next_counted_char(language, bytes, pos) {
        Some((start, end)) => if pos < end {
            seq![(start, end)] + counted_chars_from(language, bytes, end)
        } else {
            seq![(start, end)]
        },
        None => Seq::empty(),
    }
}

/// A counted character found from `pos` starts at or after `pos` and ends
/// after its start.
pub proof fn lemma_next_counted_char(language: Language, bytes: Seq<u8>, pos: int)
    requires
        0 <= pos,
    ensures
        match next_counted_char(language, bytes, pos) {
            Some((start, end)) => pos <= start < end,
            None => true,
        },
    decreases left(bytes, pos),
{
    let len = bytes.len() as int;
    if pos < len {
        lemma_next_char_at(language, bytes, pos);
        let (next, is_format) = language.next_char_at(bytes, pos, len);
        lemma_width_at(bytes, next);
        if is_format {
            lemma_end_format_at(language, bytes, next);
            lemma_next_counted_char(language, bytes, language.end_format_at(bytes, next, len));
        } else if !is_counted_char(char_at(bytes, next)) {
            lemma_next_counted_char(language, bytes, next + width_at(bytes, next));
        }
    }
}

/// Counted characters are whole characters: in a valid text, one found
/// from a boundary starts and ends at boundaries within the text, and is a
/// letter, a number or a hyphen.
pub proof fn lemma_counted_char_is_whole(language: Language, bytes: Seq<u8>, pos: int)
    requires
        valid_utf8(bytes),
        0 <= pos <= bytes.len(),
        is_char_boundary(bytes, pos),
    ensures
        match next_counted_char(language, bytes, pos) {
            Some((start, end)) => {
                &&& pos <= start < end <= bytes.len()
                &&& is_char_boundary(bytes, start)
                &&& is_char_boundary(bytes, end)
                &&& end == start + width_at(bytes, start)
                &&& is_counted_char(char_at(bytes, start))
            },
            None => true,
        },
    decreases left(bytes, pos),
{
    let len = bytes.len() as int;
    if pos < len {
        lemma_language_keeps_boundaries(language, bytes, pos);
        let (next, is_format) = language.next_char_at(bytes, pos, len);
        if is_format {
            lemma_counted_char_is_whole(language, bytes, language.end_format_at(bytes, next, len));
        } else {
            lemma_boundary_step(bytes, next);
            if !is_counted_char(char_at(bytes, next)) {
                lemma_counted_char_is_whole(language, bytes, next + width_at(bytes, next));
            }
        }
    }
}

/// Scanner that gives the letters, numbers and hyphens of a text, one at a
/// time, skipping the placeholders.
pub struct CharPos<'a> {
    s: &'a str,
    len: usize,
    pos: usize,
    fmt: Recognizer,
}

impl<'a> CharPos<'a> {
    #[verifier::type_invariant]
    spec fn inv(self) -> bool {
        &&& self.len == self.s.spec_bytes().len()
        &&& self.pos <= self.len
        &&& is_char_boundary(self.s.spec_bytes(), self.pos as int)
    }

    /// The bytes of the text that is scanned.
    pub closed spec fn text(&self) -> Seq<u8> {
        self.s.spec_bytes()
    }

    /// The position from which the scan goes on.
    pub closed spec fn position(&self) -> int {
        self.pos as int
    }

    /// The language whose placeholders are skipped.
    pub closed spec fn language(&self) -> Language {
        self.fmt.language()
    }

    /// Creates a scanner at the start of `s`.
    pub fn new(s: &'a str, language: &Language) -> (r: Self)
        ensures
            r.text() == s.spec_bytes(),
            r.position() == 0,
            r.language() == *language,
    {
        proof {
            encode_utf8_valid_utf8(s@);
        }
        Self { s, len: s.as_bytes().len(), pos: 0, fmt: language.format_parser() }
    }

    /// Gives the next counted character, or `None` when the text holds no
    /// more.
    pub fn next(&mut self) -> (r: Option<MatchStrPos<'a>>)
        ensures
            final(self).text() == old(self).text(),
            final(self).language() == old(self).language(),
            match next_counted_char(old(self).language(), old(self).text(), old(self).position()) {
                Some((start, end)) => r is Some && r->0.covers(old(self).text(), start, end)
                    && final(self).position() == end,
                None => r is None && final(self).position() == old(self).text().len(),
            },
    {
        proof {
            use_type_invariant(&*self);
            encode_utf8_valid_utf8(self.s@);
        }
        let ghost bytes = self.s.spec_bytes();
        let ghost language = self.fmt.language();
        let s = self.s;
        let len = self.len;
        let fmt = self.fmt;
        let mut pos = self.pos;
        while pos < len
            invariant
                bytes == s.spec_bytes(),
                valid_utf8(bytes),
                language == fmt.language(),
                len == bytes.len(),
                pos <= len,
                is_char_boundary(bytes, pos as int),
                next_counted_char(language, bytes, old(self).position()) == next_counted_char(
                    language,
                    bytes,
                    pos as int,
                ),
                self.s == s,
                self.len == len,
                self.fmt == fmt,
                old(self).s == s,
                old(self).fmt == fmt,
                self.pos <= len,
                is_char_boundary(bytes, self.pos as int),
            decreases len - pos,
        {
            let (new_pos, is_format) = fmt.next_char(s, pos, len);
            proof {
                lemma_next_char_at(language, bytes, pos as int);
                if new_pos != pos {
                    lemma_ascii_boundary(bytes, pos as int);
                }
            }
            if new_pos >= len {
                self.pos = new_pos;
                return None;
            }
            if is_format {
                let end = fmt.find_end_format(s, new_pos, len);
                proof {
                    lemma_end_format_at(language, bytes, new_pos as int);
                    if end != new_pos && end != len {
                        lemma_ascii_boundary(bytes, end - 1);
                    } else if end == len {
                        is_char_boundary_start_end_of_seq(bytes);
                    }
                }
                pos = end;
                continue;
            }
            let c = read_char(s, new_pos);
            proof {
                lemma_boundary_step(bytes, new_pos as int);
            }
            let len_c = char_width(c);
            if c.is_alphanumeric() || c == '-' {
                let result = MatchStrPos {
                    s: substr(s, new_pos, new_pos + len_c),
                    start: new_pos,
                    end: new_pos + len_c,
                };
                self.pos = new_pos + len_c;
                return Some(result);
            }
            pos = new_pos + len_c;
        }
        self.pos = pos;
        None
    }

    /// Gives the counted characters that are left, in order.
    pub fn collect(self) -> (v: Vec<MatchStrPos<'a>>)
        ensures
            v@.len() == counted_chars_from(self.language(), self.text(), self.position()).len(),
            forall|i: int|
                0 <= i < v@.len() ==> (#[trigger] v@[i]).covers(
                    self.text(),
                    counted_chars_from(self.language(), self.text(), self.position())[i].0,
                    counted_chars_from(self.language(), self.text(), self.position())[i].1,
                ),
    {
        let ghost language = self.language();
        let ghost bytes = self.text();
        let ghost all = counted_chars_from(language, bytes, self.position());
        let mut it = self;
        let mut v: Vec<MatchStrPos<'a>> = Vec::new();
        loop
            invariant_except_break
                it.language() == language,
                it.text() == bytes,
                0 <= it.position(),
                all == Seq::new(
                    v@.len(),
                    |i: int| (v@[i].start as int, v@[i].end as int),
                ) + counted_chars_from(language, bytes, it.position()),
                forall|i: int|
                    0 <= i < v@.len() ==> (#[trigger] v@[i]).covers(
                        bytes,
                        v@[i].start as int,
                        v@[i].end as int,
                    ),
            ensures
                v@.len() == all.len(),
                forall|i: int|
                    0 <= i < v@.len() ==> (#[trigger] v@[i]).covers(bytes, all[i].0, all[i].1),
            decreases bytes.len() - it.position(),
        {
            let ghost found = Seq::new(v@.len(), |i: int| (v@[i].start as int, v@[i].end as int));
            proof {
                lemma_next_counted_char(language, bytes, it.position());
            }
            match it.next() {
                Some(m) => {
                    v.push(m);
                    proof {
                        let now = Seq::new(
                            v@.len(),
                            |i: int| (v@[i].start as int, v@[i].end as int),
                        );
                        assert(now =~= found.push((m.start as int, m.end as int)));
                        assert(all =~= now + counted_chars_from(language, bytes, it.position()));
                    }
                },
                None => {
                    assert(all =~= found);
                    break;
                },
            }
        }
        v
    }
}

} // verus!
