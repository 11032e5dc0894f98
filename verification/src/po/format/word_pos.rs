//! Scanner of the words of a text, skipping placeholders.

use vstd::prelude::*;
use vstd::string::*;
use vstd::utf8::*;

use crate::po::format::language::{
    lemma_end_format_at, lemma_language_keeps_boundaries, lemma_next_char_at, Language,
    Recognizer,
};
use crate::po::format::{FormatParser, MatchStrPos};
use crate::text::{
    char_at, char_width, left, lemma_ascii_boundary, lemma_boundary_step,
    lemma_width_at, read_char, substr, unicode_alphanumeric, width_at,
};

verus! {

/// The end of a word that goes on at `pos`: the position of the first
/// character from `pos` on that is no letter, number or hyphen, or the end
/// of the text.
pub open spec fn word_end(bytes: Seq<u8>, pos: int) -> int
    decreases left(bytes, pos),
    via word_end_decreases
{
    if pos < 0 || pos >= bytes.len() {
        pos
    } else if unicode_alphanumeric(char_at(bytes, pos)) || char_at(bytes, pos) == '-' {
        word_end(bytes, pos + width_at(bytes, pos))
    } else {
        pos
    }
}

#[via_fn]
proof fn word_end_decreases(bytes: Seq<u8>, pos: int) {
    lemma_width_at(bytes, pos);
}

/// A word does not end before the position at which it goes on.
pub proof fn lemma_word_end(bytes: Seq<u8>, pos: int)
    ensures
        pos <= word_end(bytes, pos),
    decreases left(bytes, pos),
{
    lemma_width_at(bytes, pos);
    if 0 <= pos < bytes.len() && (unicode_alphanumeric(char_at(bytes, pos)) || char_at(bytes, pos)
        == '-') {
        lemma_word_end(bytes, pos + width_at(bytes, pos));
    }
}

/// The first word at or after `pos` that stands outside the placeholders of
/// `language`, as its start and its end. A word starts with a letter or a
/// number and goes on with letters, numbers and hyphens.
pub open spec fn next_word(language: Language, bytes: Seq<u8>, pos: int) -> Option<(int, int)>
    decreases left(bytes, pos),
    via next_word_decreases
{
    let len = bytes.len() as int;
    if pos < 0 || pos >= len {
        None
    } else {
        let (next, is_format) = language.next_char_at(bytes, pos, len);
        if is_format {
            next_word(language, bytes, language.end_format_at(bytes, next, len))
        } else if unicode_alphanumeric(char_at(bytes, next)) {
            Some((next, word_end(bytes, next + width_at(bytes, next))))
        } else {
            next_word(language, bytes, next + width_at(bytes, next))
        }
    }
}

#[via_fn]
proof fn next_word_decreases(language: Language, bytes: Seq<u8>, pos: int) {
    if 0 <= pos < bytes.len() {
        lemma_next_char_at(language, bytes, pos);
        let next = language.next_char_at(bytes, pos, bytes.len() as int).0;
        lemma_width_at(bytes, next);
        lemma_end_format_at(language, bytes, next);
    }
}

/// The words of `bytes` from `pos` on, in order.
pub open spec fn words_from(language: Language, bytes: Seq<u8>, pos: int) -> Seq<(int, int)>
    decreases left(bytes, pos),
{
    match next_word(language, bytes, pos) {
        Some((start, end)) => if pos < end {
            seq![(start, end)] + words_from(language, bytes, end)
        } else {
            seq![(start, end)]
        },
        None => Seq::empty(),
    }
}

/// A word found from `pos` starts at or after `pos` and ends after its
/// start.
pub proof fn lemma_next_word(language: Language, bytes: Seq<u8>, pos: int)
    requires
        0 <= pos,
    ensures
        match next_word(language, bytes, pos) {
            Some((start, end)) => pos <= start < end,
            None => true,
        },
    decreases left(bytes, pos),
{
    let len = bytes.len() as int;
    if pos < len {
        lemma_next_char_at(language, bytes, pos);
        let (next, is_format) = language.next_char_at(bytes, pos, len);
        lemma_width_at(bytes, next);
        if is_format {
            lemma_end_format_at(language, bytes, next);
            lemma_next_word(language, bytes, language.end_format_at(bytes, next, len));
        } else if unicode_alphanumeric(char_at(bytes, next)) {
            lemma_word_end(bytes, next + width_at(bytes, next));
        } else {
            lemma_next_word(language, bytes, next + width_at(bytes, next));
        }
    }
}

/// In a valid text, a word that goes on at a boundary ends at a boundary
/// within the text.
pub proof fn lemma_word_end_boundary(bytes: Seq<u8>, pos: int)
    requires
        valid_utf8(bytes),
        0 <= pos <= bytes.len(),
        is_char_boundary(bytes, pos),
    ensures
        pos <= word_end(bytes, pos) <= bytes.len(),
        is_char_boundary(bytes, word_end(bytes, pos)),
    decreases left(bytes, pos),
{
    if pos < bytes.len() {
        lemma_boundary_step(bytes, pos);
        if unicode_alphanumeric(char_at(bytes, pos)) || char_at(bytes, pos) == '-' {
            lemma_word_end_boundary(bytes, pos + width_at(bytes, pos));
        }
    }
}

/// Words are whole characters: in a valid text, a word found from a
/// boundary starts and ends at boundaries within the text, and starts with
/// a letter or a number, never with a hyphen that only goes on a word. It
/// ends where the letters, numbers and hyphens after its first character
/// end.
pub proof fn lemma_word_is_whole(language: Language, bytes: Seq<u8>, pos: int)
    requires
        valid_utf8(bytes),
        0 <= pos <= bytes.len(),
        is_char_boundary(bytes, pos),
    ensures
        match next_word(language, bytes, pos) {
            Some((start, end)) => {
                &&& pos <= start < end <= bytes.len()
                &&& is_char_boundary(bytes, start)
                &&& is_char_boundary(bytes, end)
                &&& unicode_alphanumeric(char_at(bytes, start))
                &&& end == word_end(bytes, start + width_at(bytes, start))
            },
            None => true,
        },
    decreases left(bytes, pos),
{
    let len = bytes.len() as int;
    if pos < len {
        lemma_language_keeps_boundaries(language, bytes, pos);
        let (next, is_format) = language.next_char_at(bytes, pos, len);
        if is_format {
            lemma_word_is_whole(language, bytes, language.end_format_at(bytes, next, len));
        } else {
            lemma_boundary_step(bytes, next);
            if unicode_alphanumeric(char_at(bytes, next)) {
                lemma_word_end_boundary(bytes, next + width_at(bytes, next));
            } else {
                lemma_word_is_whole(language, bytes, next + width_at(bytes, next));
            }
        }
    }
}

/// The position that is reached from `pos` after `k` characters.
pub open spec fn after_chars(bytes: Seq<u8>, pos: int, k: nat) -> int
    decreases k,
{
    if k == 0 {
        pos
    } else {
        after_chars(bytes, pos + width_at(bytes, pos), (k - 1) as nat)
    }
}

/// Going on over characters never goes back.
pub proof fn lemma_after_chars(bytes: Seq<u8>, pos: int, k: nat)
    ensures
        pos <= after_chars(bytes, pos, k),
    decreases k,
{
    if k > 0 {
        lemma_width_at(bytes, pos);
        lemma_after_chars(bytes, pos + width_at(bytes, pos), (k - 1) as nat);
    }
}

/// A word goes on over letters, numbers and hyphens only: each character
/// between the position at which it goes on and its end is one of them.
pub proof fn lemma_word_goes_on(bytes: Seq<u8>, pos: int, k: nat)
    requires
        0 <= pos,
        after_chars(bytes, pos, k) < word_end(bytes, pos),
    ensures
        unicode_alphanumeric(char_at(bytes, after_chars(bytes, pos, k))) || char_at(
            bytes,
            after_chars(bytes, pos, k),
        ) == '-',
    decreases k,
{
    lemma_after_chars(bytes, pos, k);
    lemma_width_at(bytes, pos);
    if k > 0 {
        lemma_word_goes_on(bytes, pos + width_at(bytes, pos), (k - 1) as nat);
    }
}

/// Every word of a text is well made. In a valid text, each of the words
/// found from a boundary starts and ends at boundaries within the text and
/// starts at or after the end of the word before it; its first character
/// is a letter or a number, and each of its characters is a letter, a
/// number or a hyphen.
pub proof fn lemma_words_are_well_made(language: Language, bytes: Seq<u8>, pos: int, i: int)
    requires
        valid_utf8(bytes),
        0 <= pos <= bytes.len(),
        is_char_boundary(bytes, pos),
        0 <= i < words_from(language, bytes, pos).len(),
    ensures
        ({
            let (start, end) = words_from(language, bytes, pos)[i];
            &&& pos <= start < end <= bytes.len()
            &&& is_char_boundary(bytes, start)
            &&& is_char_boundary(bytes, end)
            &&& unicode_alphanumeric(char_at(bytes, start))
            &&& forall|k: nat| #[trigger]
                after_chars(bytes, start, k) < end ==> unicode_alphanumeric(
                    char_at(bytes, after_chars(bytes, start, k)),
                ) || char_at(bytes, after_chars(bytes, start, k)) == '-'
            &&& i > 0 ==> words_from(language, bytes, pos)[i - 1].1 <= start
        }),
    decreases left(bytes, pos),
{
    lemma_word_is_whole(language, bytes, pos);
    let (start, end) = next_word(language, bytes, pos)->0;
    if i == 0 {
        assert forall|k: nat| #[trigger] after_chars(bytes, start, k) < end implies (
        unicode_alphanumeric(char_at(bytes, after_chars(bytes, start, k))) || char_at(
            bytes,
            after_chars(bytes, start, k),
        ) == '-') by {
            if k > 0 {
                lemma_word_goes_on(bytes, start + width_at(bytes, start), (k - 1) as nat);
            }
        }
    } else {
        let rest = words_from(language, bytes, end);
        assert(words_from(language, bytes, pos)[i] == rest[i - 1]);
        lemma_words_are_well_made(language, bytes, end, i - 1);
        if i > 1 {
            assert(words_from(language, bytes, pos)[i - 1] == rest[i - 2]);
        }
    }
}

/// Scanner that gives the words of a text, one at a time, skipping the
/// placeholders.
pub struct WordPos<'a> {
    s: &'a str,
    len: usize,
    pos: usize,
    fmt: Recognizer,
}

impl<'a> WordPos<'a> {
    #[verifier::type_invariant]
    spec fn inv(self) -> bool {
        &&& self.len == self.s.spec_bytes().len()
        &&& self.pos <= self.len
        &&& is_char_boundary(self.s.spec_bytes(), self.pos as int)
    }

    /// The bytes of the text that is scanned.
    pub closed spec fn text(&self) -> Seq<u8> {
        self.s.spec_bytes()
    }

    /// The position from which the scan goes on.
    pub closed spec fn position(&self) -> int {
        self.pos as int
    }

    /// The language whose placeholders are skipped.
    pub closed spec fn language(&self) -> Language {
        self.fmt.language()
    }

    /// Creates a scanner at the start of `s`.
    pub fn new(s: &'a str, language: &Language) -> (r: Self)
        ensures
            r.text() == s.spec_bytes(),
            r.position() == 0,
            r.language() == *language,
    {
        proof {
            encode_utf8_valid_utf8(s@);
        }
        Self { s, len: s.as_bytes().len(), pos: 0, fmt: language.format_parser() }
    }

    /// Gives the next word, or `None` when the text holds no more.
    pub fn next(&mut self) -> (r: Option<MatchStrPos<'a>>)
        ensures
            final(self).text() == old(self).text(),
            final(self).language() == old(self).language(),
            match next_word(old(self).language(), old(self).text(), old(self).position()) {
                Some((start, end)) => r is Some && r->0.covers(old(self).text(), start, end)
                    && final(self).position() == end,
                None => r is None && final(self).position() == old(self).text().len(),
            },
    {
        proof {
            use_type_invariant(&*self);
            encode_utf8_valid_utf8(self.s@);
        }
        let ghost bytes = self.s.spec_bytes();
        let ghost language = self.fmt.language();
        let s = self.s;
        let len = self.len;
        let fmt = self.fmt;
        let mut pos = self.pos;
        while pos < len
            invariant
                bytes == s.spec_bytes(),
                valid_utf8(bytes),
                language == fmt.language(),
                len == bytes.len(),
                pos <= len,
                is_char_boundary(bytes, pos as int),
                next_word(language, bytes, old(self).position()) == next_word(
                    language,
                    bytes,
                    pos as int,
                ),
                self.s == s,
                self.len == len,
                self.fmt == fmt,
                old(self).s == s,
                old(self).fmt == fmt,
                self.pos <= len,
                is_char_boundary(bytes, self.pos as int),
            decreases len - pos,
        {
            let (new_pos, is_format) = fmt.next_char(s, pos, len);
            proof {
                lemma_next_char_at(language, bytes, pos as int);
                if new_pos != pos {
                    lemma_ascii_boundary(bytes, pos as int);
                }
            }
            if new_pos >= len {
                self.pos = new_pos;
                return None;
            }
            if is_format {
                let end = fmt.find_end_format(s, new_pos, len);
                proof {
                    lemma_end_format_at(language, bytes, new_pos as int);
                    if end != new_pos && end != len {
                        lemma_ascii_boundary(bytes, end - 1);
                    } else if end == len {
                        is_char_boundary_start_end_of_seq(bytes);
                    }
                }
                pos = end;
                continue;
            }
            let c = read_char(s, new_pos);
            proof {
                lemma_boundary_step(bytes, new_pos as int);
            }
            let len_c = char_width(c);
            if c.is_alphanumeric() {
                let start = new_pos;
                let mut end = new_pos + len_c;
                loop
                    invariant_except_break
                        bytes == s.spec_bytes(),
                        valid_utf8(bytes),
                        len == bytes.len(),
                        start < end <= len,
                        is_char_boundary(bytes, end as int),
                        word_end(bytes, start + width_at(bytes, start as int)) == word_end(
                            bytes,
                            end as int,
                        ),
                    ensures
                        start < end <= len,
                        is_char_boundary(bytes, end as int),
                        end == word_end(bytes, start + width_at(bytes, start as int)),
                    decreases len - end,
                {
                    if end >= len {
                        break;
                    }
                    let c = read_char(s, end);
                    proof {
                        lemma_boundary_step(bytes, end as int);
                    }
                    if c.is_alphanumeric() || c == '-' {
                        end = end + char_width(c);
                    } else {
                        break;
                    }
                }
                self.pos = end;
                return Some(MatchStrPos { s: substr(s, start, end), start, end });
            }
            pos = new_pos + len_c;
        }
        self.pos = pos;
        None
    }

    /// Gives the words that are left, in order.
    pub fn collect(self) -> (v: Vec<MatchStrPos<'a>>)
        ensures
            v@.len() == words_from(self.language(), self.text(), self.position()).len(),
            forall|i: int|
                0 <= i < v@.len() ==> (#[trigger] v@[i]).covers(
                    self.text(),
                    words_from(self.language(), self.text(), self.position())[i].0,
                    words_from(self.language(), self.text(), self.position())[i].1,
                ),
    {
        let ghost language = self.language();
        let ghost bytes = self.text();
        let ghost all = words_from(language, bytes, self.position());
        let mut it = self;
        let mut v: Vec<MatchStrPos<'a>> = Vec::new();
        loop
            invariant_except_break
                it.language() == language,
                it.text() == bytes,
                0 <= it.position(),
                all == Seq::new(
                    v@.len(),
                    |i: int| (v@[i].start as int, v@[i].end as int),
                ) + words_from(language, bytes, it.position()),
                forall|i: int|
                    0 <= i < v@.len() ==> (#[trigger] v@[i]).covers(
                        bytes,
                        v@[i].start as int,
                        v@[i].end as int,
                    ),
            ensures
                v@.len() == all.len(),
                forall|i: int|
                    0 <= i < v@.len() ==> (#[trigger] v@[i]).covers(bytes, all[i].0, all[i].1),
            decreases bytes.len() - it.position(),
        {
            let ghost found = Seq::new(v@.len(), |i: int| (v@[i].start as int, v@[i].end as int));
            proof {
                lemma_next_word(language, bytes, it.position());
            }
            match it.next() {
                Some(m) => {
                    v.push(m);
                    proof {
                        let now = Seq::new(
                            v@.len(),
                            |i: int| (v@[i].start as int, v@[i].end as int),
                        );
                        assert(now =~= found.push((m.start as int, m.end as int)));
                        assert(all =~= now + words_from(language, bytes, it.position()));
                    }
                },
                None => {
                    assert(all =~= found);
                    break;
                },
            }
        }
        v
    }
}

} // verus!
