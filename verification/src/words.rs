//! Positions of the words and of the characters of the strings of an
//! entry, with or without its C format strings.

use vstd::prelude::*;
use vstd::string::*;

use crate::po::format::char_pos::{counted_chars_from, next_counted_char};
use crate::po::format::language::Language;
use crate::po::format::word_pos::{next_word, words_from};
use crate::text::str_eq;

verus! {

/// The language that a format stands for here: `c` for the C language,
/// anything else for none.
pub open spec fn language_for(format: Seq<char>) -> Language {
    if format == "c"@ {
        Language::C
    } else {
        Language::Null
    }
}

/// Returns the language that a format stands for here.
fn language_from(format: &str) -> (r: Language)
    ensures
        r == language_for(format@),
{
    if str_eq(format, "c") {
        Language::C
    } else {
        Language::Null
    }
}

/// The spans as pairs of positions.
pub open spec fn positions(spans: Seq<(int, int)>) -> Seq<(usize, usize)> {
    Seq::new(spans.len(), |i: int| (spans[i].0 as usize, spans[i].1 as usize))
}

/// Scanner that gives the positions of the words of a string.
pub struct WordPos<'a> {
    scan: crate::po::format::word_pos::WordPos<'a>,
}

/// Scanner that gives the positions of the letters, numbers and hyphens of
/// a string.
pub struct CharPos<'a> {
    scan: crate::po::format::char_pos::CharPos<'a>,
}

impl<'a> WordPos<'a> {
    /// The bytes of the text that is scanned.
    pub closed spec fn text(&self) -> Seq<u8> {
        self.scan.text()
    }

    /// The position from which the scan goes on.
    pub closed spec fn position(&self) -> int {
        self.scan.position()
    }

    /// The language whose placeholders are skipped.
    pub closed spec fn language(&self) -> Language {
        self.scan.language()
    }

    /// Creates a scanner at the start of `s`. The format is `c` to skip C
    /// format strings, or an empty string.
    pub fn new(s: &'a str, format: &str) -> (r: Self)
        ensures
            r.text() == s.spec_bytes(),
            r.position() == 0,
            r.language() == language_for(format@),
    {
        let language = language_from(format);
        Self { scan: crate::po::format::word_pos::WordPos::new(s, &language) }
    }

    /// Gives the position of the next word, or `None` when the text holds
    /// no more.
    pub fn next(&mut self) -> (r: Option<(usize, usize)>)
        ensures
            final(self).text() == old(self).text(),
            final(self).language() == old(self).language(),
            match next_word(old(self).language(), old(self).text(), old(self).position()) {
                Some((start, end)) => r == Some((start as usize, end as usize)) && start
                    == start as usize && end == end as usize && final(self).position() == end,
                None => r is None && final(self).position() == old(self).text().len(),
            },
    {
        match self.scan.next() {
            Some(m) => Some((m.start, m.end)),
            None => None,
        }
    }

    /// Gives the positions of the words that are left, in order.
    pub fn collect(self) -> (v: Vec<(usize, usize)>)
        ensures
            v@ == positions(words_from(self.language(), self.text(), self.position())),
    {
        let found = self.scan.collect();
        let mut v: Vec<(usize, usize)> = Vec::new();
        let mut i: usize = 0;
        while i < found.len()
            invariant
                i <= found@.len(),
                v@.len() == i,
                forall|k: int|
                    0 <= k < i ==> (#[trigger] v@[k]) == (found@[k].start, found@[k].end),
            decreases found@.len() - i,
        {
            v.push((found[i].start, found[i].end));
            i += 1;
        }
        assert(v@ =~= positions(words_from(self.language(), self.text(), self.position())));
        v
    }
}

impl<'a> CharPos<'a> {
    /// The bytes of the text that is scanned.
    pub closed spec fn text(&self) -> Seq<u8> {
        self.scan.text()
    }

    /// The position from which the scan goes on.
    pub closed spec fn position(&self) -> int {
        self.scan.position()
    }

    /// The language whose placeholders are skipped.
    pub closed spec fn language(&self) -> Language {
        self.scan.language()
    }

    /// Creates a scanner at the start of `s`. The format is `c` to skip C
    /// format strings, or an empty string.
    pub fn new(s: &'a str, format: &str) -> (r: Self)
        ensures
            r.text() == s.spec_bytes(),
            r.position() == 0,
            r.language() == language_for(format@),
    {
        let language = language_from(format);
        Self { scan: crate::po::format::char_pos::CharPos::new(s, &language) }
    }

    /// Gives the position of the next letter, number or hyphen, or `None`
    /// when the text holds no more.
    pub fn next(&mut self) -> (r: Option<(usize, usize)>)
        ensures
            final(self).text() == old(self).text(),
            final(self).language() == old(self).language(),
            match next_counted_char(old(self).language(), old(self).text(), old(self).position()) {
                Some((start, end)) => r == Some((start as usize, end as usize)) && start
                    == start as usize && end == end as usize && final(self).position() == end,
                None => r is None && final(self).position() == old(self).text().len(),
            },
    {
        match self.scan.next() {
            Some(m) => Some((m.start, m.end)),
            None => None,
        }
    }

    /// Gives the positions of the letters, numbers and hyphens that are
    /// left, in order.
    pub fn collect(self) -> (v: Vec<(usize, usize)>)
        ensures
            v@ == positions(counted_chars_from(self.language(), self.text(), self.position())),
    {
        let found = self.scan.collect();
        let mut v: Vec<(usize, usize)> = Vec::new();
        let mut i: usize = 0;
        while i < found.len()
            invariant
                i <= found@.len(),
                v@.len() == i,
                forall|k: int|
                    0 <= k < i ==> (#[trigger] v@[k]) == (found@[k].start, found@[k].end),
            decreases found@.len() - i,
        {
            v.push((found[i].start, found[i].end));
            i += 1;
        }
        assert(v@ =~= positions(
            counted_chars_from(self.language(), self.text(), self.position()),
        ));
        v
    }
}

} // verus!
