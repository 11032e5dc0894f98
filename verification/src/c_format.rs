//! Utilities for C-format strings.

use vstd::prelude::*;
use vstd::string::*;
use vstd::utf8::*;

use crate::ascii;
use crate::po::format::lang_c::{
    c_format_end, fmt_sort_index, fmt_strip_index, lemma_c_format_end, sort_index, stripped_index,
};
use crate::text::{left, lemma_ascii_boundary, substr};

pub use crate::po::format::lang_c::get_index_end_c_format;

verus! {

/// The first C placeholder that starts at or after `pos`, as its start and
/// its end. A `%` that ends the text is a placeholder of its own.
pub open spec fn next_c_format(bytes: Seq<u8>, pos: int) -> Option<(int, int)>
    decreases left(bytes, pos),
{
    let len = bytes.len() as int;
    if pos < 0 || pos >= len {
        None
    } else if bytes[pos] != ascii::PERCENT {
        next_c_format(bytes, pos + 1)
    } else if pos + 1 < len && bytes[pos + 1] == ascii::PERCENT {
        next_c_format(bytes, pos + 2)
    } else {
        Some((pos, c_format_end(bytes, pos + 1, len)))
    }
}

/// The C placeholders of `bytes` from `pos` on, in order.
pub open spec fn c_formats_from(bytes: Seq<u8>, pos: int) -> Seq<(int, int)>
    decreases left(bytes, pos),
{
    match next_c_format(bytes, pos) {
        Some((start, end)) => if pos < end <= bytes.len() {
            seq![(start, end)] + c_formats_from(bytes, end)
        } else {
            seq![(start, end)]
        },
        None => Seq::empty(),
    }
}

/// A placeholder found from `pos` starts at or after `pos` with a `%` and
/// ends after its start, within the text.
pub proof fn lemma_next_c_format(bytes: Seq<u8>, pos: int)
    requires
        0 <= pos,
    ensures
        match next_c_format(bytes, pos) {
            Some((start, end)) => pos <= start < end <= bytes.len() && bytes[start]
                == ascii::PERCENT && (end == start + 1 || bytes[end - 1] < 0x80),
            None => true,
        },
    decreases left(bytes, pos),
{
    let len = bytes.len() as int;
    if pos < len {
        if bytes[pos] != ascii::PERCENT {
            lemma_next_c_format(bytes, pos + 1);
        } else if pos + 1 < len && bytes[pos + 1] == ascii::PERCENT {
            lemma_next_c_format(bytes, pos + 2);
        } else {
            lemma_c_format_end(bytes, pos + 1, len);
        }
    }
}

/// Scanner that gives the C placeholders of a text, one at a time.
pub struct CFormat<'a> {
    s: &'a str,
    len: usize,
    pos: usize,
}

/// A C placeholder found in a text, with its position in bytes.
#[derive(Clone, Copy, Debug, PartialEq, Eq)]
pub struct MatchCFormat<'a> {
    pub format: &'a str,
    pub start: usize,
    pub end: usize,
}

impl<'a> MatchCFormat<'a> {
    /// True when this match is the part of `bytes` from `start` to `end`.
    pub open spec fn covers(&self, bytes: Seq<u8>, start: int, end: int) -> bool {
        &&& self.start == start
        &&& self.end == end
        &&& 0 <= start <= end <= bytes.len()
        &&& self.format.spec_bytes() == bytes.subrange(start, end)
    }

    /// Returns the reordering index of this placeholder, or `usize::MAX` if
    /// it has none: for `"%3$d"`, 3.
    pub fn sort_index(&self) -> (r: usize)
        ensures
            r == sort_index(self.format.spec_bytes()),
    {
        fmt_sort_index(self.format)
    }

    /// Returns this placeholder without its reordering index: for `"%3$d"`,
    /// `"%d"`.
    pub fn remove_reordering(&self) -> (r: String)
        ensures
            encode_utf8(r@) == stripped_index(self.format.spec_bytes()),
    {
        fmt_strip_index(self.format)
    }

    /// Returns the key by which placeholders are put in order: the
    /// reordering index first, then the start, then the end.
    pub fn sort_key(&self) -> (r: (usize, usize, usize))
        ensures
            r == (sort_index(self.format.spec_bytes()) as usize, self.start, self.end),
    {
        (self.sort_index(), self.start, self.end)
    }
}

impl<'a> CFormat<'a> {
    #[verifier::type_invariant]
    spec fn inv(self) -> bool {
        &&& self.len == self.s.spec_bytes().len()
        &&& self.pos <= self.len
    }

    /// The bytes of the text that is scanned.
    pub closed spec fn text(&self) -> Seq<u8> {
        self.s.spec_bytes()
    }

    /// The position from which the scan goes on.
    pub closed spec fn position(&self) -> int {
        self.pos as int
    }

    /// Creates a scanner at the start of `s`.
    pub fn new(s: &'a str) -> (r: Self)
        ensures
            r.text() == s.spec_bytes(),
            r.position() == 0,
    {
        Self { s, len: s.as_bytes().len(), pos: 0 }
    }

    /// Gives the next placeholder, or `None` when the text holds no more.
    pub fn next(&mut self) -> (r: Option<MatchCFormat<'a>>)
        ensures
            final(self).text() == old(self).text(),
            match next_c_format(old(self).text(), old(self).position()) {
                Some((start, end)) => r is Some && r->0.covers(old(self).text(), start, end)
                    && final(self).position() == end,
                None => r is None && final(self).position() == old(self).text().len(),
            },
    {
        proof {
            use_type_invariant(&*self);
            encode_utf8_valid_utf8(self.s@);
        }
        let s = self.s;
        let bytes = s.as_bytes();
        let len = self.len;
        let mut pos = self.pos;
        while pos < len
            invariant
                bytes@ == s.spec_bytes(),
                valid_utf8(bytes@),
                len == bytes@.len(),
                pos <= len,
                next_c_format(bytes@, old(self).position()) == next_c_format(bytes@, pos as int),
                self.s == s,
                old(self).s == s,
                self.len == len,
                self.pos <= len,
            decreases len - pos,
        {
            if bytes[pos] != ascii::PERCENT {
                pos += 1;
                continue;
            }
            let start = pos;
            pos += 1;
            // Handle escaped "%%".
            if pos < len && bytes[pos] == ascii::PERCENT {
                pos += 1;
                continue;
            }
            pos = get_index_end_c_format(bytes, pos, len);
            proof {
                lemma_next_c_format(bytes@, start as int);
                lemma_ascii_boundary(bytes@, start as int);
                if pos > start + 1 {
                    lemma_ascii_boundary(bytes@, pos - 1);
                }
            }
            self.pos = pos;
            return Some(MatchCFormat { format: substr(s, start, pos), start, end: pos });
        }
        self.pos = pos;
        None
    }

    /// Gives the placeholders that are left, in order.
    pub fn collect(self) -> (v: Vec<MatchCFormat<'a>>)
        ensures
            v@.len() == c_formats_from(self.text(), self.position()).len(),
            forall|i: int|
                0 <= i < v@.len() ==> (#[trigger] v@[i]).covers(
                    self.text(),
                    c_formats_from(self.text(), self.position())[i].0,
                    c_formats_from(self.text(), self.position())[i].1,
                ),
    {
        let ghost bytes = self.text();
        let ghost all = c_formats_from(bytes, self.position());
        let mut it = self;
        let mut v: Vec<MatchCFormat<'a>> = Vec::new();
        loop
            invariant_except_break
                it.text() == bytes,
                0 <= it.position(),
                all == Seq::new(
                    v@.len(),
                    |i: int| (v@[i].start as int, v@[i].end as int),
                ) + c_formats_from(bytes, it.position()),
                forall|i: int|
                    0 <= i < v@.len() ==> (#[trigger] v@[i]).covers(
                        bytes,
                        v@[i].start as int,
                        v@[i].end as int,
                    ),
            ensures
                v@.len() == all.len(),
                forall|i: int|
                    0 <= i < v@.len() ==> (#[trigger] v@[i]).covers(bytes, all[i].0, all[i].1),
            decreases bytes.len() - it.position(),
        {
            let ghost found = Seq::new(v@.len(), |i: int| (v@[i].start as int, v@[i].end as int));
            proof {
                lemma_next_c_format(bytes, it.position());
            }
            match it.next() {
                Some(m) => {
                    v.push(m);
                    proof {
                        let now = Seq::new(
                            v@.len(),
                            |i: int| (v@[i].start as int, v@[i].end as int),
                        );
                        assert(now =~= found.push((m.start as int, m.end as int)));
                        assert(all =~= now + c_formats_from(bytes, it.position()));
                    }
                },
                None => {
                    assert(all =~= found);
                    break;
                },
            }
        }
        v
    }
}

} // verus!
