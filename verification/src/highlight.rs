//! Highlighting of parts of a string with the colors of a terminal.

use vstd::prelude::*;
use vstd::std_specs::iter::IteratorSpec;
use vstd::string::*;
use vstd::utf8::*;

use colored::Colorize;

use crate::diagnostic::is_span;
use crate::rules::common::{find_matches, matches_of};
use crate::text::substr;

verus! {

/// Calls `colored` to write a text in bold bright yellow on red. Whether
/// colors are written, and how, depends on the environment of the process:
/// nothing is said of the result.
#[verifier::external_body]
fn paint(text: &str) -> (r: String) {
    text.color("bright yellow").bold().on_color("red").to_string()
}

/// True when the span at the place `k` is highlighted: it cuts a part out
/// of the text, and starts at or after the end of the last span that is
/// highlighted before it.
pub open spec fn is_kept(bytes: Seq<u8>, spans: Seq<(usize, usize)>, k: int) -> bool {
    0 <= k < spans.len() && is_span(bytes, spans[k]) && spans[k].0 >= cursor_after(bytes, spans, k)
}

/// The end of the last span that is highlighted among the first `k` spans,
/// or 0.
pub open spec fn cursor_after(bytes: Seq<u8>, spans: Seq<(usize, usize)>, k: int) -> int
    decreases k,
{
    if k <= 0 || k > spans.len() {
        0
    } else if is_span(bytes, spans[k - 1]) && spans[k - 1].0 >= cursor_after(bytes, spans, k - 1) {
        spans[k - 1].1 as int
    } else {
        cursor_after(bytes, spans, k - 1)
    }
}

/// The text up to the end of the last of the first `k` spans that is
/// highlighted, with `painted[i]` in the place of the span `i`.
pub open spec fn woven(
    bytes: Seq<u8>,
    spans: Seq<(usize, usize)>,
    painted: Seq<Seq<char>>,
    k: int,
) -> Seq<char>
    decreases k,
{
    if k <= 0 || k > spans.len() {
        Seq::empty()
    } else if is_kept(bytes, spans, k - 1) {
        woven(bytes, spans, painted, k - 1) + decode_utf8(
            bytes.subrange(cursor_after(bytes, spans, k - 1), spans[k - 1].0 as int),
        ) + painted[k - 1]
    } else {
        woven(bytes, spans, painted, k - 1)
    }
}

/// The text with `painted[i]` in the place of each span `i` that is
/// highlighted.
pub open spec fn highlighted(
    bytes: Seq<u8>,
    spans: Seq<(usize, usize)>,
    painted: Seq<Seq<char>>,
) -> Seq<char> {
    woven(bytes, spans, painted, spans.len() as int) + decode_utf8(
        bytes.subrange(cursor_after(bytes, spans, spans.len() as int), bytes.len() as int),
    )
}

/// What stands in the place of the first spans does not depend on what is
/// painted for the other spans.
pub proof fn lemma_woven_prefix(
    bytes: Seq<u8>,
    spans: Seq<(usize, usize)>,
    a: Seq<Seq<char>>,
    b: Seq<Seq<char>>,
    k: int,
)
    requires
        0 <= k <= a.len(),
        k <= b.len(),
        forall|i: int| 0 <= i < k ==> a[i] == b[i],
    ensures
        woven(bytes, spans, a, k) == woven(bytes, spans, b, k),
    decreases k,
{
    if k > 0 {
        lemma_woven_prefix(bytes, spans, a, b, k - 1);
    }
}

/// Builds a string with the spans that are highlighted painted: each on
/// its own, or all with `same` where it is given.
fn weave(s: &str, spans: &[(usize, usize)], same: Option<&str>) -> (r: (
    String,
    Ghost<Seq<Seq<char>>>,
))
    ensures
        r.1@.len() == spans@.len(),
        r.0@ == highlighted(s.spec_bytes(), spans@, r.1@),
        same is Some ==> forall|i: int| 0 <= i < spans@.len() ==> r.1@[i] == same->0@,
{
    let bytes = s.as_bytes();
    proof {
        encode_utf8_valid_utf8(s@);
        is_char_boundary_start_end_of_seq(bytes@);
    }
    let ghost mut painted: Seq<Seq<char>> = Seq::empty();
    let mut result = String::new();
    let mut pos: usize = 0;
    let mut k: usize = 0;
    while k < spans.len()
        invariant
            bytes@ == s.spec_bytes(),
            valid_utf8(bytes@),
            is_char_boundary(bytes@, bytes@.len() as int),
            k <= spans@.len(),
            painted.len() == k,
            pos == cursor_after(bytes@, spans@, k as int),
            pos <= bytes@.len(),
            is_char_boundary(bytes@, pos as int),
            result@ == woven(bytes@, spans@, painted, k as int),
            same is Some ==> forall|i: int| 0 <= i < k ==> painted[i] == same->0@,
        decreases spans@.len() - k,
    {
        let (start, end) = spans[k];
        let ghost before = painted;
        if start >= pos && start <= end && end <= bytes.len() && s.is_char_boundary(start)
            && s.is_char_boundary(end) {
            let plain = substr(s, pos, start);
            let part = substr(s, start, end);
            proof {
                encode_utf8_decode_utf8(plain@);
            }
            result.append(plain);
            match same {
                Some(text) => {
                    result.append(text);
                    proof {
                        painted = painted.push(text@);
                    }
                },
                None => {
                    let colored = paint(part);
                    result.append(colored.as_str());
                    proof {
                        painted = painted.push(colored@);
                    }
                },
            }
            pos = end;
        } else {
            proof {
                painted = painted.push(
                    match same {
                        Some(text) => text@,
                        None => Seq::empty(),
                    },
                );
            }
        }
        proof {
            lemma_woven_prefix(bytes@, spans@, before, painted, k as int);
        }
        k += 1;
    }
    let rest = substr(s, pos, bytes.len());
    proof {
        encode_utf8_decode_utf8(rest@);
    }
    result.append(rest);
    (result, Ghost(painted))
}

/// The text with `with` before each of its characters and at its end: what
/// replacing an empty text gives.
pub open spec fn interleaved(text: Seq<char>, with: Seq<char>) -> Seq<char>
    decreases text.len(),
{
    if text.len() == 0 {
        with
    } else {
        interleaved(text.drop_last(), with) + seq![text.last()] + with
    }
}

/// The text with every occurrence of `needle`, from left to right and
/// without overlap, replaced by `with`.
pub open spec fn replaced(text: Seq<char>, needle: Seq<char>, with: Seq<char>) -> Seq<char> {
    if needle.len() == 0 {
        interleaved(text, with)
    } else {
        let spans = matches_of(encode_utf8(text), encode_utf8(needle), 0);
        highlighted(encode_utf8(text), spans, Seq::new(spans.len(), |i: int| with))
    }
}

/// Replaces every occurrence of `needle` in `s` by `with`.
pub fn replace_all(s: &str, needle: &str, with: &str) -> (r: String)
    ensures
        r@ == replaced(s@, needle@, with@),
{
    if needle.is_empty() {
        let mut result = with.to_owned();
        let mut it = s.chars();
        let ghost n: int = 0;
        assert(s@.subrange(0, 0) =~= Seq::empty());
        loop
            invariant_except_break
                0 <= n <= s@.len(),
                it.remaining() == s@.subrange(n, s@.len() as int),
                result@ == interleaved(s@.subrange(0, n), with@),
            ensures
                result@ == interleaved(s@, with@),
            decreases s@.len() - n,
        {
            match it.next() {
                Some(c) => {
                    result.push(c);
                    result.append(with);
                    proof {
                        assert(c == s@[n]);
                        let next = s@.subrange(0, n + 1);
                        assert(next.drop_last() =~= s@.subrange(0, n));
                        assert(next.last() == c);
                        assert(s@.subrange(n, s@.len() as int).drop_first() =~= s@.subrange(
                            n + 1,
                            s@.len() as int,
                        ));
                        assert(result@ =~= interleaved(next, with@));
                        n = n + 1;
                    }
                },
                None => {
                    assert(s@.subrange(n, s@.len() as int).len() == 0);
                    assert(s@.subrange(0, n) =~= s@);
                    break;
                },
            }
        }
        result
    } else {
        let spans = find_matches(s.as_bytes(), needle.as_bytes());
        let (result, Ghost(painted)) = weave(s, spans.as_slice(), Some(with));
        proof {
            assert(painted =~= Seq::new(spans@.len(), |i: int| with@));
        }
        result
    }
}

/// The texts of a list of strings.
pub open spec fn list_texts(list: Seq<&str>) -> Seq<Seq<char>> {
    Seq::new(list.len(), |i: int| list[i]@)
}

/// The text after the occurrences of each of the first `k` texts of the
/// list have been replaced, one text after the other, the text `i` by
/// `painted[i]`.
pub open spec fn replaced_each(
    text: Seq<char>,
    list: Seq<Seq<char>>,
    painted: Seq<Seq<char>>,
    k: int,
) -> Seq<char>
    decreases k,
{
    if k <= 0 || k > list.len() {
        text
    } else {
        replaced(replaced_each(text, list, painted, k - 1), list[k - 1], painted[k - 1])
    }
}

/// What the first texts are replaced by does not depend on what is painted
/// for the other texts.
pub proof fn lemma_replaced_each_prefix(
    text: Seq<char>,
    list: Seq<Seq<char>>,
    a: Seq<Seq<char>>,
    b: Seq<Seq<char>>,
    k: int,
)
    requires
        0 <= k <= a.len(),
        k <= b.len(),
        forall|i: int| 0 <= i < k ==> a[i] == b[i],
    ensures
        replaced_each(text, list, a, k) == replaced_each(text, list, b, k),
    decreases k,
{
    if k > 0 {
        lemma_replaced_each_prefix(text, list, a, b, k - 1);
    }
}

/// Highlighting of parts of a string.
pub trait HighlightExt {
    /// The UTF-8 bytes of the string.
    spec fn text_bytes(&self) -> Seq<u8>;

    /// Highlights the part from `start` to `end`. Positions that cut no
    /// part out of the string highlight nothing.
    fn highlight_pos(&self, start: usize, end: usize) -> (r: String)
        ensures
            exists|painted: Seq<Seq<char>>|
                painted.len() == 1 && r@ == highlighted(
                    self.text_bytes(),
                    seq![(start, end)],
                    painted,
                ),
    ;

    /// Highlights the parts at the given positions, in their order. A part
    /// that starts before the end of a part that is highlighted, or whose
    /// positions cut no part out of the string, is not highlighted.
    fn highlight_list_pos(&self, list_pos: &[(usize, usize)]) -> (r: String)
        ensures
            exists|painted: Seq<Seq<char>>|
                painted.len() == list_pos@.len() && r@ == highlighted(
                    self.text_bytes(),
                    list_pos@,
                    painted,
                ),
    ;

    /// Highlights every occurrence of `hl`.
    fn highlight_str(&self, hl: &str) -> (r: String)
        ensures
            exists|painted: Seq<char>| r@ == replaced(decode_utf8(self.text_bytes()), hl@, painted),
    ;

    /// Highlights every occurrence of each text of the list, one text
    /// after the other.
    fn highlight_list_str(&self, list_hl: &[&str]) -> (r: String)
        ensures
            exists|painted: Seq<Seq<char>>|
                painted.len() == list_hl@.len() && r@ == replaced_each(
                    decode_utf8(self.text_bytes()),
                    list_texts(list_hl@),
                    painted,
                    list_hl@.len() as int,
                ),
    ;
}

impl HighlightExt for str {
    open spec fn text_bytes(&self) -> Seq<u8> {
        self.spec_bytes()
    }

    fn highlight_pos(&self, start: usize, end: usize) -> (r: String) {
        let mut spans: Vec<(usize, usize)> = Vec::new();
        spans.push((start, end));
        assert(spans@ =~= seq![(start, end)]);
        let (r, Ghost(painted)) = weave(self, spans.as_slice(), None);
        r
    }

    fn highlight_list_pos(&self, list_pos: &[(usize, usize)]) -> (r: String) {
        let (r, Ghost(painted)) = weave(self, list_pos, None);
        assert(painted.len() == list_pos@.len() && r@ == highlighted(
            self.text_bytes(),
            list_pos@,
            painted,
        ));
        r
    }

    fn highlight_str(&self, hl: &str) -> (r: String) {
        let colored = paint(hl);
        proof {
            encode_utf8_decode_utf8(self@);
        }
        let r = replace_all(self, hl, colored.as_str());
        assert(r@ == replaced(decode_utf8(self.text_bytes()), hl@, colored@));
        r
    }

    fn highlight_list_str(&self, list_hl: &[&str]) -> (r: String) {
        proof {
            encode_utf8_decode_utf8(self@);
        }
        let ghost list = list_texts(list_hl@);
        let ghost mut painted: Seq<Seq<char>> = Seq::empty();
        let mut result = self.to_owned();
        let mut i: usize = 0;
        while i < list_hl.len()
            invariant
                i <= list_hl@.len(),
                list == list_texts(list_hl@),
                painted.len() == i,
                result@ == replaced_each(self@, list, painted, i as int),
            decreases list_hl@.len() - i,
        {
            let colored = paint(list_hl[i]);
            let ghost before = painted;
            result = replace_all(result.as_str(), list_hl[i], colored.as_str());
            proof {
                painted = painted.push(colored@);
                lemma_replaced_each_prefix(self@, list, before, painted, i as int);
            }
            i += 1;
        }
        assert(painted.len() == list_hl@.len() && result@ == replaced_each(
            decode_utf8(self.text_bytes()),
            list_texts(list_hl@),
            painted,
            list_hl@.len() as int,
        ));
        result
    }
}

} // verus!
