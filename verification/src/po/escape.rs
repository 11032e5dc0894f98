//! Escaping of the quoted strings of a PO file.

use vstd::prelude::*;
use vstd::std_specs::iter::IteratorSpec;
use vstd::string::*;

verus! {

/// The characters that stand in a PO file for the character `c`.
pub open spec fn escaped_char(c: char) -> Seq<char> {
    if c == '\n' {
        seq!['\\', 'n']
    } else if c == '\r' {
        seq!['\\', 'r']
    } else if c == '\t' {
        seq!['\\', 't']
    } else if c == '"' {
        seq!['\\', '"']
    } else if c == '\\' {
        seq!['\\', '\\']
    } else {
        seq![c]
    }
}

/// The escaped form of a text: each character replaced by its escape.
pub open spec fn escaped(s: Seq<char>) -> Seq<char>
    decreases s.len(),
{
    if s.len() == 0 {
        Seq::empty()
    } else {
        escaped_char(s[0]) + escaped(s.drop_first())
    }
}

/// The text that a backslash followed by `c` stands for. An unknown sequence
/// stands for itself.
pub open spec fn unescaped_pair(c: char) -> Seq<char> {
    if c == 'n' {
        seq!['\n']
    } else if c == 'r' {
        seq!['\r']
    } else if c == 't' {
        seq!['\t']
    } else if c == '"' {
        seq!['"']
    } else if c == '\\' {
        seq!['\\']
    } else {
        seq!['\\', c]
    }
}

/// The text that an escaped string stands for. A lone backslash at the end
/// is kept.
pub open spec fn unescaped(s: Seq<char>) -> Seq<char>
    decreases s.len(),
{
    if s.len() == 0 {
        Seq::empty()
    } else if s[0] != '\\' {
        seq![s[0]] + unescaped(s.drop_first())
    } else if s.len() == 1 {
        seq!['\\']
    } else {
        unescaped_pair(s[1]) + unescaped(s.subrange(2, s.len() as int))
    }
}

/// Unescaping what `escaped_char(c)` gives, followed by any text, yields `c`
/// followed by the unescaped text.
proof fn lemma_unescaped_after_escaped_char(c: char, rest: Seq<char>)
    ensures
        unescaped(escaped_char(c) + rest) == seq![c] + unescaped(rest),
{
    let e = escaped_char(c);
    let s = e + rest;
    if e.len() == 1 {
        assert(s.drop_first() =~= rest);
    } else {
        assert(s.subrange(2, s.len() as int) =~= rest);
        assert(unescaped_pair(s[1]) =~= seq![c]);
    }
}

/// Round trip: unescaping an escaped text gives the text back.
pub proof fn lemma_unescape_escape(s: Seq<char>)
    ensures
        unescaped(escaped(s)) == s,
    decreases s.len(),
{
    if s.len() == 0 {
    } else {
        lemma_unescape_escape(s.drop_first());
        lemma_unescaped_after_escaped_char(s[0], escaped(s.drop_first()));
        assert(seq![s[0]] + s.drop_first() =~= s);
    }
}

/// Escaping and unescaping of the text of a string.
pub trait EscapePoExt {
    /// The text that is escaped or unescaped.
    spec fn text(&self) -> Seq<char>;

    /// Escapes the special characters of the text.
    fn escape_po(&self) -> (r: String)
        ensures
            r@ == escaped(self.text()),
    ;

    /// Replaces the escape sequences of the text by what they stand for.
    fn unescape_po(&self) -> (r: String)
        ensures
            r@ == unescaped(self.text()),
    ;
}

impl EscapePoExt for str {
    open spec fn text(&self) -> Seq<char> {
        self@
    }

    fn escape_po(&self) -> (r: String) {
        let mut out = String::new();
        let mut it = self.chars();
        let ghost n: int = 0;
        loop
            invariant_except_break
                0 <= n <= self@.len(),
                it.remaining() == self@.subrange(n, self@.len() as int),
                escaped(self@) == out@ + escaped(self@.subrange(n, self@.len() as int)),
            ensures
                out@ == escaped(self@),
            decreases self@.len() - n,
        {
            let ghost rest = self@.subrange(n, self@.len() as int);
            match it.next() {
                Some(ch) => {
                    let ghost before = out@;
                    if ch == '\n' {
                        out.push('\\');
                        out.push('n');
                    } else if ch == '\r' {
                        out.push('\\');
                        out.push('r');
                    } else if ch == '\t' {
                        out.push('\\');
                        out.push('t');
                    } else if ch == '"' {
                        out.push('\\');
                        out.push('"');
                    } else if ch == '\\' {
                        out.push('\\');
                        out.push('\\');
                    } else {
                        out.push(ch);
                    }
                    proof {
                        assert(rest.drop_first() =~= self@.subrange(n + 1, self@.len() as int));
                        assert(out@ =~= before + escaped_char(ch));
                        assert(out@ + escaped(rest.drop_first()) =~= before + escaped(rest));
                        n = n + 1;
                    }
                },
                None => {
                    assert(rest.len() == 0);
                    assert(out@ =~= escaped(self@));
                    break;
                },
            }
        }
        out
    }

    fn unescape_po(&self) -> (r: String) {
        let mut out = String::new();
        let mut it = self.chars();
        let mut pending = false;
        let ghost n: int = 0;
        loop
            invariant_except_break
                0 <= n <= self@.len(),
                it.remaining() == self@.subrange(n, self@.len() as int),
                pending ==> n > 0 && self@[n - 1] == '\\',
                unescaped(self@) == out@ + unescaped(
                    self@.subrange(if pending { n - 1 } else { n }, self@.len() as int),
                ),
            ensures
                out@ == unescaped(self@),
            decreases self@.len() - n,
        {
            let ghost start = if pending { n - 1 } else { n };
            let ghost rest = self@.subrange(start, self@.len() as int);
            match it.next() {
                Some(ch) => {
                    let ghost before = out@;
                    if pending {
                        if ch == 'n' {
                            out.push('\n');
                        } else if ch == 'r' {
                            out.push('\r');
                        } else if ch == 't' {
                            out.push('\t');
                        } else if ch == '"' {
                            out.push('"');
                        } else if ch == '\\' {
                            out.push('\\');
                        } else {
                            out.push('\\');
                            out.push(ch);
                        }
                        pending = false;
                        proof {
                            assert(rest.subrange(2, rest.len() as int) =~= self@.subrange(
                                n + 1,
                                self@.len() as int,
                            ));
                            assert(out@ =~= before + unescaped_pair(ch));
                            assert(out@ + unescaped(rest.subrange(2, rest.len() as int))
                                =~= before + unescaped(rest));
                        }
                    } else if ch == '\\' {
                        pending = true;
                    } else {
                        out.push(ch);
                        proof {
                            assert(rest.drop_first() =~= self@.subrange(
                                n + 1,
                                self@.len() as int,
                            ));
                            assert(out@ + unescaped(rest.drop_first()) =~= before + unescaped(
                                rest,
                            ));
                        }
                    }
                    proof {
                        n = n + 1;
                    }
                },
                None => {
                    assert(n == self@.len());
                    if pending {
                        out.push('\\');
                        assert(rest.len() == 1);
                    } else {
                        assert(rest.len() == 0);
                    }
                    assert(out@ =~= unescaped(self@));
                    break;
                },
            }
        }
        out
    }
}

} // verus!
