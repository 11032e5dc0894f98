//! Diagnostic for PO files.

use vstd::prelude::*;
use vstd::slice::*;
use vstd::string::*;
use vstd::utf8::*;

use crate::text::{insert_word, substr, texts, with_word};

verus! {

/// How serious a diagnostic is: `Info < Warning < Error`.
#[derive(Debug, Default, Clone, Copy, PartialEq, Eq, PartialOrd, Ord, Hash, Structural)]
pub enum Severity {
    #[default]
    Info,
    Warning,
    Error,
}

impl Severity {
    /// The place of this severity in the order, from 0 for `Info`.
    pub open spec fn rank(self) -> int {
        match self {
            Severity::Info => 0,
            Severity::Warning => 1,
            Severity::Error => 2,
        }
    }

    /// The word that stands for this severity in reports.
    pub open spec fn label(self) -> Seq<char> {
        match self {
            Severity::Info => "info"@,
            Severity::Warning => "warning"@,
            Severity::Error => "error"@,
        }
    }

    /// Returns the word that stands for this severity in reports.
    pub fn name(&self) -> (r: &'static str)
        ensures
            r@ == self.label(),
    {
        match self {
            Severity::Info => "info",
            Severity::Warning => "warning",
            Severity::Error => "error",
        }
    }

    /// Tells whether this severity is at least as serious as `other`.
    pub fn at_least(&self, other: Severity) -> (r: bool)
        ensures
            r == (self.rank() >= other.rank()),
    {
        match (self, other) {
            (_, Severity::Info) => true,
            (Severity::Info, _) => false,
            (_, Severity::Warning) => true,
            (Severity::Warning, _) => false,
            (Severity::Error, Severity::Error) => true,
        }
    }
}

/// One line of context of a diagnostic, with the parts of it to highlight
/// as pairs of byte offsets into the message.
#[derive(Debug, Default, PartialEq, Eq)]
pub struct DiagnosticLine {
    pub line_number: usize,
    pub message: String,
    pub highlights: Vec<(usize, usize)>,
}

/// What a line of context holds.
pub struct DiagnosticLineView {
    pub line_number: usize,
    pub message: Seq<char>,
    pub highlights: Seq<(usize, usize)>,
}

impl View for DiagnosticLine {
    type V = DiagnosticLineView;

    open spec fn view(&self) -> DiagnosticLineView {
        DiagnosticLineView {
            line_number: self.line_number,
            message: self.message@,
            highlights: self.highlights@,
        }
    }
}

/// A finding of a rule on a file, with the lines that show it.
#[derive(Debug, Default, PartialEq, Eq)]
pub struct Diagnostic {
    pub path: String,
    pub rule: &'static str,
    pub severity: Severity,
    pub message: String,
    pub lines: Vec<DiagnosticLine>,
}

/// What a diagnostic holds.
pub struct DiagnosticView {
    pub path: Seq<char>,
    pub rule: Seq<char>,
    pub severity: Severity,
    pub message: Seq<char>,
    pub lines: Seq<DiagnosticLineView>,
}

/// What the lines of a diagnostic hold.
pub open spec fn lines_view(lines: Seq<DiagnosticLine>) -> Seq<DiagnosticLineView> {
    Seq::new(lines.len(), |i: int| lines[i]@)
}

/// What a list of diagnostics holds.
pub open spec fn diagnostics_view(diagnostics: Seq<Diagnostic>) -> Seq<DiagnosticView> {
    Seq::new(diagnostics.len(), |i: int| diagnostics[i]@)
}

impl View for Diagnostic {
    type V = DiagnosticView;

    open spec fn view(&self) -> DiagnosticView {
        DiagnosticView {
            path: self.path@,
            rule: self.rule@,
            severity: self.severity,
            message: self.message@,
            lines: lines_view(self.lines@),
        }
    }
}

/// The number of characters that start before the byte offset `pos`: the
/// index of the character at that offset.
pub open spec fn char_index(bytes: Seq<u8>, pos: int) -> nat
    decreases pos,
{
    if pos <= 0 {
        0
    } else if pos > bytes.len() {
        char_index(bytes, bytes.len() as int)
    } else if is_continuation_byte(bytes[pos - 1]) {
        char_index(bytes, pos - 1)
    } else {
        char_index(bytes, pos - 1) + 1
    }
}

/// The number of characters that start before an offset depends on the
/// bytes before that offset only.
pub proof fn lemma_char_index_prefix(a: Seq<u8>, b: Seq<u8>, pos: int)
    requires
        0 <= pos <= a.len(),
        pos <= b.len(),
        a.subrange(0, pos) == b.subrange(0, pos),
    ensures
        char_index(a, pos) == char_index(b, pos),
    decreases pos,
{
    if pos > 0 {
        assert(a.subrange(0, pos - 1) =~= a.subrange(0, pos).subrange(0, pos - 1));
        assert(b.subrange(0, pos - 1) =~= b.subrange(0, pos).subrange(0, pos - 1));
        assert(a[pos - 1] == a.subrange(0, pos)[pos - 1]);
        assert(b[pos - 1] == b.subrange(0, pos)[pos - 1]);
        lemma_char_index_prefix(a, b, pos - 1);
    }
}

/// Character indexes are what they are named: the number of characters
/// that start before the end of the UTF-8 bytes of a text is the number of
/// characters of the text.
pub proof fn lemma_char_index_counts_chars(text: Seq<char>)
    ensures
        char_index(encode_utf8(text), encode_utf8(text).len() as int) == text.len(),
    decreases text.len(),
{
    if text.len() == 0 {
    } else {
        let head = text.drop_last();
        let last = seq![text.last()];
        assert(text =~= head + last);
        crate::text::lemma_encode_concat(head, last);
        lemma_char_index_counts_chars(head);
        let a = encode_utf8(head);
        let b = encode_utf8(last);
        let whole = encode_utf8(text);
        assert(whole == a + b);
        encode_utf8_first_scalar(last);
        assert(last.drop_first() =~= Seq::<char>::empty());
        assert(encode_utf8(last.drop_first()) =~= Seq::<u8>::empty());
        assert(last[0] == text.last());
        assert(b =~= encode_scalar(text.last() as u32));
        let n = a.len() as int;
        let w = b.len() as int;
        assert(1 <= w <= 4);
        assert(whole.subrange(0, n) =~= a);
        assert(a.subrange(0, n) =~= a);
        lemma_char_index_prefix(whole, a, n);
        assert(whole[n] == b[0]);
        assert(!is_continuation_byte(b[0]));
        assert(char_index(whole, n + 1) == char_index(whole, n) + 1);
        if w >= 2 {
            assert(whole[n + 1] == b[1]);
            assert(char_index(whole, n + 2) == char_index(whole, n + 1));
        }
        if w >= 3 {
            assert(whole[n + 2] == b[2]);
            assert(char_index(whole, n + 3) == char_index(whole, n + 2));
        }
        if w >= 4 {
            assert(whole[n + 3] == b[3]);
            assert(char_index(whole, n + 4) == char_index(whole, n + 3));
        }
    }
}

/// Counts the characters that start before the byte offset `pos`.
pub fn count_chars_before(bytes: &[u8], pos: usize) -> (r: usize)
    ensures
        r == char_index(bytes@, pos as int),
{
    let end = if pos > bytes.len() {
        bytes.len()
    } else {
        pos
    };
    let mut count: usize = 0;
    let mut i: usize = 0;
    while i < end
        invariant
            i <= end <= bytes@.len(),
            count == char_index(bytes@, i as int),
            count <= i,
        decreases end - i,
    {
        proof {
            utf8_byte_ranges_bitwise(bytes@[i as int]);
        }
        if bytes[i] & 0xC0 != 0x80 {
            count += 1;
        }
        i += 1;
    }
    count
}

impl DiagnosticLine {
    /// The highlights as pairs of character indexes.
    pub open spec fn char_highlights_of(&self) -> Seq<(usize, usize)> {
        Seq::new(
            self.highlights@.len(),
            |i: int|
                (
                    char_index(encode_utf8(self.message@), self.highlights@[i].0 as int) as usize,
                    char_index(encode_utf8(self.message@), self.highlights@[i].1 as int) as usize,
                ),
        )
    }

    /// Returns the highlights as pairs of character indexes into the
    /// message, for output.
    pub fn char_highlights(&self) -> (r: Vec<(usize, usize)>)
        ensures
            r@ == self.char_highlights_of(),
    {
        let bytes = self.message.as_str().as_bytes();
        let mut r: Vec<(usize, usize)> = Vec::new();
        let mut i: usize = 0;
        while i < self.highlights.len()
            invariant
                bytes@ == encode_utf8(self.message@),
                i <= self.highlights@.len(),
                r@ == self.char_highlights_of().subrange(0, i as int),
            decreases self.highlights@.len() - i,
        {
            let (start, end) = self.highlights[i];
            r.push((count_chars_before(bytes, start), count_chars_before(bytes, end)));
            assert(r@ =~= self.char_highlights_of().subrange(0, i + 1));
            i += 1;
        }
        assert(r@ =~= self.char_highlights_of());
        r
    }
}

/// True when a highlight cuts a part out of a message: its ends are in
/// order, within the message, and on boundaries of characters.
pub open spec fn is_span(bytes: Seq<u8>, span: (usize, usize)) -> bool {
    &&& span.0 <= span.1 <= bytes.len()
    &&& is_char_boundary(bytes, span.0 as int)
    &&& is_char_boundary(bytes, span.1 as int)
}

/// A list of words with the parts of a message that the highlights from
/// the place `i` on cut out, each once, in the order of their bytes.
pub open spec fn with_highlighted(
    words: Seq<Seq<char>>,
    message: Seq<char>,
    highlights: Seq<(usize, usize)>,
    i: int,
) -> Seq<Seq<char>>
    decreases highlights.len() - i,
{
    if i < 0 || i >= highlights.len() {
        words
    } else if is_span(encode_utf8(message), highlights[i]) {
        with_highlighted(
            with_word(
                words,
                decode_utf8(
                    encode_utf8(message).subrange(highlights[i].0 as int, highlights[i].1 as int),
                ),
            ),
            message,
            highlights,
            i + 1,
        )
    } else {
        with_highlighted(words, message, highlights, i + 1)
    }
}

/// A list of words with the highlighted parts of the lines of a
/// diagnostic from the place `i` on.
pub open spec fn with_lines(words: Seq<Seq<char>>, lines: Seq<DiagnosticLineView>, i: int) -> Seq<
    Seq<char>,
>
    decreases lines.len() - i,
{
    if i < 0 || i >= lines.len() {
        words
    } else {
        with_lines(
            with_highlighted(words, lines[i].message, lines[i].highlights, 0),
            lines,
            i + 1,
        )
    }
}

impl DiagnosticLine {
    /// Adds to a list of words the parts of the message that are
    /// highlighted, each once, in the order of their bytes.
    pub fn add_highlighted(&self, words: &mut Vec<String>)
        ensures
            texts(final(words)@) == with_highlighted(
                texts(old(words)@),
                self.message@,
                self.highlights@,
                0,
            ),
    {
        let message = self.message.as_str();
        let bytes = message.as_bytes();
        let mut i: usize = 0;
        while i < self.highlights.len()
            invariant
                i <= self.highlights@.len(),
                message@ == self.message@,
                bytes@ == encode_utf8(self.message@),
                with_highlighted(texts(old(words)@), self.message@, self.highlights@, 0)
                    == with_highlighted(texts(words@), self.message@, self.highlights@, i as int),
            decreases self.highlights@.len() - i,
        {
            let (start, end) = self.highlights[i];
            if start <= end && end <= bytes.len() && message.is_char_boundary(start)
                && message.is_char_boundary(end) {
                let part = substr(message, start, end);
                proof {
                    encode_utf8_decode_utf8(part@);
                }
                insert_word(words, part);
            }
            i += 1;
        }
    }
}

impl Diagnostic {
    /// Adds to a list of words the highlighted parts of the lines of this
    /// diagnostic.
    pub fn add_highlighted(&self, words: &mut Vec<String>)
        ensures
            texts(final(words)@) == with_lines(texts(old(words)@), self@.lines, 0),
    {
        let mut i: usize = 0;
        while i < self.lines.len()
            invariant
                i <= self.lines@.len(),
                with_lines(texts(old(words)@), self@.lines, 0) == with_lines(
                    texts(words@),
                    self@.lines,
                    i as int,
                ),
            decreases self.lines@.len() - i,
        {
            assert(self@.lines[i as int] == self.lines@[i as int]@);
            self.lines[i].add_highlighted(words);
            i += 1;
        }
    }

    /// Creates a diagnostic without lines.
    pub fn new(path: &str, rule: &'static str, severity: Severity, message: String) -> (r: Self)
        ensures
            r@ == (DiagnosticView {
                path: path@,
                rule: rule@,
                severity,
                message: message@,
                lines: Seq::empty(),
            }),
    {
        let r = Diagnostic { path: path.to_owned(), rule, severity, message, lines: Vec::new() };
        assert(r@.lines =~= Seq::empty());
        r
    }

    /// Adds a line of context with its highlights.
    pub fn add_message(&mut self, line: usize, message: &str, highlights: &[(usize, usize)])
        ensures
            final(self)@ == (DiagnosticView {
                lines: old(self)@.lines.push(
                    DiagnosticLineView {
                        line_number: line,
                        message: message@,
                        highlights: highlights@,
                    },
                ),
                ..old(self)@
            }),
    {
        let ghost before = lines_view(self.lines@);
        self.lines.push(
            DiagnosticLine {
                line_number: line,
                message: message.to_owned(),
                highlights: slice_to_vec(highlights),
            },
        );
        assert(lines_view(self.lines@) =~= before.push(
            DiagnosticLineView { line_number: line, message: message@, highlights: highlights@ },
        ));
    }
}

} // verus!
