//! Implementation of the rules on punctuation at the start and at the end
//! of a string:
//!
//! - `punc-start`: punctuation at the beginning of the string
//! - `punc-end`: punctuation at the end of the string

use vstd::prelude::*;
use vstd::std_specs::iter::IteratorSpec;
use vstd::string::*;
use vstd::utf8::*;

use crate::checker::{Checker, Scene};
use crate::diagnostic::{DiagnosticView, Severity};
use crate::po::entry::{Entry, EntryView};
use crate::rules::common::{part_findings, report_parts};
use crate::rules::rule::RuleChecker;
use crate::rules::whitespace::is_blank_char;
use crate::text::{
    char_at, char_width, left, lemma_boundary_step, lemma_prev_boundary,
    lemma_prev_boundary_bounds, lemma_width_at, prev_boundary, read_char, step_back, str_eq,
    substr, trimmed, width_at,
};

verus! {

/// True for a punctuation mark: a colon, a semicolon, a full stop, an
/// ellipsis, a comma, an exclamation mark or a question mark, of the Latin,
/// the full-width or the Arabic script.
pub open spec fn is_punctuation(c: char) -> bool {
    c == ':' || c == '\u{FF1A}' || c == ';' || c == '\u{FF1B}' || c == '\u{061B}' || c == '.' || c
        == '\u{3002}' || c == '\u{2026}' || c == ',' || c == '\u{FF0C}' || c == '\u{060C}' || c
        == '!' || c == '\u{FF01}' || c == '?' || c == '\u{FF1F}' || c == '\u{061F}'
}

/// Tells whether a character is a punctuation mark.
pub fn is_punc(c: char) -> (r: bool)
    ensures
        r == is_punctuation(c),
{
    c == ':' || c == '\u{FF1A}' || c == ';' || c == '\u{FF1B}' || c == '\u{061B}' || c == '.' || c
        == '\u{3002}' || c == '\u{2026}' || c == ',' || c == '\u{FF0C}' || c == '\u{060C}' || c
        == '!' || c == '\u{FF01}' || c == '?' || c == '\u{FF1F}' || c == '\u{061F}'
}

/// The end of the punctuation that starts at `pos`: punctuation marks,
/// after white space where no mark has been read yet (`ended` is false). A
/// line feed, white space after a mark, or another character ends it.
pub open spec fn punc_start_end(bytes: Seq<u8>, pos: int, ended: bool) -> int
    decreases left(bytes, pos),
    via punc_start_end_decreases
{
    if pos < 0 || pos >= bytes.len() {
        pos
    } else if is_punctuation(char_at(bytes, pos)) {
        punc_start_end(bytes, pos + width_at(bytes, pos), true)
    } else if is_blank_char(char_at(bytes, pos)) && !ended {
        punc_start_end(bytes, pos + width_at(bytes, pos), ended)
    } else {
        pos
    }
}

#[via_fn]
proof fn punc_start_end_decreases(bytes: Seq<u8>, pos: int, ended: bool) {
    lemma_width_at(bytes, pos);
}

/// The start of the punctuation that ends at `pos`, read backwards:
/// punctuation marks, before white space where no mark has been read yet.
pub open spec fn punc_end_start(bytes: Seq<u8>, pos: int, ended: bool) -> int
    decreases pos,
    via punc_end_start_decreases
{
    if pos <= 0 || pos > bytes.len() {
        pos
    } else if is_punctuation(char_at(bytes, prev_boundary(bytes, pos))) {
        punc_end_start(bytes, prev_boundary(bytes, pos), true)
    } else if is_blank_char(char_at(bytes, prev_boundary(bytes, pos))) && !ended {
        punc_end_start(bytes, prev_boundary(bytes, pos), ended)
    } else {
        pos
    }
}

#[via_fn]
proof fn punc_end_start_decreases(bytes: Seq<u8>, pos: int, ended: bool) {
    if pos > 0 {
        lemma_prev_boundary_bounds(bytes, pos);
    }
}

/// The punctuation at the start of a text.
pub open spec fn leading_punc(s: Seq<char>) -> Seq<u8> {
    encode_utf8(s).subrange(0, punc_start_end(encode_utf8(s), 0, false))
}

/// The punctuation at the end of a text.
pub open spec fn trailing_punc(s: Seq<char>) -> Seq<u8> {
    encode_utf8(s).subrange(
        punc_end_start(encode_utf8(s), encode_utf8(s).len() as int, false),
        encode_utf8(s).len() as int,
    )
}

/// Returns the punctuation at the start of a string, with the white space
/// before it.
pub fn get_punc_start(s: &str) -> (r: &str)
    ensures
        r.spec_bytes() == leading_punc(s@),
        0 <= punc_start_end(s.spec_bytes(), 0, false) <= s.spec_bytes().len(),
{
    let bytes = s.as_bytes();
    proof {
        encode_utf8_valid_utf8(s@);
    }
    let mut whitespace_ended = false;
    let mut pos: usize = 0;
    while pos < bytes.len()
        invariant
            bytes@ == s.spec_bytes(),
            valid_utf8(bytes@),
            pos <= bytes@.len(),
            is_char_boundary(bytes@, pos as int),
            punc_start_end(bytes@, 0, false) == punc_start_end(
                bytes@,
                pos as int,
                whitespace_ended,
            ),
        ensures
            pos <= bytes@.len(),
            is_char_boundary(bytes@, pos as int),
            pos == punc_start_end(bytes@, 0, false),
        decreases bytes@.len() - pos,
    {
        let c = read_char(s, pos);
        proof {
            lemma_boundary_step(bytes@, pos as int);
        }
        if is_punc(c) {
            whitespace_ended = true;
            pos += char_width(c);
        } else if c.is_whitespace() && c != '\n' && !whitespace_ended {
            pos += char_width(c);
        } else {
            break;
        }
    }
    substr(s, 0, pos)
}

/// Returns the punctuation at the end of a string, with the white space
/// after it.
pub fn get_punc_end(s: &str) -> (r: &str)
    ensures
        r.spec_bytes() == trailing_punc(s@),
        0 <= punc_end_start(s.spec_bytes(), s.spec_bytes().len() as int, false)
            <= s.spec_bytes().len(),
{
    let bytes = s.as_bytes();
    proof {
        encode_utf8_valid_utf8(s@);
        is_char_boundary_start_end_of_seq(bytes@);
    }
    let mut whitespace_ended = false;
    let mut pos: usize = bytes.len();
    while pos > 0
        invariant
            bytes@ == s.spec_bytes(),
            valid_utf8(bytes@),
            pos <= bytes@.len(),
            is_char_boundary(bytes@, pos as int),
            is_char_boundary(bytes@, bytes@.len() as int),
            punc_end_start(bytes@, bytes@.len() as int, false) == punc_end_start(
                bytes@,
                pos as int,
                whitespace_ended,
            ),
        ensures
            pos <= bytes@.len(),
            is_char_boundary(bytes@, pos as int),
            is_char_boundary(bytes@, bytes@.len() as int),
            pos == punc_end_start(bytes@, bytes@.len() as int, false),
        decreases pos,
    {
        let before = step_back(bytes, pos);
        proof {
            lemma_prev_boundary(bytes@, pos as int);
        }
        let c = read_char(s, before);
        if is_punc(c) {
            whitespace_ended = true;
            pos = before;
        } else if c.is_whitespace() && c != '\n' && !whitespace_ended {
            pos = before;
        } else {
            break;
        }
    }
    substr(s, pos, bytes.len())
}

/// The mark that stands for `c` when punctuation is compared: full-width
/// and Arabic marks give the Latin ones, and in Greek a question mark
/// gives a semicolon.
pub open spec fn normalized_char(c: char, greek: bool) -> char {
    if c == '?' && greek {
        ';'
    } else if c == '\u{FF1A}' {
        ':'
    } else if c == '\u{FF1B}' || c == '\u{061B}' {
        ';'
    } else if c == '\u{3002}' {
        '.'
    } else if c == '\u{FF0C}' || c == '\u{060C}' {
        ','
    } else if c == '\u{FF01}' {
        '!'
    } else if c == '\u{FF1F}' || c == '\u{061F}' {
        '?'
    } else {
        c
    }
}

/// A text with each run of three full stops replaced by an ellipsis, from
/// left to right.
pub open spec fn ellipsis_joined(s: Seq<char>) -> Seq<char>
    decreases s.len(),
{
    if s.len() == 0 {
        Seq::empty()
    } else if s.len() >= 3 && s[0] == '.' && s[1] == '.' && s[2] == '.' {
        seq!['\u{2026}'] + ellipsis_joined(s.subrange(3, s.len() as int))
    } else {
        seq![s[0]] + ellipsis_joined(s.drop_first())
    }
}

/// The punctuation `s` as it is compared in the given language.
pub open spec fn punc_normalized(s: Seq<char>, language: Seq<char>) -> Seq<char> {
    ellipsis_joined(Seq::new(s.len(), |i: int| normalized_char(s[i], language == "el"@)))
}

/// Returns the punctuation `s` as it is compared in the given language.
pub fn punc_normalize(s: &str, language: &str) -> (r: String)
    ensures
        r@ == punc_normalized(s@, language@),
{
    let greek = str_eq(language, "el");
    let ghost marks = Seq::new(s@.len(), |i: int| normalized_char(s@[i], greek));
    let mut chars: Vec<char> = Vec::new();
    let mut it = s.chars();
    let ghost n: int = 0;
    loop
        invariant_except_break
            0 <= n <= s@.len(),
            it.remaining() == s@.subrange(n, s@.len() as int),
            chars@ == marks.subrange(0, n),
            marks == Seq::new(s@.len(), |i: int| normalized_char(s@[i], greek)),
        ensures
            chars@ == marks,
        decreases s@.len() - n,
    {
        match it.next() {
            Some(c) => {
                assert(c == s@[n]);
                let mark = if c == '?' && greek {
                    ';'
                } else if c == '\u{FF1A}' {
                    ':'
                } else if c == '\u{FF1B}' || c == '\u{061B}' {
                    ';'
                } else if c == '\u{3002}' {
                    '.'
                } else if c == '\u{FF0C}' || c == '\u{060C}' {
                    ','
                } else if c == '\u{FF01}' {
                    '!'
                } else if c == '\u{FF1F}' || c == '\u{061F}' {
                    '?'
                } else {
                    c
                };
                chars.push(mark);
                proof {
                    assert(s@.subrange(n, s@.len() as int).drop_first() =~= s@.subrange(
                        n + 1,
                        s@.len() as int,
                    ));
                    assert(chars@ =~= marks.subrange(0, n + 1));
                    n = n + 1;
                }
            },
            None => {
                assert(s@.subrange(n, s@.len() as int).len() == 0);
                assert(chars@ =~= marks);
                break;
            },
        }
    }
    let mut out = String::new();
    let mut i: usize = 0;
    assert(marks.subrange(0, marks.len() as int) =~= marks);
    while i < chars.len()
        invariant
            i <= chars@.len(),
            chars@ == marks,
            ellipsis_joined(marks) == out@ + ellipsis_joined(
                marks.subrange(i as int, marks.len() as int),
            ),
        decreases chars@.len() - i,
    {
        let ghost rest = marks.subrange(i as int, marks.len() as int);
        let ghost before = out@;
        if chars.len() - i >= 3 && chars[i] == '.' && chars[i + 1] == '.' && chars[i + 2] == '.' {
            out.push('\u{2026}');
            proof {
                assert(rest.subrange(3, rest.len() as int) =~= marks.subrange(
                    i + 3,
                    marks.len() as int,
                ));
                assert(out@ + ellipsis_joined(rest.subrange(3, rest.len() as int)) =~= before
                    + ellipsis_joined(rest));
            }
            i += 3;
        } else {
            out.push(chars[i]);
            proof {
                assert(rest.drop_first() =~= marks.subrange(i + 1, marks.len() as int));
                assert(out@ + ellipsis_joined(rest.drop_first()) =~= before + ellipsis_joined(
                    rest,
                ));
            }
            i += 1;
        }
    }
    assert(out@ + Seq::<char>::empty() =~= out@);
    out
}

/// Tells whether a string starts with the character `c`.
fn first_char_is(s: &str, c: char) -> (r: bool)
    ensures
        r == (s@.len() > 0 && s@[0] == c),
{
    let mut it = s.chars();
    match it.next() {
        Some(first) => first == c,
        None => false,
    }
}

/// The punctuation at the start of a text, as it is compared.
pub open spec fn compared_leading_punc(s: Seq<char>, language: Seq<char>) -> Seq<char> {
    punc_normalized(trimmed(decode_utf8(leading_punc(s))), language)
}

/// The punctuation at the end of a text, as it is compared.
pub open spec fn compared_trailing_punc(s: Seq<char>, language: Seq<char>) -> Seq<char> {
    punc_normalized(trimmed(decode_utf8(trailing_punc(s))), language)
}

/// The rule `punc-start`: punctuation at the start that differs.
#[derive(Clone, Copy, Debug)]
pub struct PuncStartRule;

impl RuleChecker for PuncStartRule {
    open spec fn label(&self) -> Seq<char> {
        "punc-start"@
    }

    open spec fn default_on(&self) -> bool {
        true
    }

    open spec fn checks(&self) -> bool {
        true
    }

    open spec fn level(&self) -> Severity {
        Severity::Info
    }

    open spec fn entry_findings(&self, scene: Scene, entry: EntryView) -> Seq<DiagnosticView> {
        Seq::empty()
    }

    open spec fn ctxt_findings(&self, scene: Scene, entry: EntryView, msgctxt: Seq<char>) -> Seq<
        DiagnosticView,
    > {
        Seq::empty()
    }

    /// Punctuation at the start that differs, once it is brought to the
    /// marks that are compared, is reported as `inconsistent leading
    /// punctuation ('...' / '...')`. Nothing is reported where one of the two
    /// starts with a full stop, as a file extension does.
    open spec fn msg_findings(
        &self,
        scene: Scene,
        entry: EntryView,
        msgid: Seq<char>,
        msgstr: Seq<char>,
    ) -> Seq<DiagnosticView> {
        let id_punc = compared_leading_punc(msgid, scene.language_code);
        let str_punc = compared_leading_punc(msgstr, scene.language_code);
        if (id_punc.len() > 0 && id_punc[0] == '.') || (str_punc.len() > 0 && str_punc[0] == '.') {
            Seq::empty()
        } else {
            part_findings(
                scene.stamp,
                "inconsistent leading punctuation"@,
                msgid,
                id_punc,
                (0usize, leading_punc(msgid).len() as usize),
                msgstr,
                str_punc,
                (0usize, leading_punc(msgstr).len() as usize),
            )
        }
    }

    fn name(&self) -> (r: &'static str) {
        "punc-start"
    }

    fn is_default(&self) -> (r: bool) {
        true
    }

    fn is_check(&self) -> (r: bool) {
        true
    }

    fn severity(&self) -> (r: Severity) {
        Severity::Info
    }

    fn check_entry(&self, checker: &mut Checker, entry: &Entry) {
    }

    fn check_ctxt(&self, checker: &mut Checker, entry: &Entry, msgctxt: &str) {
    }

    fn check_msg(&self, checker: &mut Checker, entry: &Entry, msgid: &str, msgstr: &str) {
        let id_punc = get_punc_start(msgid);
        let str_punc = get_punc_start(msgstr);
        proof {
            encode_utf8_decode_utf8(id_punc@);
            encode_utf8_decode_utf8(str_punc@);
        }
        let id_punc2 = punc_normalize(id_punc.trim(), checker.language_code());
        let str_punc2 = punc_normalize(str_punc.trim(), checker.language_code());
        if first_char_is(id_punc2.as_str(), '.') || first_char_is(str_punc2.as_str(), '.') {
            // Leading dots are often a file extension, and the translation
            // may change the order of the words.
            return;
        }
        report_parts(
            checker,
            entry,
            "inconsistent leading punctuation",
            msgid,
            id_punc2.as_str(),
            (0, id_punc.as_bytes().len()),
            msgstr,
            str_punc2.as_str(),
            (0, str_punc.as_bytes().len()),
        );
    }
}

/// The rule `punc-end`: punctuation at the end that differs.
#[derive(Clone, Copy, Debug)]
pub struct PuncEndRule;

impl RuleChecker for PuncEndRule {
    open spec fn label(&self) -> Seq<char> {
        "punc-end"@
    }

    open spec fn default_on(&self) -> bool {
        true
    }

    open spec fn checks(&self) -> bool {
        true
    }

    open spec fn level(&self) -> Severity {
        Severity::Info
    }

    open spec fn entry_findings(&self, scene: Scene, entry: EntryView) -> Seq<DiagnosticView> {
        Seq::empty()
    }

    open spec fn ctxt_findings(&self, scene: Scene, entry: EntryView, msgctxt: Seq<char>) -> Seq<
        DiagnosticView,
    > {
        Seq::empty()
    }

    /// Punctuation at the end that differs, once it is brought to the marks
    /// that are compared, is reported as `inconsistent trailing punctuation
    /// ('...' / '...')`.
    open spec fn msg_findings(
        &self,
        scene: Scene,
        entry: EntryView,
        msgid: Seq<char>,
        msgstr: Seq<char>,
    ) -> Seq<DiagnosticView> {
        part_findings(
            scene.stamp,
            "inconsistent trailing punctuation"@,
            msgid,
            compared_trailing_punc(msgid, scene.language_code),
            (
                (encode_utf8(msgid).len() - trailing_punc(msgid).len()) as usize,
                encode_utf8(msgid).len() as usize,
            ),
            msgstr,
            compared_trailing_punc(msgstr, scene.language_code),
            (
                (encode_utf8(msgstr).len() - trailing_punc(msgstr).len()) as usize,
                encode_utf8(msgstr).len() as usize,
            ),
        )
    }

    fn name(&self) -> (r: &'static str) {
        "punc-end"
    }

    fn is_default(&self) -> (r: bool) {
        true
    }

    fn is_check(&self) -> (r: bool) {
        true
    }

    fn severity(&self) -> (r: Severity) {
        Severity::Info
    }

    fn check_entry(&self, checker: &mut Checker, entry: &Entry) {
    }

    fn check_ctxt(&self, checker: &mut Checker, entry: &Entry, msgctxt: &str) {
    }

    fn check_msg(&self, checker: &mut Checker, entry: &Entry, msgid: &str, msgstr: &str) {
        let id_punc = get_punc_end(msgid);
        let str_punc = get_punc_end(msgstr);
        proof {
            encode_utf8_decode_utf8(id_punc@);
            encode_utf8_decode_utf8(str_punc@);
        }
        let id_punc2 = punc_normalize(id_punc.trim(), checker.language_code());
        let str_punc2 = punc_normalize(str_punc.trim(), checker.language_code());
        let id_len = msgid.as_bytes().len();
        let str_len = msgstr.as_bytes().len();
        report_parts(
            checker,
            entry,
            "inconsistent trailing punctuation",
            msgid,
            id_punc2.as_str(),
            (id_len - id_punc.as_bytes().len(), id_len),
            msgstr,
            str_punc2.as_str(),
            (str_len - str_punc.as_bytes().len(), str_len),
        );
    }
}

} // verus!
