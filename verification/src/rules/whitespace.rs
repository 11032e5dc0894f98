//! Implementation of the rules on white space at the start and at the end
//! of a string:
//!
//! - `whitespace-start`: white space at the beginning of the string
//! - `whitespace-end`: white space at the end of the string

use vstd::prelude::*;
use vstd::string::*;
use vstd::utf8::*;

use crate::checker::{Checker, Scene};
use crate::diagnostic::{DiagnosticView, Severity};
use crate::po::entry::{Entry, EntryView};
use crate::rules::rule::RuleChecker;
use crate::rules::common::{part_findings, report_parts};
use crate::text::{
    char_at, char_width, left, lemma_boundary_step, lemma_prev_boundary, lemma_prev_boundary_bounds,
    lemma_width_at, prev_boundary, read_char, step_back, substr, trimmed, unicode_whitespace,
    width_at,
};

verus! {

/// True for white space other than a line feed.
pub open spec fn is_blank_char(c: char) -> bool {
    unicode_whitespace(c) && c != '\n'
}

/// The end of the white space that starts at `pos`: the position of the
/// first character from `pos` on that is a line feed or no white space.
pub open spec fn whitespace_start_end(bytes: Seq<u8>, pos: int) -> int
    decreases left(bytes, pos),
    via whitespace_start_end_decreases
{
    if pos < 0 || pos >= bytes.len() {
        pos
    } else if is_blank_char(char_at(bytes, pos)) {
        whitespace_start_end(bytes, pos + width_at(bytes, pos))
    } else {
        pos
    }
}

#[via_fn]
proof fn whitespace_start_end_decreases(bytes: Seq<u8>, pos: int) {
    lemma_width_at(bytes, pos);
}

/// The start of the white space that ends at `pos`: the position after
/// the last character before `pos` that is a line feed or no white space.
pub open spec fn whitespace_end_start(bytes: Seq<u8>, pos: int) -> int
    decreases pos,
    via whitespace_end_start_decreases
{
    if pos <= 0 || pos > bytes.len() {
        pos
    } else if is_blank_char(char_at(bytes, prev_boundary(bytes, pos))) {
        whitespace_end_start(bytes, prev_boundary(bytes, pos))
    } else {
        pos
    }
}

#[via_fn]
proof fn whitespace_end_start_decreases(bytes: Seq<u8>, pos: int) {
    if pos > 0 {
        lemma_prev_boundary_bounds(bytes, pos);
    }
}

/// The white space at the start of a text.
pub open spec fn leading_whitespace(s: Seq<char>) -> Seq<u8> {
    encode_utf8(s).subrange(0, whitespace_start_end(encode_utf8(s), 0))
}

/// The white space at the end of a text.
pub open spec fn trailing_whitespace(s: Seq<char>) -> Seq<u8> {
    encode_utf8(s).subrange(
        whitespace_end_start(encode_utf8(s), encode_utf8(s).len() as int),
        encode_utf8(s).len() as int,
    )
}

/// Returns the white space at the start of a string, up to a line feed.
pub fn get_whitespace_start(value: &str) -> (r: &str)
    ensures
        r.spec_bytes() == leading_whitespace(value@),
        0 <= whitespace_start_end(value.spec_bytes(), 0) <= value.spec_bytes().len(),
{
    let bytes = value.as_bytes();
    proof {
        encode_utf8_valid_utf8(value@);
    }
    let mut pos: usize = 0;
    while pos < bytes.len()
        invariant
            bytes@ == value.spec_bytes(),
            valid_utf8(bytes@),
            pos <= bytes@.len(),
            is_char_boundary(bytes@, pos as int),
            whitespace_start_end(bytes@, 0) == whitespace_start_end(bytes@, pos as int),
        ensures
            pos <= bytes@.len(),
            is_char_boundary(bytes@, pos as int),
            pos == whitespace_start_end(bytes@, 0),
        decreases bytes@.len() - pos,
    {
        let c = read_char(value, pos);
        proof {
            lemma_boundary_step(bytes@, pos as int);
        }
        if c.is_whitespace() && c != '\n' {
            pos += char_width(c);
        } else {
            break;
        }
    }
    substr(value, 0, pos)
}

/// Returns the white space at the end of a string, back to a line feed.
pub fn get_whitespace_end(value: &str) -> (r: &str)
    ensures
        r.spec_bytes() == trailing_whitespace(value@),
        0 <= whitespace_end_start(value.spec_bytes(), value.spec_bytes().len() as int)
            <= value.spec_bytes().len(),
{
    let bytes = value.as_bytes();
    proof {
        encode_utf8_valid_utf8(value@);
        is_char_boundary_start_end_of_seq(bytes@);
    }
    let mut pos: usize = bytes.len();
    while pos > 0
        invariant
            bytes@ == value.spec_bytes(),
            valid_utf8(bytes@),
            pos <= bytes@.len(),
            is_char_boundary(bytes@, pos as int),
            is_char_boundary(bytes@, bytes@.len() as int),
            whitespace_end_start(bytes@, bytes@.len() as int) == whitespace_end_start(
                bytes@,
                pos as int,
            ),
        ensures
            pos <= bytes@.len(),
            is_char_boundary(bytes@, pos as int),
            is_char_boundary(bytes@, bytes@.len() as int),
            pos == whitespace_end_start(bytes@, bytes@.len() as int),
        decreases pos,
    {
        let before = step_back(bytes, pos);
        proof {
            lemma_prev_boundary(bytes@, pos as int);
        }
        let c = read_char(value, before);
        if c.is_whitespace() && c != '\n' {
            pos = before;
        } else {
            break;
        }
    }
    substr(value, pos, bytes.len())
}

/// The rule `whitespace-start`: white space at the start that differs.
#[derive(Clone, Copy, Debug)]
pub struct WhitespaceStartRule;

impl RuleChecker for WhitespaceStartRule {
    open spec fn label(&self) -> Seq<char> {
        "whitespace-start"@
    }

    open spec fn default_on(&self) -> bool {
        true
    }

    open spec fn checks(&self) -> bool {
        true
    }

    open spec fn level(&self) -> Severity {
        Severity::Info
    }

    open spec fn entry_findings(&self, scene: Scene, entry: EntryView) -> Seq<DiagnosticView> {
        Seq::empty()
    }

    open spec fn ctxt_findings(&self, scene: Scene, entry: EntryView, msgctxt: Seq<char>) -> Seq<
        DiagnosticView,
    > {
        Seq::empty()
    }

    /// Where neither the source nor the translation is blank, white space at
    /// the start that differs is reported as `inconsistent leading whitespace
    /// ('...' / '...')`, the white space highlighted.
    open spec fn msg_findings(
        &self,
        scene: Scene,
        entry: EntryView,
        msgid: Seq<char>,
        msgstr: Seq<char>,
    ) -> Seq<DiagnosticView> {
        if trimmed(msgid).len() == 0 || trimmed(msgstr).len() == 0 {
            Seq::empty()
        } else {
            part_findings(
                scene.stamp,
                "inconsistent leading whitespace"@,
                msgid,
                decode_utf8(leading_whitespace(msgid)),
                (0usize, leading_whitespace(msgid).len() as usize),
                msgstr,
                decode_utf8(leading_whitespace(msgstr)),
                (0usize, leading_whitespace(msgstr).len() as usize),
            )
        }
    }

    fn name(&self) -> (r: &'static str) {
        "whitespace-start"
    }

    fn is_default(&self) -> (r: bool) {
        true
    }

    fn is_check(&self) -> (r: bool) {
        true
    }

    fn severity(&self) -> (r: Severity) {
        Severity::Info
    }

    fn check_entry(&self, checker: &mut Checker, entry: &Entry) {
    }

    fn check_ctxt(&self, checker: &mut Checker, entry: &Entry, msgctxt: &str) {
    }

    fn check_msg(&self, checker: &mut Checker, entry: &Entry, msgid: &str, msgstr: &str) {
        if msgid.trim().is_empty() || msgstr.trim().is_empty() {
            return;
        }
        let id_ws = get_whitespace_start(msgid);
        let str_ws = get_whitespace_start(msgstr);
        proof {
            encode_utf8_decode_utf8(id_ws@);
            encode_utf8_decode_utf8(str_ws@);
        }
        report_parts(
            checker,
            entry,
            "inconsistent leading whitespace",
            msgid,
            id_ws,
            (0, id_ws.as_bytes().len()),
            msgstr,
            str_ws,
            (0, str_ws.as_bytes().len()),
        );
    }
}

/// The rule `whitespace-end`: white space at the end that differs.
#[derive(Clone, Copy, Debug)]
pub struct WhitespaceEndRule;

impl RuleChecker for WhitespaceEndRule {
    open spec fn label(&self) -> Seq<char> {
        "whitespace-end"@
    }

    open spec fn default_on(&self) -> bool {
        true
    }

    open spec fn checks(&self) -> bool {
        true
    }

    open spec fn level(&self) -> Severity {
        Severity::Info
    }

    open spec fn entry_findings(&self, scene: Scene, entry: EntryView) -> Seq<DiagnosticView> {
        Seq::empty()
    }

    open spec fn ctxt_findings(&self, scene: Scene, entry: EntryView, msgctxt: Seq<char>) -> Seq<
        DiagnosticView,
    > {
        Seq::empty()
    }

    /// Where neither the source nor the translation is blank, white space at
    /// the end that differs is reported as `inconsistent trailing whitespace
    /// ('...' / '...')`, the white space highlighted.
    open spec fn msg_findings(
        &self,
        scene: Scene,
        entry: EntryView,
        msgid: Seq<char>,
        msgstr: Seq<char>,
    ) -> Seq<DiagnosticView> {
        if trimmed(msgid).len() == 0 || trimmed(msgstr).len() == 0 {
            Seq::empty()
        } else {
            part_findings(
                scene.stamp,
                "inconsistent trailing whitespace"@,
                msgid,
                decode_utf8(trailing_whitespace(msgid)),
                (
                    (encode_utf8(msgid).len() - trailing_whitespace(msgid).len()) as usize,
                    encode_utf8(msgid).len() as usize,
                ),
                msgstr,
                decode_utf8(trailing_whitespace(msgstr)),
                (
                    (encode_utf8(msgstr).len() - trailing_whitespace(msgstr).len()) as usize,
                    encode_utf8(msgstr).len() as usize,
                ),
            )
        }
    }

    fn name(&self) -> (r: &'static str) {
        "whitespace-end"
    }

    fn is_default(&self) -> (r: bool) {
        true
    }

    fn is_check(&self) -> (r: bool) {
        true
    }

    fn severity(&self) -> (r: Severity) {
        Severity::Info
    }

    fn check_entry(&self, checker: &mut Checker, entry: &Entry) {
    }

    fn check_ctxt(&self, checker: &mut Checker, entry: &Entry, msgctxt: &str) {
    }

    fn check_msg(&self, checker: &mut Checker, entry: &Entry, msgid: &str, msgstr: &str) {
        if msgid.trim().is_empty() || msgstr.trim().is_empty() {
            return;
        }
        let id_ws = get_whitespace_end(msgid);
        let str_ws = get_whitespace_end(msgstr);
        proof {
            encode_utf8_decode_utf8(id_ws@);
            encode_utf8_decode_utf8(str_ws@);
        }
        let id_len = msgid.as_bytes().len();
        let str_len = msgstr.as_bytes().len();
        report_parts(
            checker,
            entry,
            "inconsistent trailing whitespace",
            msgid,
            id_ws,
            (id_len - id_ws.as_bytes().len(), id_len),
            msgstr,
            str_ws,
            (str_len - str_ws.as_bytes().len(), str_len),
        );
    }
}

} // verus!
