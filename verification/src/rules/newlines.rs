//! Implementation of the `newlines` rule: check missing/extra carriage returns and line feeds.

use vstd::prelude::*;
use vstd::string::*;
use vstd::utf8::*;

use crate::checker::{msg_diagnostic, Checker, Scene, Stamp};
use crate::diagnostic::{DiagnosticView, Severity};
use crate::po::entry::{Entry, EntryView};
use crate::rules::rule::RuleChecker;
use crate::ascii;
use crate::rules::common::{concat, count_findings, find_matches, matches_of, report_counts};

verus! {

/// True when `bytes` starts with the byte `b`.
pub open spec fn starts_with_byte(bytes: Seq<u8>, b: u8) -> bool {
    bytes.len() > 0 && bytes[0] == b
}

/// True when `bytes` ends with the byte `b`.
pub open spec fn ends_with_byte(bytes: Seq<u8>, b: u8) -> bool {
    bytes.len() > 0 && bytes[bytes.len() - 1] == b
}

/// What is reported on something that one of the source and the
/// translation has and the other has not: `missing ...` where only the
/// source has it, `extra ...` where only the translation has it.
pub open spec fn presence_findings(
    stamp: Stamp,
    what: Seq<char>,
    msgid: Seq<char>,
    id_has: bool,
    msgstr: Seq<char>,
    str_has: bool,
) -> Seq<DiagnosticView> {
    if id_has && !str_has {
        seq![msg_diagnostic(stamp, "missing "@ + what, msgid, Seq::empty(), msgstr, Seq::empty())]
    } else if !id_has && str_has {
        seq![msg_diagnostic(stamp, "extra "@ + what, msgid, Seq::empty(), msgstr, Seq::empty())]
    } else {
        Seq::empty()
    }
}

/// Reports something that one of the source and the translation has and
/// the other has not.
fn report_presence(
    checker: &mut Checker,
    entry: &Entry,
    what: &str,
    msgid: &str,
    id_has: bool,
    msgstr: &str,
    str_has: bool,
)
    ensures
        final(checker).reported(
            old(checker),
            presence_findings(old(checker).scene().stamp, what@, msgid@, id_has, msgstr@, str_has),
        ),
{
    let none: Vec<(usize, usize)> = Vec::new();
    if id_has && !str_has {
        checker.report_msg(
            entry,
            concat("missing ", what),
            msgid,
            none.as_slice(),
            msgstr,
            none.as_slice(),
        );
    } else if !id_has && str_has {
        checker.report_msg(
            entry,
            concat("extra ", what),
            msgid,
            none.as_slice(),
            msgstr,
            none.as_slice(),
        );
    }
}

/// What is reported on the numbers of carriage returns and of line feeds.
pub open spec fn count_newline_findings(stamp: Stamp, msgid: Seq<char>, msgstr: Seq<char>) -> Seq<
    DiagnosticView,
> {
    count_findings(
        stamp,
        "carriage returns '\\r'"@,
        msgid,
        matches_of(encode_utf8(msgid), encode_utf8("\r"@), 0).len(),
        Seq::empty(),
        msgstr,
        matches_of(encode_utf8(msgstr), encode_utf8("\r"@), 0).len(),
        Seq::empty(),
    ) + count_findings(
        stamp,
        "line feeds '\\n'"@,
        msgid,
        matches_of(encode_utf8(msgid), encode_utf8("\n"@), 0).len(),
        Seq::empty(),
        msgstr,
        matches_of(encode_utf8(msgstr), encode_utf8("\n"@), 0).len(),
        Seq::empty(),
    )
}

/// What is reported on a carriage return and on a line feed at the
/// beginning.
pub open spec fn beginning_findings(stamp: Stamp, msgid: Seq<char>, msgstr: Seq<char>) -> Seq<
    DiagnosticView,
> {
    presence_findings(
        stamp,
        "carriage return '\\r' at the beginning"@,
        msgid,
        starts_with_byte(encode_utf8(msgid), ascii::CR),
        msgstr,
        starts_with_byte(encode_utf8(msgstr), ascii::CR),
    ) + presence_findings(
        stamp,
        "line feed '\\n' at the beginning"@,
        msgid,
        starts_with_byte(encode_utf8(msgid), ascii::LF),
        msgstr,
        starts_with_byte(encode_utf8(msgstr), ascii::LF),
    )
}

/// What is reported on a carriage return and on a line feed at the end.
pub open spec fn end_findings(stamp: Stamp, msgid: Seq<char>, msgstr: Seq<char>) -> Seq<
    DiagnosticView,
> {
    presence_findings(
        stamp,
        "carriage return '\\r' at the end"@,
        msgid,
        ends_with_byte(encode_utf8(msgid), ascii::CR),
        msgstr,
        ends_with_byte(encode_utf8(msgstr), ascii::CR),
    ) + presence_findings(
        stamp,
        "line feed '\\n' at the end"@,
        msgid,
        ends_with_byte(encode_utf8(msgid), ascii::LF),
        msgstr,
        ends_with_byte(encode_utf8(msgstr), ascii::LF),
    )
}

/// Tells whether a string starts with the byte `b`.
fn first_is(s: &str, b: u8) -> (r: bool)
    ensures
        r == starts_with_byte(s.spec_bytes(), b),
{
    let bytes = s.as_bytes();
    bytes.len() > 0 && bytes[0] == b
}

/// Tells whether a string ends with the byte `b`.
fn last_is(s: &str, b: u8) -> (r: bool)
    ensures
        r == ends_with_byte(s.spec_bytes(), b),
{
    let bytes = s.as_bytes();
    bytes.len() > 0 && bytes[bytes.len() - 1] == b
}

/// The rule `newlines`: carriage returns and line feeds that differ in
/// number, at the beginning or at the end.
#[derive(Clone, Copy, Debug)]
pub struct NewlinesRule;

impl RuleChecker for NewlinesRule {
    open spec fn label(&self) -> Seq<char> {
        "newlines"@
    }

    open spec fn default_on(&self) -> bool {
        true
    }

    open spec fn checks(&self) -> bool {
        true
    }

    open spec fn level(&self) -> Severity {
        Severity::Error
    }

    open spec fn entry_findings(&self, scene: Scene, entry: EntryView) -> Seq<DiagnosticView> {
        Seq::empty()
    }

    open spec fn ctxt_findings(&self, scene: Scene, entry: EntryView, msgctxt: Seq<char>) -> Seq<
        DiagnosticView,
    > {
        Seq::empty()
    }

    /// Reported, in this order: the numbers of carriage returns and of line
    /// feeds where they differ, a carriage return and a line feed at the
    /// beginning, and a carriage return and a line feed at the end, where
    /// only one of the source and the translation has it.
    open spec fn msg_findings(
        &self,
        scene: Scene,
        entry: EntryView,
        msgid: Seq<char>,
        msgstr: Seq<char>,
    ) -> Seq<DiagnosticView> {
        count_newline_findings(scene.stamp, msgid, msgstr) + beginning_findings(
            scene.stamp,
            msgid,
            msgstr,
        ) + end_findings(scene.stamp, msgid, msgstr)
    }

    fn name(&self) -> (r: &'static str) {
        "newlines"
    }

    fn is_default(&self) -> (r: bool) {
        true
    }

    fn is_check(&self) -> (r: bool) {
        true
    }

    fn severity(&self) -> (r: Severity) {
        Severity::Error
    }

    fn check_entry(&self, checker: &mut Checker, entry: &Entry) {
    }

    fn check_ctxt(&self, checker: &mut Checker, entry: &Entry, msgctxt: &str) {
    }

    fn check_msg(&self, checker: &mut Checker, entry: &Entry, msgid: &str, msgstr: &str) {
        NewlinesRule::check_cr_lf_count(checker, entry, msgid, msgstr);
        NewlinesRule::check_cr_lf_beginning(checker, entry, msgid, msgstr);
        NewlinesRule::check_cr_lf_end(checker, entry, msgid, msgstr);
    }
}

impl NewlinesRule {
    /// Checks the numbers of carriage returns and of line feeds.
    fn check_cr_lf_count(checker: &mut Checker, entry: &Entry, msgid: &str, msgstr: &str)
        ensures
            final(checker).reported(
                old(checker),
                count_newline_findings(old(checker).scene().stamp, msgid@, msgstr@),
            ),
    {
        let none: Vec<(usize, usize)> = Vec::new();
        let id_count_cr = find_matches(msgid.as_bytes(), "\r".as_bytes()).len();
        let str_count_cr = find_matches(msgstr.as_bytes(), "\r".as_bytes()).len();
        report_counts(
            checker,
            entry,
            "carriage returns '\\r'",
            msgid,
            id_count_cr,
            none.as_slice(),
            msgstr,
            str_count_cr,
            none.as_slice(),
        );
        let id_count_lf = find_matches(msgid.as_bytes(), "\n".as_bytes()).len();
        let str_count_lf = find_matches(msgstr.as_bytes(), "\n".as_bytes()).len();
        report_counts(
            checker,
            entry,
            "line feeds '\\n'",
            msgid,
            id_count_lf,
            none.as_slice(),
            msgstr,
            str_count_lf,
            none.as_slice(),
        );
    }

    /// Checks a carriage return and a line feed at the beginning.
    fn check_cr_lf_beginning(checker: &mut Checker, entry: &Entry, msgid: &str, msgstr: &str)
        ensures
            final(checker).reported(
                old(checker),
                beginning_findings(old(checker).scene().stamp, msgid@, msgstr@),
            ),
    {
        report_presence(
            checker,
            entry,
            "carriage return '\\r' at the beginning",
            msgid,
            first_is(msgid, ascii::CR),
            msgstr,
            first_is(msgstr, ascii::CR),
        );
        report_presence(
            checker,
            entry,
            "line feed '\\n' at the beginning",
            msgid,
            first_is(msgid, ascii::LF),
            msgstr,
            first_is(msgstr, ascii::LF),
        );
    }

    /// Checks a carriage return and a line feed at the end.
    fn check_cr_lf_end(checker: &mut Checker, entry: &Entry, msgid: &str, msgstr: &str)
        ensures
            final(checker).reported(
                old(checker),
                end_findings(old(checker).scene().stamp, msgid@, msgstr@),
            ),
    {
        report_presence(
            checker,
            entry,
            "carriage return '\\r' at the end",
            msgid,
            last_is(msgid, ascii::CR),
            msgstr,
            last_is(msgstr, ascii::CR),
        );
        report_presence(
            checker,
            entry,
            "line feed '\\n' at the end",
            msgid,
            last_is(msgid, ascii::LF),
            msgstr,
            last_is(msgstr, ascii::LF),
        );
    }
}

} // verus!
