//! Implementation of the `escapes` rule: check missing/extra escape characters.

use vstd::prelude::*;
use vstd::string::*;
use vstd::utf8::*;

use crate::checker::{Checker, Scene};
use crate::diagnostic::{DiagnosticView, Severity};
use crate::po::entry::{Entry, EntryView};
use crate::rules::rule::RuleChecker;
use crate::rules::common::{count_findings, find_matches, matches_of, report_counts};

verus! {

/// The rule `escapes`: a number of backslashes that differs.
#[derive(Clone, Copy, Debug)]
pub struct EscapesRule;

impl RuleChecker for EscapesRule {
    open spec fn label(&self) -> Seq<char> {
        "escapes"@
    }

    open spec fn default_on(&self) -> bool {
        true
    }

    open spec fn checks(&self) -> bool {
        true
    }

    open spec fn level(&self) -> Severity {
        Severity::Error
    }

    open spec fn entry_findings(&self, scene: Scene, entry: EntryView) -> Seq<DiagnosticView> {
        Seq::empty()
    }

    open spec fn ctxt_findings(&self, scene: Scene, entry: EntryView, msgctxt: Seq<char>) -> Seq<
        DiagnosticView,
    > {
        Seq::empty()
    }

    /// The pairs of backslashes are counted first, from left to right; a
    /// difference is reported as `missing escaped escape characters` or
    /// `extra escaped escape characters`. Where they agree, the single
    /// backslashes are counted and a difference is reported as `missing
    /// escape characters` or `extra escape characters`.
    open spec fn msg_findings(
        &self,
        scene: Scene,
        entry: EntryView,
        msgid: Seq<char>,
        msgstr: Seq<char>,
    ) -> Seq<DiagnosticView> {
        let double = encode_utf8("\\\\"@);
        let single = encode_utf8("\\"@);
        let id_double = matches_of(encode_utf8(msgid), double, 0);
        let str_double = matches_of(encode_utf8(msgstr), double, 0);
        if id_double.len() != str_double.len() {
            count_findings(
                scene.stamp,
                "escaped escape characters '\\\\'"@,
                msgid,
                id_double.len(),
                id_double,
                msgstr,
                str_double.len(),
                str_double,
            )
        } else {
            count_findings(
                scene.stamp,
                "escape characters '\\'"@,
                msgid,
                matches_of(encode_utf8(msgid), single, 0).len(),
                matches_of(encode_utf8(msgid), single, 0),
                msgstr,
                matches_of(encode_utf8(msgstr), single, 0).len(),
                matches_of(encode_utf8(msgstr), single, 0),
            )
        }
    }

    fn name(&self) -> (r: &'static str) {
        "escapes"
    }

    fn is_default(&self) -> (r: bool) {
        true
    }

    fn is_check(&self) -> (r: bool) {
        true
    }

    fn severity(&self) -> (r: Severity) {
        Severity::Error
    }

    fn check_entry(&self, checker: &mut Checker, entry: &Entry) {
    }

    fn check_ctxt(&self, checker: &mut Checker, entry: &Entry, msgctxt: &str) {
    }

    fn check_msg(&self, checker: &mut Checker, entry: &Entry, msgid: &str, msgstr: &str) {
        let double = "\\\\".as_bytes();
        let id_double = find_matches(msgid.as_bytes(), double);
        let str_double = find_matches(msgstr.as_bytes(), double);
        if id_double.len() != str_double.len() {
            report_counts(
                checker,
                entry,
                "escaped escape characters '\\\\'",
                msgid,
                id_double.len(),
                id_double.as_slice(),
                msgstr,
                str_double.len(),
                str_double.as_slice(),
            );
        } else {
            let single = "\\".as_bytes();
            let id_single = find_matches(msgid.as_bytes(), single);
            let str_single = find_matches(msgstr.as_bytes(), single);
            report_counts(
                checker,
                entry,
                "escape characters '\\'",
                msgid,
                id_single.len(),
                id_single.as_slice(),
                msgstr,
                str_single.len(),
                str_single.as_slice(),
            );
        }
    }
}

} // verus!
