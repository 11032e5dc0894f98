//! Implementation of the `pipes` rule: check missing/extra pipes.

use vstd::prelude::*;
use vstd::string::*;
use vstd::utf8::*;

use crate::checker::{Checker, Scene};
use crate::diagnostic::{DiagnosticView, Severity};
use crate::po::entry::{Entry, EntryView};
use crate::rules::rule::RuleChecker;
use crate::rules::common::{count_findings, find_matches, matches_of, report_counts};

verus! {

/// The rule `pipes`: a number of pipes that differs.
#[derive(Clone, Copy, Debug)]
pub struct PipesRule;

impl RuleChecker for PipesRule {
    open spec fn label(&self) -> Seq<char> {
        "pipes"@
    }

    open spec fn default_on(&self) -> bool {
        true
    }

    open spec fn checks(&self) -> bool {
        true
    }

    open spec fn level(&self) -> Severity {
        Severity::Info
    }

    open spec fn entry_findings(&self, scene: Scene, entry: EntryView) -> Seq<DiagnosticView> {
        Seq::empty()
    }

    open spec fn ctxt_findings(&self, scene: Scene, entry: EntryView, msgctxt: Seq<char>) -> Seq<
        DiagnosticView,
    > {
        Seq::empty()
    }

    /// The occurrences are counted in the source and in the translation;
    /// a difference is reported as `missing pipes '|' (# / #)` or
    /// `extra pipes '|' (# / #)`, every occurrence highlighted.
    open spec fn msg_findings(
        &self,
        scene: Scene,
        entry: EntryView,
        msgid: Seq<char>,
        msgstr: Seq<char>,
    ) -> Seq<DiagnosticView> {
        count_findings(
            scene.stamp,
            "pipes '|'"@,
            msgid,
            matches_of(encode_utf8(msgid), encode_utf8("|"@), 0).len(),
            matches_of(encode_utf8(msgid), encode_utf8("|"@), 0),
            msgstr,
            matches_of(encode_utf8(msgstr), encode_utf8("|"@), 0).len(),
            matches_of(encode_utf8(msgstr), encode_utf8("|"@), 0),
        )
    }

    fn name(&self) -> (r: &'static str) {
        "pipes"
    }

    fn is_default(&self) -> (r: bool) {
        true
    }

    fn is_check(&self) -> (r: bool) {
        true
    }

    fn severity(&self) -> (r: Severity) {
        Severity::Info
    }

    fn check_entry(&self, checker: &mut Checker, entry: &Entry) {
    }

    fn check_ctxt(&self, checker: &mut Checker, entry: &Entry, msgctxt: &str) {
    }

    fn check_msg(&self, checker: &mut Checker, entry: &Entry, msgid: &str, msgstr: &str) {
        let needle = "|".as_bytes();
        let id_found = find_matches(msgid.as_bytes(), needle);
        let str_found = find_matches(msgstr.as_bytes(), needle);
        report_counts(
            checker,
            entry,
            "pipes '|'",
            msgid,
            id_found.len(),
            id_found.as_slice(),
            msgstr,
            str_found.len(),
            str_found.as_slice(),
        );
    }
}

} // verus!
