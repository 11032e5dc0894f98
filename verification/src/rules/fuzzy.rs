//! Implementation of the `fuzzy` rule: report fuzzy entries.

use vstd::prelude::*;
use vstd::string::*;
use vstd::utf8::*;

use crate::checker::{entry_diagnostic, Checker, Scene};
use crate::diagnostic::{DiagnosticView, Severity};
use crate::po::entry::{Entry, EntryView};
use crate::rules::rule::RuleChecker;

verus! {

/// The rule `fuzzy`: an entry marked as fuzzy.
#[derive(Clone, Copy, Debug)]
pub struct FuzzyRule;

impl RuleChecker for FuzzyRule {
    open spec fn label(&self) -> Seq<char> {
        "fuzzy"@
    }

    open spec fn default_on(&self) -> bool {
        false
    }

    open spec fn checks(&self) -> bool {
        false
    }

    open spec fn level(&self) -> Severity {
        Severity::Info
    }

    /// An entry marked as fuzzy is reported as `fuzzy entry`.
    open spec fn entry_findings(&self, scene: Scene, entry: EntryView) -> Seq<DiagnosticView> {
        if entry.fuzzy {
            seq![entry_diagnostic(scene.stamp, "fuzzy entry"@, entry)]
        } else {
            Seq::empty()
        }
    }

    open spec fn ctxt_findings(&self, scene: Scene, entry: EntryView, msgctxt: Seq<char>) -> Seq<
        DiagnosticView,
    > {
        Seq::empty()
    }

    open spec fn msg_findings(
        &self,
        scene: Scene,
        entry: EntryView,
        msgid: Seq<char>,
        msgstr: Seq<char>,
    ) -> Seq<DiagnosticView> {
        Seq::empty()
    }

    fn name(&self) -> (r: &'static str) {
        "fuzzy"
    }

    fn is_default(&self) -> (r: bool) {
        false
    }

    fn is_check(&self) -> (r: bool) {
        false
    }

    fn severity(&self) -> (r: Severity) {
        Severity::Info
    }

    fn check_entry(&self, checker: &mut Checker, entry: &Entry) {
        if entry.fuzzy {
            checker.report_entry("fuzzy entry".to_owned(), entry);
        }
    }

    fn check_ctxt(&self, checker: &mut Checker, entry: &Entry, msgctxt: &str) {
    }

    fn check_msg(&self, checker: &mut Checker, entry: &Entry, msgid: &str, msgstr: &str) {
    }
}

} // verus!
