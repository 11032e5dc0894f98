//! Implementation of the `untranslated` rule: report untranslated entries.

use vstd::prelude::*;
use vstd::string::*;
use vstd::utf8::*;

use crate::checker::{msg_diagnostic, Checker, Scene};
use crate::diagnostic::{DiagnosticView, Severity};
use crate::po::entry::{Entry, EntryView};
use crate::rules::rule::RuleChecker;

verus! {

/// The rule `untranslated`: an empty translation.
#[derive(Clone, Copy, Debug)]
pub struct UntranslatedRule;

impl RuleChecker for UntranslatedRule {
    open spec fn label(&self) -> Seq<char> {
        "untranslated"@
    }

    open spec fn default_on(&self) -> bool {
        false
    }

    open spec fn checks(&self) -> bool {
        true
    }

    open spec fn level(&self) -> Severity {
        Severity::Info
    }

    open spec fn entry_findings(&self, scene: Scene, entry: EntryView) -> Seq<DiagnosticView> {
        Seq::empty()
    }

    open spec fn ctxt_findings(&self, scene: Scene, entry: EntryView, msgctxt: Seq<char>) -> Seq<
        DiagnosticView,
    > {
        Seq::empty()
    }

    /// An empty translation is reported as `untranslated message`.
    open spec fn msg_findings(
        &self,
        scene: Scene,
        entry: EntryView,
        msgid: Seq<char>,
        msgstr: Seq<char>,
    ) -> Seq<DiagnosticView> {
        if msgstr.len() == 0 {
            seq![
                msg_diagnostic(
                    scene.stamp,
                    "untranslated message"@,
                    msgid,
                    Seq::empty(),
                    msgstr,
                    Seq::empty(),
                ),
            ]
        } else {
            Seq::empty()
        }
    }

    fn name(&self) -> (r: &'static str) {
        "untranslated"
    }

    fn is_default(&self) -> (r: bool) {
        false
    }

    fn is_check(&self) -> (r: bool) {
        true
    }

    fn severity(&self) -> (r: Severity) {
        Severity::Info
    }

    fn check_entry(&self, checker: &mut Checker, entry: &Entry) {
    }

    fn check_ctxt(&self, checker: &mut Checker, entry: &Entry, msgctxt: &str) {
    }

    fn check_msg(&self, checker: &mut Checker, entry: &Entry, msgid: &str, msgstr: &str) {
        if msgstr.is_empty() {
            let none: Vec<(usize, usize)> = Vec::new();
            checker.report_msg(
                entry,
                "untranslated message".to_owned(),
                msgid,
                none.as_slice(),
                msgstr,
                none.as_slice(),
            );
        }
    }
}

} // verus!
