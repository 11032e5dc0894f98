//! Implementation of the `changed` rule: report translations that differ from the source.

use vstd::prelude::*;
use vstd::string::*;
use vstd::utf8::*;

use crate::checker::{msg_diagnostic, Checker, Scene};
use crate::diagnostic::{DiagnosticView, Severity};
use crate::po::entry::{Entry, EntryView};
use crate::rules::rule::RuleChecker;
use crate::text::{str_eq, trimmed};

verus! {

/// The rule `changed`: a translation that differs from its source.
#[derive(Clone, Copy, Debug)]
pub struct ChangedRule;

impl RuleChecker for ChangedRule {
    open spec fn label(&self) -> Seq<char> {
        "changed"@
    }

    open spec fn default_on(&self) -> bool {
        false
    }

    open spec fn checks(&self) -> bool {
        true
    }

    open spec fn level(&self) -> Severity {
        Severity::Info
    }

    open spec fn entry_findings(&self, scene: Scene, entry: EntryView) -> Seq<DiagnosticView> {
        Seq::empty()
    }

    open spec fn ctxt_findings(&self, scene: Scene, entry: EntryView, msgctxt: Seq<char>) -> Seq<
        DiagnosticView,
    > {
        Seq::empty()
    }

    /// A translation that differs from its source, where neither is blank,
    /// is reported as `changed translation`.
    open spec fn msg_findings(
        &self,
        scene: Scene,
        entry: EntryView,
        msgid: Seq<char>,
        msgstr: Seq<char>,
    ) -> Seq<DiagnosticView> {
        if trimmed(msgid).len() > 0 && trimmed(msgstr).len() > 0 && msgstr != msgid {
            seq![
                msg_diagnostic(
                    scene.stamp,
                    "changed translation"@,
                    msgid,
                    Seq::empty(),
                    msgstr,
                    Seq::empty(),
                ),
            ]
        } else {
            Seq::empty()
        }
    }

    fn name(&self) -> (r: &'static str) {
        "changed"
    }

    fn is_default(&self) -> (r: bool) {
        false
    }

    fn is_check(&self) -> (r: bool) {
        true
    }

    fn severity(&self) -> (r: Severity) {
        Severity::Info
    }

    fn check_entry(&self, checker: &mut Checker, entry: &Entry) {
    }

    fn check_ctxt(&self, checker: &mut Checker, entry: &Entry, msgctxt: &str) {
    }

    fn check_msg(&self, checker: &mut Checker, entry: &Entry, msgid: &str, msgstr: &str) {
        if !msgid.trim().is_empty() && !msgstr.trim().is_empty() && !str_eq(msgstr, msgid) {
            let none: Vec<(usize, usize)> = Vec::new();
            checker.report_msg(
                entry,
                "changed translation".to_owned(),
                msgid,
                none.as_slice(),
                msgstr,
                none.as_slice(),
            );
        }
    }
}

} // verus!
