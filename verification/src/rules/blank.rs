//! Implementation of the `blank` rule: check blank translation.

use vstd::prelude::*;
use vstd::string::*;

use crate::checker::{msg_diagnostic, Checker, Scene};
use crate::diagnostic::{DiagnosticView, Severity};
use crate::po::entry::{Entry, EntryView};
use crate::rules::rule::RuleChecker;
use crate::text::trimmed;

verus! {

/// The rule `blank`: a translation made of white space only.
#[derive(Clone, Copy, Debug)]
pub struct BlankRule;

impl RuleChecker for BlankRule {
    open spec fn label(&self) -> Seq<char> {
        "blank"@
    }

    open spec fn default_on(&self) -> bool {
        true
    }

    open spec fn checks(&self) -> bool {
        true
    }

    open spec fn level(&self) -> Severity {
        Severity::Warning
    }

    open spec fn entry_findings(&self, scene: Scene, entry: EntryView) -> Seq<DiagnosticView> {
        Seq::empty()
    }

    open spec fn ctxt_findings(&self, scene: Scene, entry: EntryView, msgctxt: Seq<char>) -> Seq<
        DiagnosticView,
    > {
        Seq::empty()
    }

    /// A translation that is not empty and holds white space only, of a
    /// source that holds more, is reported as `blank translation`, the
    /// whole translation highlighted.
    open spec fn msg_findings(
        &self,
        scene: Scene,
        entry: EntryView,
        msgid: Seq<char>,
        msgstr: Seq<char>,
    ) -> Seq<DiagnosticView> {
        if trimmed(msgid).len() > 0 && msgstr.len() > 0 && trimmed(msgstr).len() == 0 {
            seq![
                msg_diagnostic(
                    scene.stamp,
                    "blank translation"@,
                    msgid,
                    Seq::empty(),
                    msgstr,
                    seq![(0usize, vstd::utf8::encode_utf8(msgstr).len() as usize)],
                ),
            ]
        } else {
            Seq::empty()
        }
    }

    fn name(&self) -> (r: &'static str) {
        "blank"
    }

    fn is_default(&self) -> (r: bool) {
        true
    }

    fn is_check(&self) -> (r: bool) {
        true
    }

    fn severity(&self) -> (r: Severity) {
        Severity::Warning
    }

    fn check_entry(&self, checker: &mut Checker, entry: &Entry) {
    }

    fn check_ctxt(&self, checker: &mut Checker, entry: &Entry, msgctxt: &str) {
    }

    fn check_msg(&self, checker: &mut Checker, entry: &Entry, msgid: &str, msgstr: &str) {
        if !msgid.trim().is_empty() && !msgstr.is_empty() && msgstr.trim().is_empty() {
            let none: Vec<(usize, usize)> = Vec::new();
            let mut whole: Vec<(usize, usize)> = Vec::new();
            whole.push((0, msgstr.as_bytes().len()));
            checker.report_msg(
                entry,
                "blank translation".to_owned(),
                msgid,
                none.as_slice(),
                msgstr,
                whole.as_slice(),
            );
        }
    }
}

} // verus!
