//! Implementation of the `encoding` rule: check characters that are invalid for the encoding.

use vstd::prelude::*;
use vstd::string::*;
use vstd::utf8::*;

use crate::checker::{entry_diagnostic, Checker, Scene};
use crate::diagnostic::{DiagnosticView, Severity};
use crate::po::entry::{Entry, EntryView};
use crate::rules::rule::RuleChecker;
use crate::rules::common::concat;

verus! {

/// The rule `encoding`: bytes that the encoding of the catalog cannot read.
#[derive(Clone, Copy, Debug)]
pub struct EncodingRule;

impl RuleChecker for EncodingRule {
    open spec fn label(&self) -> Seq<char> {
        "encoding"@
    }

    open spec fn default_on(&self) -> bool {
        true
    }

    open spec fn checks(&self) -> bool {
        true
    }

    open spec fn level(&self) -> Severity {
        Severity::Info
    }

    /// An entry with malformed bytes is reported as `invalid characters for
    /// encoding ...`, with the name of the encoding of the catalog.
    open spec fn entry_findings(&self, scene: Scene, entry: EntryView) -> Seq<DiagnosticView> {
        if entry.encoding_error {
            seq![
                entry_diagnostic(
                    scene.stamp,
                    "invalid characters for encoding "@ + scene.encoding_name,
                    entry,
                ),
            ]
        } else {
            Seq::empty()
        }
    }

    open spec fn ctxt_findings(&self, scene: Scene, entry: EntryView, msgctxt: Seq<char>) -> Seq<
        DiagnosticView,
    > {
        Seq::empty()
    }

    open spec fn msg_findings(
        &self,
        scene: Scene,
        entry: EntryView,
        msgid: Seq<char>,
        msgstr: Seq<char>,
    ) -> Seq<DiagnosticView> {
        Seq::empty()
    }

    fn name(&self) -> (r: &'static str) {
        "encoding"
    }

    fn is_default(&self) -> (r: bool) {
        true
    }

    fn is_check(&self) -> (r: bool) {
        true
    }

    fn severity(&self) -> (r: Severity) {
        Severity::Info
    }

    fn check_entry(&self, checker: &mut Checker, entry: &Entry) {
        if entry.encoding_error {
            let message = concat("invalid characters for encoding ", checker.encoding_name());
            checker.report_entry(message, entry);
        }
    }

    fn check_ctxt(&self, checker: &mut Checker, entry: &Entry, msgctxt: &str) {
    }

    fn check_msg(&self, checker: &mut Checker, entry: &Entry, msgid: &str, msgstr: &str) {
    }
}

} // verus!
