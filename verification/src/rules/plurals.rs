//! Implementation of the `plurals` rule: check the number of plural forms.

use vstd::prelude::*;
use vstd::string::*;
use vstd::utf8::*;

use crate::checker::{entry_diagnostic, Checker, Scene};
use crate::diagnostic::{DiagnosticView, Severity};
use crate::po::entry::{Entry, EntryView};
use crate::rules::rule::RuleChecker;
use crate::text::{decimal_text, push_decimal};

verus! {

/// The message on a number of plural forms that is not the expected one.
pub open spec fn plural_message(label: Seq<char>, found: nat, expected: nat) -> Seq<char> {
    label + " (found: "@ + decimal_text(found) + ", expected: "@ + decimal_text(expected) + ")"@
}

/// Writes the message on a number of plural forms that is not the expected
/// one.
fn write_plural_message(label: &str, found: usize, expected: u32) -> (r: String)
    ensures
        r@ == plural_message(label@, found as nat, expected as nat),
{
    let mut r = label.to_owned();
    r.append(" (found: ");
    push_decimal(&mut r, found as u64);
    r.append(", expected: ");
    push_decimal(&mut r, expected as u64);
    r.append(")");
    r
}

/// The rule `plurals`: a number of translations that is not the number of
/// plural forms of the catalog.
#[derive(Clone, Copy, Debug)]
pub struct PluralsRule;

impl RuleChecker for PluralsRule {
    open spec fn label(&self) -> Seq<char> {
        "plurals"@
    }

    open spec fn default_on(&self) -> bool {
        true
    }

    open spec fn checks(&self) -> bool {
        true
    }

    open spec fn level(&self) -> Severity {
        Severity::Error
    }

    /// An entry with a plural form is reported where the number of its
    /// translations is below or above the number of plural forms that the
    /// header gives. Nothing is reported where the header gives none.
    open spec fn entry_findings(&self, scene: Scene, entry: EntryView) -> Seq<DiagnosticView> {
        if scene.nplurals == 0 || entry.msgid_plural is None {
            Seq::empty()
        } else if entry.msgstr.len() < scene.nplurals {
            seq![
                entry_diagnostic(
                    scene.stamp,
                    plural_message(
                        "missing translated plural form"@,
                        entry.msgstr.len(),
                        scene.nplurals as nat,
                    ),
                    entry,
                ),
            ]
        } else if entry.msgstr.len() > scene.nplurals {
            seq![
                entry_diagnostic(
                    scene.stamp,
                    plural_message(
                        "extra translated plural form"@,
                        entry.msgstr.len(),
                        scene.nplurals as nat,
                    ),
                    entry,
                ),
            ]
        } else {
            Seq::empty()
        }
    }

    open spec fn ctxt_findings(&self, scene: Scene, entry: EntryView, msgctxt: Seq<char>) -> Seq<
        DiagnosticView,
    > {
        Seq::empty()
    }

    open spec fn msg_findings(
        &self,
        scene: Scene,
        entry: EntryView,
        msgid: Seq<char>,
        msgstr: Seq<char>,
    ) -> Seq<DiagnosticView> {
        Seq::empty()
    }

    fn name(&self) -> (r: &'static str) {
        "plurals"
    }

    fn is_default(&self) -> (r: bool) {
        true
    }

    fn is_check(&self) -> (r: bool) {
        true
    }

    fn severity(&self) -> (r: Severity) {
        Severity::Error
    }

    fn check_entry(&self, checker: &mut Checker, entry: &Entry) {
        let expected = checker.nplurals();
        if expected == 0 || !entry.has_plural_form() {
            // Only entries with a plural form are checked, and only where
            // the header gives the number of plural forms.
            return;
        }
        let found = entry.msgstr.len();
        if found < expected as usize {
            checker.report_entry(
                write_plural_message("missing translated plural form", found, expected),
                entry,
            );
        } else if found > expected as usize {
            checker.report_entry(
                write_plural_message("extra translated plural form", found, expected),
                entry,
            );
        }
    }

    fn check_ctxt(&self, checker: &mut Checker, entry: &Entry, msgctxt: &str) {
    }

    fn check_msg(&self, checker: &mut Checker, entry: &Entry, msgid: &str, msgstr: &str) {
    }
}

} // verus!
