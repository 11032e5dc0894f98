//! Implementation of the `long` rule: check translations that are too long.

use vstd::prelude::*;
use vstd::string::*;
use vstd::utf8::*;

use crate::checker::{msg_diagnostic, Checker, Scene};
use crate::diagnostic::{DiagnosticView, Severity};
use crate::po::entry::{Entry, EntryView};
use crate::rules::rule::RuleChecker;
use crate::diagnostic::{count_chars_before, lemma_char_index_counts_chars};
use crate::rules::common::{count_message, counted};
use crate::text::trimmed;

verus! {

/// The number of characters of a text without the white space around it.
pub open spec fn trimmed_length(s: Seq<char>) -> nat {
    trimmed(s).len()
}

/// Counts the characters of a text without the white space around it.
fn count_trimmed(s: &str) -> (r: usize)
    ensures
        r == trimmed_length(s@),
{
    let bytes = s.trim().as_bytes();
    proof {
        lemma_char_index_counts_chars(trimmed(s@));
    }
    count_chars_before(bytes, bytes.len())
}

/// The rule `long`: a translation much longer than its source.
#[derive(Clone, Copy, Debug)]
pub struct LongRule;

impl RuleChecker for LongRule {
    open spec fn label(&self) -> Seq<char> {
        "long"@
    }

    open spec fn default_on(&self) -> bool {
        true
    }

    open spec fn checks(&self) -> bool {
        true
    }

    open spec fn level(&self) -> Severity {
        Severity::Warning
    }

    open spec fn entry_findings(&self, scene: Scene, entry: EntryView) -> Seq<DiagnosticView> {
        Seq::empty()
    }

    open spec fn ctxt_findings(&self, scene: Scene, entry: EntryView, msgctxt: Seq<char>) -> Seq<
        DiagnosticView,
    > {
        Seq::empty()
    }

    /// The characters of the source and of the translation are counted
    /// without the white space around them. A translation at least ten times
    /// as long as its source, or longer than a source of one character, is
    /// reported as `translation too long (# / #)`.
    open spec fn msg_findings(
        &self,
        scene: Scene,
        entry: EntryView,
        msgid: Seq<char>,
        msgstr: Seq<char>,
    ) -> Seq<DiagnosticView> {
        let len_msgid = trimmed_length(msgid);
        let len_msgstr = trimmed_length(msgstr);
        if len_msgid != 0 && len_msgstr != 0 && (len_msgid * 10 <= len_msgstr || (len_msgid == 1
            && len_msgstr > 1)) {
            seq![
                msg_diagnostic(
                    scene.stamp,
                    counted("translation too long"@, len_msgid, len_msgstr),
                    msgid,
                    Seq::empty(),
                    msgstr,
                    Seq::empty(),
                ),
            ]
        } else {
            Seq::empty()
        }
    }

    fn name(&self) -> (r: &'static str) {
        "long"
    }

    fn is_default(&self) -> (r: bool) {
        true
    }

    fn is_check(&self) -> (r: bool) {
        true
    }

    fn severity(&self) -> (r: Severity) {
        Severity::Warning
    }

    fn check_entry(&self, checker: &mut Checker, entry: &Entry) {
    }

    fn check_ctxt(&self, checker: &mut Checker, entry: &Entry, msgctxt: &str) {
    }

    fn check_msg(&self, checker: &mut Checker, entry: &Entry, msgid: &str, msgstr: &str) {
        let len_msgid = count_trimmed(msgid);
        if len_msgid == 0 {
            return;
        }
        let len_msgstr = count_trimmed(msgstr);
        if len_msgstr == 0 {
            return;
        }
        let much = match len_msgid.checked_mul(10) {
            Some(tenfold) => tenfold <= len_msgstr,
            None => false,
        };
        let single = len_msgid == 1 && len_msgstr > 1;
        if much || single {
            let none: Vec<(usize, usize)> = Vec::new();
            checker.report_msg(
                entry,
                count_message("translation too long".to_owned(), len_msgid, len_msgstr),
                msgid,
                none.as_slice(),
                msgstr,
                none.as_slice(),
            );
        }
    }
}

} // verus!
