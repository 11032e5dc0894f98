//! Implementation of the `unchanged` rule: report translations that are the same as the source.

use vstd::prelude::*;
use vstd::string::*;
use vstd::utf8::*;

use crate::checker::{msg_diagnostic, Checker, Scene};
use crate::diagnostic::{DiagnosticView, Severity};
use crate::po::entry::{Entry, EntryView};
use crate::rules::rule::RuleChecker;
use vstd::std_specs::iter::IteratorSpec;

use crate::text::{str_eq, trimmed, unicode_alphabetic, unicode_uppercase, uppercased};

verus! {

/// True when every letter of `s` is an uppercase letter.
pub open spec fn letters_are_uppercase(s: Seq<char>) -> bool {
    forall|i: int|
        0 <= i < s.len() && unicode_alphabetic(#[trigger] s[i]) ==> unicode_uppercase(s[i])
}

/// Tells whether every letter of a string is an uppercase letter.
fn all_upper(s: &str) -> (r: bool)
    ensures
        r == letters_are_uppercase(s@),
{
    let mut it = s.chars();
    let ghost n: int = 0;
    loop
        invariant_except_break
            0 <= n <= s@.len(),
            it.remaining() == s@.subrange(n, s@.len() as int),
            forall|i: int|
                0 <= i < n && unicode_alphabetic(#[trigger] s@[i]) ==> unicode_uppercase(s@[i]),
        ensures
            letters_are_uppercase(s@),
        decreases s@.len() - n,
    {
        match it.next() {
            Some(c) => {
                assert(c == s@[n]);
                if c.is_alphabetic() && !c.is_uppercase() {
                    return false;
                }
                proof {
                    assert(s@.subrange(n, s@.len() as int).drop_first() =~= s@.subrange(
                        n + 1,
                        s@.len() as int,
                    ));
                    n = n + 1;
                }
            },
            None => {
                assert(s@.subrange(n, s@.len() as int).len() == 0);
                break;
            },
        }
    }
    true
}

/// The rule `unchanged`: a translation that is the same as its source.
#[derive(Clone, Copy, Debug)]
pub struct UnchangedRule;

impl RuleChecker for UnchangedRule {
    open spec fn label(&self) -> Seq<char> {
        "unchanged"@
    }

    open spec fn default_on(&self) -> bool {
        false
    }

    open spec fn checks(&self) -> bool {
        true
    }

    open spec fn level(&self) -> Severity {
        Severity::Info
    }

    open spec fn entry_findings(&self, scene: Scene, entry: EntryView) -> Seq<DiagnosticView> {
        Seq::empty()
    }

    open spec fn ctxt_findings(&self, scene: Scene, entry: EntryView, msgctxt: Seq<char>) -> Seq<
        DiagnosticView,
    > {
        Seq::empty()
    }

    /// A translation that is its source, where neither is blank, is reported
    /// as `unchanged translation`, unless the source is written in uppercase:
    /// all its letters are uppercase letters, or its uppercase form is the
    /// source itself.
    open spec fn msg_findings(
        &self,
        scene: Scene,
        entry: EntryView,
        msgid: Seq<char>,
        msgstr: Seq<char>,
    ) -> Seq<DiagnosticView> {
        if trimmed(msgid).len() > 0 && trimmed(msgstr).len() > 0 && msgstr == msgid
            && !letters_are_uppercase(msgid) && uppercased(msgid) != msgid {
            seq![
                msg_diagnostic(
                    scene.stamp,
                    "unchanged translation"@,
                    msgid,
                    Seq::empty(),
                    msgstr,
                    Seq::empty(),
                ),
            ]
        } else {
            Seq::empty()
        }
    }

    fn name(&self) -> (r: &'static str) {
        "unchanged"
    }

    fn is_default(&self) -> (r: bool) {
        false
    }

    fn is_check(&self) -> (r: bool) {
        true
    }

    fn severity(&self) -> (r: Severity) {
        Severity::Info
    }

    fn check_entry(&self, checker: &mut Checker, entry: &Entry) {
    }

    fn check_ctxt(&self, checker: &mut Checker, entry: &Entry, msgctxt: &str) {
    }

    fn check_msg(&self, checker: &mut Checker, entry: &Entry, msgid: &str, msgstr: &str) {
        if !msgid.trim().is_empty() && !msgstr.trim().is_empty() && str_eq(msgstr, msgid) {
            if !all_upper(msgid) && !str_eq(msgid.to_uppercase().as_str(), msgid) {
                let none: Vec<(usize, usize)> = Vec::new();
                checker.report_msg(
                    entry,
                    "unchanged translation".to_owned(),
                    msgid,
                    none.as_slice(),
                    msgstr,
                    none.as_slice(),
                );
            }
        }
    }
}

} // verus!
