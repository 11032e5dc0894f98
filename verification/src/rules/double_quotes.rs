//! Implementation of the `double-quotes` rule: check missing/extra double quotes.

use vstd::prelude::*;
use vstd::string::*;
use vstd::utf8::*;

use crate::checker::{Checker, Scene};
use crate::diagnostic::{DiagnosticView, Severity};
use crate::po::entry::{Entry, EntryView};
use crate::rules::rule::RuleChecker;
use crate::ascii;
use crate::rules::common::{count_findings, report_counts};
use crate::text::left;

verus! {

/// True when a double quote of another script starts at `pos`: `„` or `”`.
pub open spec fn curly_quote_at(bytes: Seq<u8>, pos: int) -> bool {
    &&& pos + 3 <= bytes.len()
    &&& bytes[pos] == 0xE2
    &&& bytes[pos + 1] == 0x80
    &&& (bytes[pos + 2] == 0x9E || bytes[pos + 2] == 0x9D)
}

/// The double quotes of `bytes` from `pos` on: `"`, `„` and `”`, each as
/// its start and its end.
pub open spec fn quote_matches(bytes: Seq<u8>, pos: int) -> Seq<(usize, usize)>
    decreases left(bytes, pos),
{
    if pos < 0 || pos >= bytes.len() {
        Seq::empty()
    } else if bytes[pos] == ascii::QUOTE {
        seq![(pos as usize, (pos + 1) as usize)] + quote_matches(bytes, pos + 1)
    } else if curly_quote_at(bytes, pos) {
        seq![(pos as usize, (pos + 3) as usize)] + quote_matches(bytes, pos + 3)
    } else {
        quote_matches(bytes, pos + 1)
    }
}

/// Finds the double quotes of a string.
fn find_quotes(bytes: &[u8]) -> (v: Vec<(usize, usize)>)
    ensures
        v@ == quote_matches(bytes@, 0),
{
    let mut v: Vec<(usize, usize)> = Vec::new();
    let mut pos: usize = 0;
    while pos < bytes.len()
        invariant
            pos <= bytes@.len(),
            quote_matches(bytes@, 0) == v@ + quote_matches(bytes@, pos as int),
        decreases bytes@.len() - pos,
    {
        if bytes[pos] == ascii::QUOTE {
            v.push((pos, pos + 1));
            pos += 1;
        } else if bytes.len() - pos >= 3 && bytes[pos] == 0xE2 && bytes[pos + 1] == 0x80 && (
        bytes[pos + 2] == 0x9E || bytes[pos + 2] == 0x9D) {
            v.push((pos, pos + 3));
            pos += 3;
        } else {
            pos += 1;
        }
        assert(quote_matches(bytes@, 0) =~= v@ + quote_matches(bytes@, pos as int));
    }
    assert(v@ + Seq::<(usize, usize)>::empty() =~= v@);
    v
}

/// The rule `double-quotes`: a number of double quotes that differs.
#[derive(Clone, Copy, Debug)]
pub struct DoubleQuotesRule;

impl RuleChecker for DoubleQuotesRule {
    open spec fn label(&self) -> Seq<char> {
        "double-quotes"@
    }

    open spec fn default_on(&self) -> bool {
        true
    }

    open spec fn checks(&self) -> bool {
        true
    }

    open spec fn level(&self) -> Severity {
        Severity::Info
    }

    open spec fn entry_findings(&self, scene: Scene, entry: EntryView) -> Seq<DiagnosticView> {
        Seq::empty()
    }

    open spec fn ctxt_findings(&self, scene: Scene, entry: EntryView, msgctxt: Seq<char>) -> Seq<
        DiagnosticView,
    > {
        Seq::empty()
    }

    /// The double quotes `"`, `„` and `”` are counted in the source and in
    /// the translation; a difference is reported as `missing double quotes
    /// (# / #)` or `extra double quotes (# / #)`, every quote highlighted.
    open spec fn msg_findings(
        &self,
        scene: Scene,
        entry: EntryView,
        msgid: Seq<char>,
        msgstr: Seq<char>,
    ) -> Seq<DiagnosticView> {
        count_findings(
            scene.stamp,
            "double quotes"@,
            msgid,
            quote_matches(encode_utf8(msgid), 0).len(),
            quote_matches(encode_utf8(msgid), 0),
            msgstr,
            quote_matches(encode_utf8(msgstr), 0).len(),
            quote_matches(encode_utf8(msgstr), 0),
        )
    }

    fn name(&self) -> (r: &'static str) {
        "double-quotes"
    }

    fn is_default(&self) -> (r: bool) {
        true
    }

    fn is_check(&self) -> (r: bool) {
        true
    }

    fn severity(&self) -> (r: Severity) {
        Severity::Info
    }

    fn check_entry(&self, checker: &mut Checker, entry: &Entry) {
    }

    fn check_ctxt(&self, checker: &mut Checker, entry: &Entry, msgctxt: &str) {
    }

    fn check_msg(&self, checker: &mut Checker, entry: &Entry, msgid: &str, msgstr: &str) {
        let id_quotes = find_quotes(msgid.as_bytes());
        let str_quotes = find_quotes(msgstr.as_bytes());
        report_counts(
            checker,
            entry,
            "double quotes",
            msgid,
            id_quotes.len(),
            id_quotes.as_slice(),
            msgstr,
            str_quotes.len(),
            str_quotes.as_slice(),
        );
    }
}

} // verus!
