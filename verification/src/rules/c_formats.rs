//! Implementation of the `c-formats` rule: check inconsistent C format strings.

use vstd::prelude::*;
use vstd::string::*;
use vstd::utf8::*;

use crate::c_format::{c_formats_from, CFormat};
use crate::checker::{msg_diagnostic, Checker, Scene};
use crate::diagnostic::{DiagnosticView, Severity};
use crate::po::entry::{Entry, EntryView};
use crate::po::format::language::Language;
use crate::po::format::MatchStrPos;
use crate::rules::formats::{
    highlights_of, match_items, positions_of, same_strings, sorted_stripped, span_items,
    stripped_formats,
};
use crate::rules::rule::RuleChecker;

verus! {

/// Reads the C placeholders of a string.
fn c_formats_in<'a>(s: &'a str) -> (v: Vec<MatchStrPos<'a>>)
    ensures
        match_items(v@) == span_items(s.spec_bytes(), c_formats_from(s.spec_bytes(), 0)),
        positions_of_spec(v@) == highlights_of(c_formats_from(s.spec_bytes(), 0)),
{
    let found = CFormat::new(s).collect();
    let mut v: Vec<MatchStrPos<'a>> = Vec::new();
    let mut i: usize = 0;
    while i < found.len()
        invariant
            i <= found@.len(),
            v@.len() == i,
            forall|k: int|
                0 <= k < i ==> (#[trigger] v@[k]).s == found@[k].format && v@[k].start
                    == found@[k].start && v@[k].end == found@[k].end,
        decreases found@.len() - i,
    {
        v.push(MatchStrPos { s: found[i].format, start: found[i].start, end: found[i].end });
        i += 1;
    }
    assert(match_items(v@) =~= span_items(s.spec_bytes(), c_formats_from(s.spec_bytes(), 0)));
    assert(positions_of_spec(v@) =~= highlights_of(c_formats_from(s.spec_bytes(), 0)));
    v
}

/// The positions of matches.
pub open spec fn positions_of_spec(matches: Seq<MatchStrPos>) -> Seq<(usize, usize)> {
    Seq::new(matches.len(), |i: int| (matches[i].start, matches[i].end))
}

/// The rule `c-formats`: C placeholders of the translation that are not
/// those of the source.
#[derive(Clone, Copy, Debug)]
pub struct CFormatsRule;

impl RuleChecker for CFormatsRule {
    open spec fn label(&self) -> Seq<char> {
        "c-formats"@
    }

    open spec fn default_on(&self) -> bool {
        true
    }

    open spec fn checks(&self) -> bool {
        true
    }

    open spec fn level(&self) -> Severity {
        Severity::Error
    }

    open spec fn entry_findings(&self, scene: Scene, entry: EntryView) -> Seq<DiagnosticView> {
        Seq::empty()
    }

    open spec fn ctxt_findings(&self, scene: Scene, entry: EntryView, msgctxt: Seq<char>) -> Seq<
        DiagnosticView,
    > {
        Seq::empty()
    }

    /// In an entry with the C format language, the placeholders of the source
    /// and of the translation are put in order, by reordering index and
    /// then by position, and compared without their reordering indexes.
    /// Where they differ, `inconsistent C format strings` is reported, every
    /// placeholder highlighted.
    open spec fn msg_findings(
        &self,
        scene: Scene,
        entry: EntryView,
        msgid: Seq<char>,
        msgstr: Seq<char>,
    ) -> Seq<DiagnosticView> {
        let id_spans = c_formats_from(encode_utf8(msgid), 0);
        let str_spans = c_formats_from(encode_utf8(msgstr), 0);
        if entry.format_language == Language::C && stripped_formats(
            span_items(encode_utf8(msgid), id_spans),
        ) != stripped_formats(span_items(encode_utf8(msgstr), str_spans)) {
            seq![
                msg_diagnostic(
                    scene.stamp,
                    "inconsistent C format strings"@,
                    msgid,
                    highlights_of(id_spans),
                    msgstr,
                    highlights_of(str_spans),
                ),
            ]
        } else {
            Seq::empty()
        }
    }

    fn name(&self) -> (r: &'static str) {
        "c-formats"
    }

    fn is_default(&self) -> (r: bool) {
        true
    }

    fn is_check(&self) -> (r: bool) {
        true
    }

    fn severity(&self) -> (r: Severity) {
        Severity::Error
    }

    fn check_entry(&self, checker: &mut Checker, entry: &Entry) {
    }

    fn check_ctxt(&self, checker: &mut Checker, entry: &Entry, msgctxt: &str) {
    }

    fn check_msg(&self, checker: &mut Checker, entry: &Entry, msgid: &str, msgstr: &str) {
        if entry.format_language != Language::C {
            return;
        }
        let id_fmt = c_formats_in(msgid);
        let str_fmt = c_formats_in(msgstr);
        if !same_strings(&sorted_stripped(&id_fmt), &sorted_stripped(&str_fmt)) {
            let pos_id = positions_of(&id_fmt);
            let pos_str = positions_of(&str_fmt);
            checker.report_msg(
                entry,
                "inconsistent C format strings".to_owned(),
                msgid,
                pos_id.as_slice(),
                msgstr,
                pos_str.as_slice(),
            );
        }
    }
}

} // verus!
