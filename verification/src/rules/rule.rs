//! The contract of a rule, and the rules that are enabled.

use vstd::prelude::*;
use vstd::string::*;
use vstd::utf8::*;

use crate::args::CheckArgs;
use crate::ascii;
use crate::checker::{Checker, Scene};
use crate::diagnostic::{DiagnosticView, Severity};
use crate::po::entry::{Entry, EntryView};
use crate::rules::blank::BlankRule;
use crate::rules::brackets::BracketsRule;
use crate::rules::c_formats::CFormatsRule;
use crate::rules::changed::ChangedRule;
use crate::rules::double_quotes::DoubleQuotesRule;
use crate::rules::double_spaces::DoubleSpacesRule;
use crate::rules::encoding::EncodingRule;
use crate::rules::escapes::EscapesRule;
use crate::rules::formats::FormatsRule;
use crate::rules::fuzzy::FuzzyRule;
use crate::rules::long::LongRule;
use crate::rules::newlines::NewlinesRule;
use crate::rules::obsolete::ObsoleteRule;
use crate::rules::pipes::PipesRule;
use crate::rules::plurals::PluralsRule;
use crate::rules::punc::{PuncEndRule, PuncStartRule};
use crate::rules::short::ShortRule;
use crate::rules::spelling::{SpellingCtxtRule, SpellingIdRule, SpellingStrRule};
use crate::rules::tabs::TabsRule;
use crate::rules::unchanged::UnchangedRule;
use crate::rules::untranslated::UntranslatedRule;
use crate::rules::whitespace::{WhitespaceEndRule, WhitespaceStartRule};
use crate::text::{
    bytes_less, lemma_lex_total, lemma_lex_transitive, lemma_same_bytes_same_text, lex_less,
    split_trimmed, str_eq, texts, trimmed_parts,
};

verus! {

/// A check made on the entries of a catalog.
pub trait RuleChecker {
    /// The name of the rule.
    spec fn label(&self) -> Seq<char>;

    /// Whether the rule is enabled where no rule is selected.
    spec fn default_on(&self) -> bool;

    /// Whether the rule checks, rather than reports what an entry is.
    spec fn checks(&self) -> bool;

    /// The severity of what the rule reports.
    spec fn level(&self) -> Severity;

    /// What the rule reports on an entry as a whole.
    spec fn entry_findings(&self, scene: Scene, entry: EntryView) -> Seq<DiagnosticView>;

    /// What the rule reports on the context of an entry.
    spec fn ctxt_findings(&self, scene: Scene, entry: EntryView, msgctxt: Seq<char>) -> Seq<
        DiagnosticView,
    >;

    /// What the rule reports on a source string and its translation.
    spec fn msg_findings(
        &self,
        scene: Scene,
        entry: EntryView,
        msgid: Seq<char>,
        msgstr: Seq<char>,
    ) -> Seq<DiagnosticView>;

    /// Returns the name of the rule.
    fn name(&self) -> (r: &'static str)
        ensures
            r@ == self.label(),
    ;

    /// Tells whether the rule is enabled where no rule is selected.
    fn is_default(&self) -> (r: bool)
        ensures
            r == self.default_on(),
    ;

    /// Tells whether the rule checks, rather than reports what an entry is.
    fn is_check(&self) -> (r: bool)
        ensures
            r == self.checks(),
    ;

    /// Returns the severity of what the rule reports.
    fn severity(&self) -> (r: Severity)
        ensures
            r == self.level(),
    ;

    /// Checks an entry as a whole.
    fn check_entry(&self, checker: &mut Checker, entry: &Entry)
        ensures
            final(checker).reported(
                old(checker),
                self.entry_findings(old(checker).scene(), entry@),
            ),
    ;

    /// Checks the context of an entry.
    fn check_ctxt(&self, checker: &mut Checker, entry: &Entry, msgctxt: &str)
        ensures
            final(checker).reported(
                old(checker),
                self.ctxt_findings(old(checker).scene(), entry@, msgctxt@),
            ),
    ;

    /// Checks a source string and its translation.
    fn check_msg(&self, checker: &mut Checker, entry: &Entry, msgid: &str, msgstr: &str)
        ensures
            final(checker).reported(
                old(checker),
                self.msg_findings(old(checker).scene(), entry@, msgid@, msgstr@),
            ),
    ;
}

/// One of the rules.
#[derive(Clone, Copy, Debug)]
pub enum Rule {
    Blank(BlankRule),
    Brackets(BracketsRule),
    CFormats(CFormatsRule),
    Changed(ChangedRule),
    DoubleQuotes(DoubleQuotesRule),
    DoubleSpaces(DoubleSpacesRule),
    Encoding(EncodingRule),
    Escapes(EscapesRule),
    Formats(FormatsRule),
    Fuzzy(FuzzyRule),
    Long(LongRule),
    Newlines(NewlinesRule),
    Obsolete(ObsoleteRule),
    Pipes(PipesRule),
    Plurals(PluralsRule),
    PuncEnd(PuncEndRule),
    PuncStart(PuncStartRule),
    Short(ShortRule),
    SpellingCtxt(SpellingCtxtRule),
    SpellingId(SpellingIdRule),
    SpellingStr(SpellingStrRule),
    Tabs(TabsRule),
    Unchanged(UnchangedRule),
    Untranslated(UntranslatedRule),
    WhitespaceEnd(WhitespaceEndRule),
    WhitespaceStart(WhitespaceStartRule),
}

/// The name of a rule.
#[verifier::opaque]
pub open spec fn rule_label(rule: Rule) -> Seq<char> {
    match rule {
            Rule::Blank(r) => r.label(),
            Rule::Brackets(r) => r.label(),
            Rule::CFormats(r) => r.label(),
            Rule::Changed(r) => r.label(),
            Rule::DoubleQuotes(r) => r.label(),
            Rule::DoubleSpaces(r) => r.label(),
            Rule::Encoding(r) => r.label(),
            Rule::Escapes(r) => r.label(),
            Rule::Formats(r) => r.label(),
            Rule::Fuzzy(r) => r.label(),
            Rule::Long(r) => r.label(),
            Rule::Newlines(r) => r.label(),
            Rule::Obsolete(r) => r.label(),
            Rule::Pipes(r) => r.label(),
            Rule::Plurals(r) => r.label(),
            Rule::PuncEnd(r) => r.label(),
            Rule::PuncStart(r) => r.label(),
            Rule::Short(r) => r.label(),
            Rule::SpellingCtxt(r) => r.label(),
            Rule::SpellingId(r) => r.label(),
            Rule::SpellingStr(r) => r.label(),
            Rule::Tabs(r) => r.label(),
            Rule::Unchanged(r) => r.label(),
            Rule::Untranslated(r) => r.label(),
            Rule::WhitespaceEnd(r) => r.label(),
            Rule::WhitespaceStart(r) => r.label(),
    }
}

/// Whether a rule is enabled where no rule is selected.
#[verifier::opaque]
pub open spec fn rule_default_on(rule: Rule) -> bool {
    match rule {
            Rule::Blank(r) => r.default_on(),
            Rule::Brackets(r) => r.default_on(),
            Rule::CFormats(r) => r.default_on(),
            Rule::Changed(r) => r.default_on(),
            Rule::DoubleQuotes(r) => r.default_on(),
            Rule::DoubleSpaces(r) => r.default_on(),
            Rule::Encoding(r) => r.default_on(),
            Rule::Escapes(r) => r.default_on(),
            Rule::Formats(r) => r.default_on(),
            Rule::Fuzzy(r) => r.default_on(),
            Rule::Long(r) => r.default_on(),
            Rule::Newlines(r) => r.default_on(),
            Rule::Obsolete(r) => r.default_on(),
            Rule::Pipes(r) => r.default_on(),
            Rule::Plurals(r) => r.default_on(),
            Rule::PuncEnd(r) => r.default_on(),
            Rule::PuncStart(r) => r.default_on(),
            Rule::Short(r) => r.default_on(),
            Rule::SpellingCtxt(r) => r.default_on(),
            Rule::SpellingId(r) => r.default_on(),
            Rule::SpellingStr(r) => r.default_on(),
            Rule::Tabs(r) => r.default_on(),
            Rule::Unchanged(r) => r.default_on(),
            Rule::Untranslated(r) => r.default_on(),
            Rule::WhitespaceEnd(r) => r.default_on(),
            Rule::WhitespaceStart(r) => r.default_on(),
    }
}

/// Whether a rule checks, rather than reports what an entry is.
#[verifier::opaque]
pub open spec fn rule_checks(rule: Rule) -> bool {
    match rule {
            Rule::Blank(r) => r.checks(),
            Rule::Brackets(r) => r.checks(),
            Rule::CFormats(r) => r.checks(),
            Rule::Changed(r) => r.checks(),
            Rule::DoubleQuotes(r) => r.checks(),
            Rule::DoubleSpaces(r) => r.checks(),
            Rule::Encoding(r) => r.checks(),
            Rule::Escapes(r) => r.checks(),
            Rule::Formats(r) => r.checks(),
            Rule::Fuzzy(r) => r.checks(),
            Rule::Long(r) => r.checks(),
            Rule::Newlines(r) => r.checks(),
            Rule::Obsolete(r) => r.checks(),
            Rule::Pipes(r) => r.checks(),
            Rule::Plurals(r) => r.checks(),
            Rule::PuncEnd(r) => r.checks(),
            Rule::PuncStart(r) => r.checks(),
            Rule::Short(r) => r.checks(),
            Rule::SpellingCtxt(r) => r.checks(),
            Rule::SpellingId(r) => r.checks(),
            Rule::SpellingStr(r) => r.checks(),
            Rule::Tabs(r) => r.checks(),
            Rule::Unchanged(r) => r.checks(),
            Rule::Untranslated(r) => r.checks(),
            Rule::WhitespaceEnd(r) => r.checks(),
            Rule::WhitespaceStart(r) => r.checks(),
    }
}

/// The severity of what a rule reports.
#[verifier::opaque]
pub open spec fn rule_level(rule: Rule) -> Severity {
    match rule {
            Rule::Blank(r) => r.level(),
            Rule::Brackets(r) => r.level(),
            Rule::CFormats(r) => r.level(),
            Rule::Changed(r) => r.level(),
            Rule::DoubleQuotes(r) => r.level(),
            Rule::DoubleSpaces(r) => r.level(),
            Rule::Encoding(r) => r.level(),
            Rule::Escapes(r) => r.level(),
            Rule::Formats(r) => r.level(),
            Rule::Fuzzy(r) => r.level(),
            Rule::Long(r) => r.level(),
            Rule::Newlines(r) => r.level(),
            Rule::Obsolete(r) => r.level(),
            Rule::Pipes(r) => r.level(),
            Rule::Plurals(r) => r.level(),
            Rule::PuncEnd(r) => r.level(),
            Rule::PuncStart(r) => r.level(),
            Rule::Short(r) => r.level(),
            Rule::SpellingCtxt(r) => r.level(),
            Rule::SpellingId(r) => r.level(),
            Rule::SpellingStr(r) => r.level(),
            Rule::Tabs(r) => r.level(),
            Rule::Unchanged(r) => r.level(),
            Rule::Untranslated(r) => r.level(),
            Rule::WhitespaceEnd(r) => r.level(),
            Rule::WhitespaceStart(r) => r.level(),
    }
}

/// What a rule reports on an entry as a whole.
#[verifier::opaque]
pub open spec fn rule_entry_findings(rule: Rule, scene: Scene, entry: EntryView) -> Seq<
    DiagnosticView,
> {
    match rule {
            Rule::Blank(r) => r.entry_findings(scene, entry),
            Rule::Brackets(r) => r.entry_findings(scene, entry),
            Rule::CFormats(r) => r.entry_findings(scene, entry),
            Rule::Changed(r) => r.entry_findings(scene, entry),
            Rule::DoubleQuotes(r) => r.entry_findings(scene, entry),
            Rule::DoubleSpaces(r) => r.entry_findings(scene, entry),
            Rule::Encoding(r) => r.entry_findings(scene, entry),
            Rule::Escapes(r) => r.entry_findings(scene, entry),
            Rule::Formats(r) => r.entry_findings(scene, entry),
            Rule::Fuzzy(r) => r.entry_findings(scene, entry),
            Rule::Long(r) => r.entry_findings(scene, entry),
            Rule::Newlines(r) => r.entry_findings(scene, entry),
            Rule::Obsolete(r) => r.entry_findings(scene, entry),
            Rule::Pipes(r) => r.entry_findings(scene, entry),
            Rule::Plurals(r) => r.entry_findings(scene, entry),
            Rule::PuncEnd(r) => r.entry_findings(scene, entry),
            Rule::PuncStart(r) => r.entry_findings(scene, entry),
            Rule::Short(r) => r.entry_findings(scene, entry),
            Rule::SpellingCtxt(r) => r.entry_findings(scene, entry),
            Rule::SpellingId(r) => r.entry_findings(scene, entry),
            Rule::SpellingStr(r) => r.entry_findings(scene, entry),
            Rule::Tabs(r) => r.entry_findings(scene, entry),
            Rule::Unchanged(r) => r.entry_findings(scene, entry),
            Rule::Untranslated(r) => r.entry_findings(scene, entry),
            Rule::WhitespaceEnd(r) => r.entry_findings(scene, entry),
            Rule::WhitespaceStart(r) => r.entry_findings(scene, entry),
    }
}

/// What a rule reports on the context of an entry.
#[verifier::opaque]
pub open spec fn rule_ctxt_findings(
    rule: Rule,
    scene: Scene,
    entry: EntryView,
    msgctxt: Seq<char>,
) -> Seq<DiagnosticView> {
    match rule {
            Rule::Blank(r) => r.ctxt_findings(scene, entry, msgctxt),
            Rule::Brackets(r) => r.ctxt_findings(scene, entry, msgctxt),
            Rule::CFormats(r) => r.ctxt_findings(scene, entry, msgctxt),
            Rule::Changed(r) => r.ctxt_findings(scene, entry, msgctxt),
            Rule::DoubleQuotes(r) => r.ctxt_findings(scene, entry, msgctxt),
            Rule::DoubleSpaces(r) => r.ctxt_findings(scene, entry, msgctxt),
            Rule::Encoding(r) => r.ctxt_findings(scene, entry, msgctxt),
            Rule::Escapes(r) => r.ctxt_findings(scene, entry, msgctxt),
            Rule::Formats(r) => r.ctxt_findings(scene, entry, msgctxt),
            Rule::Fuzzy(r) => r.ctxt_findings(scene, entry, msgctxt),
            Rule::Long(r) => r.ctxt_findings(scene, entry, msgctxt),
            Rule::Newlines(r) => r.ctxt_findings(scene, entry, msgctxt),
            Rule::Obsolete(r) => r.ctxt_findings(scene, entry, msgctxt),
            Rule::Pipes(r) => r.ctxt_findings(scene, entry, msgctxt),
            Rule::Plurals(r) => r.ctxt_findings(scene, entry, msgctxt),
            Rule::PuncEnd(r) => r.ctxt_findings(scene, entry, msgctxt),
            Rule::PuncStart(r) => r.ctxt_findings(scene, entry, msgctxt),
            Rule::Short(r) => r.ctxt_findings(scene, entry, msgctxt),
            Rule::SpellingCtxt(r) => r.ctxt_findings(scene, entry, msgctxt),
            Rule::SpellingId(r) => r.ctxt_findings(scene, entry, msgctxt),
            Rule::SpellingStr(r) => r.ctxt_findings(scene, entry, msgctxt),
            Rule::Tabs(r) => r.ctxt_findings(scene, entry, msgctxt),
            Rule::Unchanged(r) => r.ctxt_findings(scene, entry, msgctxt),
            Rule::Untranslated(r) => r.ctxt_findings(scene, entry, msgctxt),
            Rule::WhitespaceEnd(r) => r.ctxt_findings(scene, entry, msgctxt),
            Rule::WhitespaceStart(r) => r.ctxt_findings(scene, entry, msgctxt),
    }
}

/// What a rule reports on a source string and its translation.
#[verifier::opaque]
pub open spec fn rule_msg_findings(
    rule: Rule,
    scene: Scene,
    entry: EntryView,
    msgid: Seq<char>,
    msgstr: Seq<char>,
) -> Seq<DiagnosticView> {
    match rule {
            Rule::Blank(r) => r.msg_findings(scene, entry, msgid, msgstr),
            Rule::Brackets(r) => r.msg_findings(scene, entry, msgid, msgstr),
            Rule::CFormats(r) => r.msg_findings(scene, entry, msgid, msgstr),
            Rule::Changed(r) => r.msg_findings(scene, entry, msgid, msgstr),
            Rule::DoubleQuotes(r) => r.msg_findings(scene, entry, msgid, msgstr),
            Rule::DoubleSpaces(r) => r.msg_findings(scene, entry, msgid, msgstr),
            Rule::Encoding(r) => r.msg_findings(scene, entry, msgid, msgstr),
            Rule::Escapes(r) => r.msg_findings(scene, entry, msgid, msgstr),
            Rule::Formats(r) => r.msg_findings(scene, entry, msgid, msgstr),
            Rule::Fuzzy(r) => r.msg_findings(scene, entry, msgid, msgstr),
            Rule::Long(r) => r.msg_findings(scene, entry, msgid, msgstr),
            Rule::Newlines(r) => r.msg_findings(scene, entry, msgid, msgstr),
            Rule::Obsolete(r) => r.msg_findings(scene, entry, msgid, msgstr),
            Rule::Pipes(r) => r.msg_findings(scene, entry, msgid, msgstr),
            Rule::Plurals(r) => r.msg_findings(scene, entry, msgid, msgstr),
            Rule::PuncEnd(r) => r.msg_findings(scene, entry, msgid, msgstr),
            Rule::PuncStart(r) => r.msg_findings(scene, entry, msgid, msgstr),
            Rule::Short(r) => r.msg_findings(scene, entry, msgid, msgstr),
            Rule::SpellingCtxt(r) => r.msg_findings(scene, entry, msgid, msgstr),
            Rule::SpellingId(r) => r.msg_findings(scene, entry, msgid, msgstr),
            Rule::SpellingStr(r) => r.msg_findings(scene, entry, msgid, msgstr),
            Rule::Tabs(r) => r.msg_findings(scene, entry, msgid, msgstr),
            Rule::Unchanged(r) => r.msg_findings(scene, entry, msgid, msgstr),
            Rule::Untranslated(r) => r.msg_findings(scene, entry, msgid, msgstr),
            Rule::WhitespaceEnd(r) => r.msg_findings(scene, entry, msgid, msgstr),
            Rule::WhitespaceStart(r) => r.msg_findings(scene, entry, msgid, msgstr),
    }
}

impl RuleChecker for Rule {
    open spec fn label(&self) -> Seq<char> {
        rule_label(*self)
    }

    open spec fn default_on(&self) -> bool {
        rule_default_on(*self)
    }

    open spec fn checks(&self) -> bool {
        rule_checks(*self)
    }

    open spec fn level(&self) -> Severity {
        rule_level(*self)
    }

    open spec fn entry_findings(&self, scene: Scene, entry: EntryView) -> Seq<DiagnosticView> {
        rule_entry_findings(*self, scene, entry)
    }

    open spec fn ctxt_findings(&self, scene: Scene, entry: EntryView, msgctxt: Seq<char>) -> Seq<
        DiagnosticView,
    > {
        rule_ctxt_findings(*self, scene, entry, msgctxt)
    }

    open spec fn msg_findings(
        &self,
        scene: Scene,
        entry: EntryView,
        msgid: Seq<char>,
        msgstr: Seq<char>,
    ) -> Seq<DiagnosticView> {
        rule_msg_findings(*self, scene, entry, msgid, msgstr)
    }

    fn name(&self) -> (r: &'static str) {
        proof {
            reveal(rule_label);
        }
        match self {
            Rule::Blank(r) => r.name(),
            Rule::Brackets(r) => r.name(),
            Rule::CFormats(r) => r.name(),
            Rule::Changed(r) => r.name(),
            Rule::DoubleQuotes(r) => r.name(),
            Rule::DoubleSpaces(r) => r.name(),
            Rule::Encoding(r) => r.name(),
            Rule::Escapes(r) => r.name(),
            Rule::Formats(r) => r.name(),
            Rule::Fuzzy(r) => r.name(),
            Rule::Long(r) => r.name(),
            Rule::Newlines(r) => r.name(),
            Rule::Obsolete(r) => r.name(),
            Rule::Pipes(r) => r.name(),
            Rule::Plurals(r) => r.name(),
            Rule::PuncEnd(r) => r.name(),
            Rule::PuncStart(r) => r.name(),
            Rule::Short(r) => r.name(),
            Rule::SpellingCtxt(r) => r.name(),
            Rule::SpellingId(r) => r.name(),
            Rule::SpellingStr(r) => r.name(),
            Rule::Tabs(r) => r.name(),
            Rule::Unchanged(r) => r.name(),
            Rule::Untranslated(r) => r.name(),
            Rule::WhitespaceEnd(r) => r.name(),
            Rule::WhitespaceStart(r) => r.name(),
        }
    }

    fn is_default(&self) -> (r: bool) {
        proof {
            reveal(rule_default_on);
        }
        match self {
            Rule::Blank(r) => r.is_default(),
            Rule::Brackets(r) => r.is_default(),
            Rule::CFormats(r) => r.is_default(),
            Rule::Changed(r) => r.is_default(),
            Rule::DoubleQuotes(r) => r.is_default(),
            Rule::DoubleSpaces(r) => r.is_default(),
            Rule::Encoding(r) => r.is_default(),
            Rule::Escapes(r) => r.is_default(),
            Rule::Formats(r) => r.is_default(),
            Rule::Fuzzy(r) => r.is_default(),
            Rule::Long(r) => r.is_default(),
            Rule::Newlines(r) => r.is_default(),
            Rule::Obsolete(r) => r.is_default(),
            Rule::Pipes(r) => r.is_default(),
            Rule::Plurals(r) => r.is_default(),
            Rule::PuncEnd(r) => r.is_default(),
            Rule::PuncStart(r) => r.is_default(),
            Rule::Short(r) => r.is_default(),
            Rule::SpellingCtxt(r) => r.is_default(),
            Rule::SpellingId(r) => r.is_default(),
            Rule::SpellingStr(r) => r.is_default(),
            Rule::Tabs(r) => r.is_default(),
            Rule::Unchanged(r) => r.is_default(),
            Rule::Untranslated(r) => r.is_default(),
            Rule::WhitespaceEnd(r) => r.is_default(),
            Rule::WhitespaceStart(r) => r.is_default(),
        }
    }

    fn is_check(&self) -> (r: bool) {
        proof {
            reveal(rule_checks);
        }
        match self {
            Rule::Blank(r) => r.is_check(),
            Rule::Brackets(r) => r.is_check(),
            Rule::CFormats(r) => r.is_check(),
            Rule::Changed(r) => r.is_check(),
            Rule::DoubleQuotes(r) => r.is_check(),
            Rule::DoubleSpaces(r) => r.is_check(),
            Rule::Encoding(r) => r.is_check(),
            Rule::Escapes(r) => r.is_check(),
            Rule::Formats(r) => r.is_check(),
            Rule::Fuzzy(r) => r.is_check(),
            Rule::Long(r) => r.is_check(),
            Rule::Newlines(r) => r.is_check(),
            Rule::Obsolete(r) => r.is_check(),
            Rule::Pipes(r) => r.is_check(),
            Rule::Plurals(r) => r.is_check(),
            Rule::PuncEnd(r) => r.is_check(),
            Rule::PuncStart(r) => r.is_check(),
            Rule::Short(r) => r.is_check(),
            Rule::SpellingCtxt(r) => r.is_check(),
            Rule::SpellingId(r) => r.is_check(),
            Rule::SpellingStr(r) => r.is_check(),
            Rule::Tabs(r) => r.is_check(),
            Rule::Unchanged(r) => r.is_check(),
            Rule::Untranslated(r) => r.is_check(),
            Rule::WhitespaceEnd(r) => r.is_check(),
            Rule::WhitespaceStart(r) => r.is_check(),
        }
    }

    fn severity(&self) -> (r: Severity) {
        proof {
            reveal(rule_level);
        }
        match self {
            Rule::Blank(r) => r.severity(),
            Rule::Brackets(r) => r.severity(),
            Rule::CFormats(r) => r.severity(),
            Rule::Changed(r) => r.severity(),
            Rule::DoubleQuotes(r) => r.severity(),
            Rule::DoubleSpaces(r) => r.severity(),
            Rule::Encoding(r) => r.severity(),
            Rule::Escapes(r) => r.severity(),
            Rule::Formats(r) => r.severity(),
            Rule::Fuzzy(r) => r.severity(),
            Rule::Long(r) => r.severity(),
            Rule::Newlines(r) => r.severity(),
            Rule::Obsolete(r) => r.severity(),
            Rule::Pipes(r) => r.severity(),
            Rule::Plurals(r) => r.severity(),
            Rule::PuncEnd(r) => r.severity(),
            Rule::PuncStart(r) => r.severity(),
            Rule::Short(r) => r.severity(),
            Rule::SpellingCtxt(r) => r.severity(),
            Rule::SpellingId(r) => r.severity(),
            Rule::SpellingStr(r) => r.severity(),
            Rule::Tabs(r) => r.severity(),
            Rule::Unchanged(r) => r.severity(),
            Rule::Untranslated(r) => r.severity(),
            Rule::WhitespaceEnd(r) => r.severity(),
            Rule::WhitespaceStart(r) => r.severity(),
        }
    }

    fn check_entry(&self, checker: &mut Checker, entry: &Entry) {
        proof {
            reveal(rule_entry_findings);
        }
        match self {
            Rule::Blank(r) => r.check_entry(checker, entry),
            Rule::Brackets(r) => r.check_entry(checker, entry),
            Rule::CFormats(r) => r.check_entry(checker, entry),
            Rule::Changed(r) => r.check_entry(checker, entry),
            Rule::DoubleQuotes(r) => r.check_entry(checker, entry),
            Rule::DoubleSpaces(r) => r.check_entry(checker, entry),
            Rule::Encoding(r) => r.check_entry(checker, entry),
            Rule::Escapes(r) => r.check_entry(checker, entry),
            Rule::Formats(r) => r.check_entry(checker, entry),
            Rule::Fuzzy(r) => r.check_entry(checker, entry),
            Rule::Long(r) => r.check_entry(checker, entry),
            Rule::Newlines(r) => r.check_entry(checker, entry),
            Rule::Obsolete(r) => r.check_entry(checker, entry),
            Rule::Pipes(r) => r.check_entry(checker, entry),
            Rule::Plurals(r) => r.check_entry(checker, entry),
            Rule::PuncEnd(r) => r.check_entry(checker, entry),
            Rule::PuncStart(r) => r.check_entry(checker, entry),
            Rule::Short(r) => r.check_entry(checker, entry),
            Rule::SpellingCtxt(r) => r.check_entry(checker, entry),
            Rule::SpellingId(r) => r.check_entry(checker, entry),
            Rule::SpellingStr(r) => r.check_entry(checker, entry),
            Rule::Tabs(r) => r.check_entry(checker, entry),
            Rule::Unchanged(r) => r.check_entry(checker, entry),
            Rule::Untranslated(r) => r.check_entry(checker, entry),
            Rule::WhitespaceEnd(r) => r.check_entry(checker, entry),
            Rule::WhitespaceStart(r) => r.check_entry(checker, entry),
        }
    }

    fn check_ctxt(&self, checker: &mut Checker, entry: &Entry, msgctxt: &str) {
        proof {
            reveal(rule_ctxt_findings);
        }
        match self {
            Rule::Blank(r) => r.check_ctxt(checker, entry, msgctxt),
            Rule::Brackets(r) => r.check_ctxt(checker, entry, msgctxt),
            Rule::CFormats(r) => r.check_ctxt(checker, entry, msgctxt),
            Rule::Changed(r) => r.check_ctxt(checker, entry, msgctxt),
            Rule::DoubleQuotes(r) => r.check_ctxt(checker, entry, msgctxt),
            Rule::DoubleSpaces(r) => r.check_ctxt(checker, entry, msgctxt),
            Rule::Encoding(r) => r.check_ctxt(checker, entry, msgctxt),
            Rule::Escapes(r) => r.check_ctxt(checker, entry, msgctxt),
            Rule::Formats(r) => r.check_ctxt(checker, entry, msgctxt),
            Rule::Fuzzy(r) => r.check_ctxt(checker, entry, msgctxt),
            Rule::Long(r) => r.check_ctxt(checker, entry, msgctxt),
            Rule::Newlines(r) => r.check_ctxt(checker, entry, msgctxt),
            Rule::Obsolete(r) => r.check_ctxt(checker, entry, msgctxt),
            Rule::Pipes(r) => r.check_ctxt(checker, entry, msgctxt),
            Rule::Plurals(r) => r.check_ctxt(checker, entry, msgctxt),
            Rule::PuncEnd(r) => r.check_ctxt(checker, entry, msgctxt),
            Rule::PuncStart(r) => r.check_ctxt(checker, entry, msgctxt),
            Rule::Short(r) => r.check_ctxt(checker, entry, msgctxt),
            Rule::SpellingCtxt(r) => r.check_ctxt(checker, entry, msgctxt),
            Rule::SpellingId(r) => r.check_ctxt(checker, entry, msgctxt),
            Rule::SpellingStr(r) => r.check_ctxt(checker, entry, msgctxt),
            Rule::Tabs(r) => r.check_ctxt(checker, entry, msgctxt),
            Rule::Unchanged(r) => r.check_ctxt(checker, entry, msgctxt),
            Rule::Untranslated(r) => r.check_ctxt(checker, entry, msgctxt),
            Rule::WhitespaceEnd(r) => r.check_ctxt(checker, entry, msgctxt),
            Rule::WhitespaceStart(r) => r.check_ctxt(checker, entry, msgctxt),
        }
    }

    fn check_msg(&self, checker: &mut Checker, entry: &Entry, msgid: &str, msgstr: &str) {
        proof {
            reveal(rule_msg_findings);
        }
        match self {
            Rule::Blank(r) => r.check_msg(checker, entry, msgid, msgstr),
            Rule::Brackets(r) => r.check_msg(checker, entry, msgid, msgstr),
            Rule::CFormats(r) => r.check_msg(checker, entry, msgid, msgstr),
            Rule::Changed(r) => r.check_msg(checker, entry, msgid, msgstr),
            Rule::DoubleQuotes(r) => r.check_msg(checker, entry, msgid, msgstr),
            Rule::DoubleSpaces(r) => r.check_msg(checker, entry, msgid, msgstr),
            Rule::Encoding(r) => r.check_msg(checker, entry, msgid, msgstr),
            Rule::Escapes(r) => r.check_msg(checker, entry, msgid, msgstr),
            Rule::Formats(r) => r.check_msg(checker, entry, msgid, msgstr),
            Rule::Fuzzy(r) => r.check_msg(checker, entry, msgid, msgstr),
            Rule::Long(r) => r.check_msg(checker, entry, msgid, msgstr),
            Rule::Newlines(r) => r.check_msg(checker, entry, msgid, msgstr),
            Rule::Obsolete(r) => r.check_msg(checker, entry, msgid, msgstr),
            Rule::Pipes(r) => r.check_msg(checker, entry, msgid, msgstr),
            Rule::Plurals(r) => r.check_msg(checker, entry, msgid, msgstr),
            Rule::PuncEnd(r) => r.check_msg(checker, entry, msgid, msgstr),
            Rule::PuncStart(r) => r.check_msg(checker, entry, msgid, msgstr),
            Rule::Short(r) => r.check_msg(checker, entry, msgid, msgstr),
            Rule::SpellingCtxt(r) => r.check_msg(checker, entry, msgid, msgstr),
            Rule::SpellingId(r) => r.check_msg(checker, entry, msgid, msgstr),
            Rule::SpellingStr(r) => r.check_msg(checker, entry, msgid, msgstr),
            Rule::Tabs(r) => r.check_msg(checker, entry, msgid, msgstr),
            Rule::Unchanged(r) => r.check_msg(checker, entry, msgid, msgstr),
            Rule::Untranslated(r) => r.check_msg(checker, entry, msgid, msgstr),
            Rule::WhitespaceEnd(r) => r.check_msg(checker, entry, msgid, msgstr),
            Rule::WhitespaceStart(r) => r.check_msg(checker, entry, msgid, msgstr),
        }
    }
}

/// True when a rule with the given name is among `rules`.
pub open spec fn has_rule(rules: Seq<Rule>, name: Seq<char>) -> bool {
    exists|i: int| 0 <= i < rules.len() && (#[trigger] rules[i]).label() == name
}

/// Tells whether a rule with the given name is among `rules`.
fn contains_rule(rules: &Vec<Rule>, name: &str) -> (r: bool)
    ensures
        r == has_rule(rules@, name@),
{
    let mut i: usize = 0;
    while i < rules.len()
        invariant
            i <= rules@.len(),
            forall|k: int| 0 <= k < i ==> (#[trigger] rules@[k]).label() != name@,
        decreases rules@.len() - i,
    {
        if str_eq(rules[i].name(), name) {
            return true;
        }
        i += 1;
    }
    false
}

/// The rules that are enabled, with what the checker asks of them at each
/// entry.
#[derive(Debug)]
pub struct Rules {
    pub enabled: Vec<Rule>,
    pub fuzzy_rule: bool,
    pub obsolete_rule: bool,
    pub untranslated_rule: bool,
    pub spelling_ctxt_rule: bool,
    pub spelling_id_rule: bool,
    pub spelling_str_rule: bool,
}

impl Rules {
    /// True when the flags say which of the rules that the checker asks
    /// about are enabled.
    pub open spec fn flags_fit(&self) -> bool {
        &&& self.fuzzy_rule == has_rule(self.enabled@, "fuzzy"@)
        &&& self.obsolete_rule == has_rule(self.enabled@, "obsolete"@)
        &&& self.untranslated_rule == has_rule(self.enabled@, "untranslated"@)
        &&& self.spelling_ctxt_rule == has_rule(self.enabled@, "spelling-ctxt"@)
        &&& self.spelling_id_rule == has_rule(self.enabled@, "spelling-id"@)
        &&& self.spelling_str_rule == has_rule(self.enabled@, "spelling-str"@)
    }

    /// Makes the set of enabled rules from a list of rules.
    pub fn new(rules: Vec<Rule>) -> (r: Self)
        ensures
            r.enabled@ == rules@,
            r.flags_fit(),
    {
        let fuzzy_rule = contains_rule(&rules, "fuzzy");
        let obsolete_rule = contains_rule(&rules, "obsolete");
        let untranslated_rule = contains_rule(&rules, "untranslated");
        let spelling_ctxt_rule = contains_rule(&rules, "spelling-ctxt");
        let spelling_id_rule = contains_rule(&rules, "spelling-id");
        let spelling_str_rule = contains_rule(&rules, "spelling-str");
        Self {
            enabled: rules,
            fuzzy_rule,
            obsolete_rule,
            untranslated_rule,
            spelling_ctxt_rule,
            spelling_id_rule,
            spelling_str_rule,
        }
    }
}

impl Default for Rules {
    fn default() -> (r: Self)
        ensures
            r.enabled@.len() == 0,
            r.flags_fit(),
    {
        Rules::new(Vec::new())
    }
}

/// All the rules, in the order in which they check an entry.
pub open spec fn catalog() -> Seq<Rule> {
    seq![
        Rule::Blank(BlankRule),
        Rule::Brackets(BracketsRule),
        Rule::CFormats(CFormatsRule),
        Rule::Changed(ChangedRule),
        Rule::DoubleQuotes(DoubleQuotesRule),
        Rule::DoubleSpaces(DoubleSpacesRule),
        Rule::Encoding(EncodingRule),
        Rule::Escapes(EscapesRule),
        Rule::Formats(FormatsRule),
        Rule::Fuzzy(FuzzyRule),
        Rule::Long(LongRule),
        Rule::Newlines(NewlinesRule),
        Rule::Obsolete(ObsoleteRule),
        Rule::Pipes(PipesRule),
        Rule::Plurals(PluralsRule),
        Rule::PuncEnd(PuncEndRule),
        Rule::PuncStart(PuncStartRule),
        Rule::Short(ShortRule),
        Rule::SpellingCtxt(SpellingCtxtRule),
        Rule::SpellingId(SpellingIdRule),
        Rule::SpellingStr(SpellingStrRule),
        Rule::Tabs(TabsRule),
        Rule::Unchanged(UnchangedRule),
        Rule::Untranslated(UntranslatedRule),
        Rule::WhitespaceEnd(WhitespaceEndRule),
        Rule::WhitespaceStart(WhitespaceStartRule),
    ]
}

/// Returns all the rules, in the order in which they check an entry.
pub fn get_all_rules() -> (v: Vec<Rule>)
    ensures
        v@ == catalog(),
{
    let mut v: Vec<Rule> = Vec::new();
    v.push(Rule::Blank(BlankRule));
    v.push(Rule::Brackets(BracketsRule));
    v.push(Rule::CFormats(CFormatsRule));
    v.push(Rule::Changed(ChangedRule));
    v.push(Rule::DoubleQuotes(DoubleQuotesRule));
    v.push(Rule::DoubleSpaces(DoubleSpacesRule));
    v.push(Rule::Encoding(EncodingRule));
    v.push(Rule::Escapes(EscapesRule));
    v.push(Rule::Formats(FormatsRule));
    v.push(Rule::Fuzzy(FuzzyRule));
    v.push(Rule::Long(LongRule));
    v.push(Rule::Newlines(NewlinesRule));
    v.push(Rule::Obsolete(ObsoleteRule));
    v.push(Rule::Pipes(PipesRule));
    v.push(Rule::Plurals(PluralsRule));
    v.push(Rule::PuncEnd(PuncEndRule));
    v.push(Rule::PuncStart(PuncStartRule));
    v.push(Rule::Short(ShortRule));
    v.push(Rule::SpellingCtxt(SpellingCtxtRule));
    v.push(Rule::SpellingId(SpellingIdRule));
    v.push(Rule::SpellingStr(SpellingStrRule));
    v.push(Rule::Tabs(TabsRule));
    v.push(Rule::Unchanged(UnchangedRule));
    v.push(Rule::Untranslated(UntranslatedRule));
    v.push(Rule::WhitespaceEnd(WhitespaceEndRule));
    v.push(Rule::WhitespaceStart(WhitespaceStartRule));
    assert(v@ =~= catalog());
    v
}

/// True for a name that selects several rules: it is known whatever the
/// rules are.
pub open spec fn is_special(name: Seq<char>) -> bool {
    name == "all"@ || name == "checks"@
}

/// True for a name that is neither the name of a rule nor a special name.
pub open spec fn is_unknown(name: Seq<char>, known: Seq<Seq<char>>) -> bool {
    !known.contains(name) && !is_special(name)
}

/// True when `unknown` lists the unknown names of `names`, each once, in
/// the order of their bytes.
pub open spec fn lists_unknown(
    unknown: Seq<Seq<char>>,
    names: Seq<Seq<char>>,
    known: Seq<Seq<char>>,
) -> bool {
    &&& forall|i: int|
        0 <= i < unknown.len() ==> names.contains(#[trigger] unknown[i]) && is_unknown(
            unknown[i],
            known,
        )
    &&& forall|k: int|
        0 <= k < names.len() && is_unknown(#[trigger] names[k], known) ==> unknown.contains(
            names[k],
        )
    &&& forall|i: int, j: int|
        0 <= i < j < unknown.len() ==> lex_less(
            encode_utf8(#[trigger] unknown[i]),
            encode_utf8(#[trigger] unknown[j]),
        )
}

/// The special names are known whatever the rules are: a list of unknown
/// names never holds them.
pub proof fn lemma_special_names_are_known(
    unknown: Seq<Seq<char>>,
    names: Seq<Seq<char>>,
    known: Seq<Seq<char>>,
)
    requires
        lists_unknown(unknown, names, known),
    ensures
        !unknown.contains("all"@),
        !unknown.contains("checks"@),
{
    if unknown.contains("all"@) {
        let i = choose|i: int| 0 <= i < unknown.len() && unknown[i] == "all"@;
        assert(is_unknown(unknown[i], known));
    }
    if unknown.contains("checks"@) {
        let i = choose|i: int| 0 <= i < unknown.len() && unknown[i] == "checks"@;
        assert(is_unknown(unknown[i], known));
    }
}

/// The names of a list of rules.
pub open spec fn labels(rules: Seq<Rule>) -> Seq<Seq<char>> {
    Seq::new(rules.len(), |i: int| rules[i].label())
}

/// The texts of a list of names.
pub open spec fn name_texts(names: Seq<&'static str>) -> Seq<Seq<char>> {
    Seq::new(names.len(), |i: int| names[i]@)
}

/// Tells whether a name is in a list of strings.
fn is_listed(names: &Vec<String>, name: &str) -> (r: bool)
    ensures
        r == texts(names@).contains(name@),
{
    let mut i: usize = 0;
    while i < names.len()
        invariant
            i <= names@.len(),
            forall|k: int| 0 <= k < i ==> texts(names@)[k] != name@,
        decreases names@.len() - i,
    {
        if str_eq(names[i].as_str(), name) {
            assert(texts(names@)[i as int] == name@);
            return true;
        }
        i += 1;
    }
    false
}

/// Tells whether a name is the name of one of the rules.
fn is_rule_name(all_rules_names: &Vec<&'static str>, name: &str) -> (r: bool)
    ensures
        r == name_texts(all_rules_names@).contains(name@),
{
    let mut i: usize = 0;
    while i < all_rules_names.len()
        invariant
            i <= all_rules_names@.len(),
            forall|k: int| 0 <= k < i ==> name_texts(all_rules_names@)[k] != name@,
        decreases all_rules_names@.len() - i,
    {
        if str_eq(all_rules_names[i], name) {
            assert(name_texts(all_rules_names@)[i as int] == name@);
            return true;
        }
        i += 1;
    }
    false
}

/// Returns the names of `names` that are neither the name of a rule nor a
/// special name, each once, in the order of their bytes.
pub fn get_unknown_rules(names: &Vec<String>, all_rules_names: &Vec<&'static str>) -> (unknown:
    Vec<String>)
    ensures
        lists_unknown(texts(unknown@), texts(names@), name_texts(all_rules_names@)),
{
    let ghost known = name_texts(all_rules_names@);
    let ghost wanted = texts(names@);
    let mut unknown: Vec<String> = Vec::new();
    let mut k: usize = 0;
    while k < names.len()
        invariant
            k <= names@.len(),
            known == name_texts(all_rules_names@),
            wanted == texts(names@),
            forall|i: int|
                0 <= i < unknown@.len() ==> wanted.contains(#[trigger] texts(unknown@)[i])
                    && is_unknown(texts(unknown@)[i], known),
            forall|m: int|
                0 <= m < k && is_unknown(#[trigger] wanted[m], known) ==> texts(
                    unknown@,
                ).contains(wanted[m]),
            forall|i: int, j: int|
                0 <= i < j < unknown@.len() ==> lex_less(
                    encode_utf8(#[trigger] texts(unknown@)[i]),
                    encode_utf8(#[trigger] texts(unknown@)[j]),
                ),
        decreases names@.len() - k,
    {
        let name = names[k].as_str();
        assert(wanted[k as int] == name@);
        let ghost before = texts(unknown@);
        if !is_rule_name(all_rules_names, name) && !str_eq(name, "all") && !str_eq(name, "checks") {
            let mut p: usize = 0;
            while p < unknown.len() && bytes_less(unknown[p].as_str().as_bytes(), name.as_bytes())
                invariant
                    p <= unknown@.len(),
                    before == texts(unknown@),
                    forall|q: int|
                        0 <= q < p ==> lex_less(
                            encode_utf8(#[trigger] before[q]),
                            encode_utf8(name@),
                        ),
                decreases unknown@.len() - p,
            {
                assert(before[p as int] == unknown@[p as int]@);
                p += 1;
            }
            if p < unknown.len() && str_eq(unknown[p].as_str(), name) {
                assert(before[p as int] == name@);
                assert(before.contains(name@));
            } else {
                proof {
                    if p < before.len() {
                        assert(before[p as int] == unknown@[p as int]@);
                        lemma_lex_total(encode_utf8(before[p as int]), encode_utf8(name@));
                        if encode_utf8(before[p as int]) == encode_utf8(name@) {
                            lemma_same_bytes_same_text(before[p as int], name@);
                        }
                    }
                }
                unknown.insert(p, name.to_owned());
                proof {
                    let after = texts(unknown@);
                    assert(after =~= before.subrange(0, p as int).push(name@) + before.subrange(
                        p as int,
                        before.len() as int,
                    ));
                    assert(after[p as int] == name@);
                    assert forall|i: int| 0 <= i < after.len() implies wanted.contains(
                        #[trigger] after[i],
                    ) && is_unknown(after[i], known) by {
                        if i < p {
                            assert(after[i] == before[i]);
                        } else if i > p {
                            assert(after[i] == before[i - 1]);
                        }
                    }
                    assert forall|m: int|
                        0 <= m < k + 1 && is_unknown(
                            #[trigger] wanted[m],
                            known,
                        ) implies after.contains(wanted[m]) by {
                        if m < k {
                            let at = choose|at: int|
                                0 <= at < before.len() && before[at] == wanted[m];
                            if at < p {
                                assert(after[at] == wanted[m]);
                            } else {
                                assert(after[at + 1] == wanted[m]);
                            }
                        }
                    }
                    assert forall|i: int, j: int| 0 <= i < j < after.len() implies lex_less(
                        encode_utf8(#[trigger] after[i]),
                        encode_utf8(#[trigger] after[j]),
                    ) by {
                        if j < p {
                            assert(after[i] == before[i] && after[j] == before[j]);
                        } else if j == p {
                            assert(after[i] == before[i]);
                        } else if i < p {
                            assert(after[i] == before[i] && after[j] == before[j - 1]);
                            if j - 1 > p {
                                assert(lex_less(
                                    encode_utf8(before[i]),
                                    encode_utf8(before[j - 1]),
                                ));
                            }
                        } else if i == p {
                            assert(after[j] == before[j - 1]);
                            if j - 1 > p {
                                assert(lex_less(
                                    encode_utf8(before[p as int]),
                                    encode_utf8(before[j - 1]),
                                ));
                                lemma_lex_transitive(
                                    encode_utf8(name@),
                                    encode_utf8(before[p as int]),
                                    encode_utf8(before[j - 1]),
                                );
                            }
                        } else {
                            assert(after[i] == before[i - 1] && after[j] == before[j - 1]);
                        }
                    }
                }
            }
        }
        k += 1;
    }
    unknown
}

/// The ways in which rules are picked from a list.
#[derive(Clone, Copy, Debug, PartialEq, Eq, Structural)]
pub enum Pick {
    /// The rules with one of the given severities, or all where none is
    /// given.
    Severity,
    /// The rules that are enabled where no rule is selected.
    Default,
    /// The rules that check.
    Checks,
    /// The rules with one of the given names.
    Named,
    /// The rules with none of the given names.
    NotNamed,
}

/// True when a rule is picked.
pub open spec fn picked(
    how: Pick,
    severities: Seq<Severity>,
    names: Seq<Seq<char>>,
    rule: Rule,
) -> bool {
    match how {
        Pick::Severity => severities.len() == 0 || severities.contains(rule.level()),
        Pick::Default => rule.default_on(),
        Pick::Checks => rule.checks(),
        Pick::Named => names.contains(rule.label()),
        Pick::NotNamed => !names.contains(rule.label()),
    }
}

/// The rules of a list that are picked, in the order of the list.
pub open spec fn kept(
    rules: Seq<Rule>,
    how: Pick,
    severities: Seq<Severity>,
    names: Seq<Seq<char>>,
) -> Seq<Rule>
    decreases rules.len(),
{
    if rules.len() == 0 {
        Seq::empty()
    } else {
        let rest = kept(rules.drop_last(), how, severities, names);
        if picked(how, severities, names, rules.last()) {
            rest.push(rules.last())
        } else {
            rest
        }
    }
}

/// Tells whether a severity is in a list.
fn has_severity(severities: &Vec<Severity>, severity: Severity) -> (r: bool)
    ensures
        r == severities@.contains(severity),
{
    let mut i: usize = 0;
    while i < severities.len()
        invariant
            i <= severities@.len(),
            forall|k: int| 0 <= k < i ==> severities@[k] != severity,
        decreases severities@.len() - i,
    {
        if severities[i] == severity {
            return true;
        }
        i += 1;
    }
    false
}

/// Returns the rules of a list that are picked, in the order of the list.
fn keep_rules(rules: &Vec<Rule>, how: Pick, severities: &Vec<Severity>, names: &Vec<String>) -> (v:
    Vec<Rule>)
    ensures
        v@ == kept(rules@, how, severities@, texts(names@)),
{
    let mut v: Vec<Rule> = Vec::new();
    let mut i: usize = 0;
    assert(rules@.subrange(0, 0) =~= Seq::empty());
    while i < rules.len()
        invariant
            i <= rules@.len(),
            v@ == kept(rules@.subrange(0, i as int), how, severities@, texts(names@)),
        decreases rules@.len() - i,
    {
        let rule = rules[i];
        let take = match how {
            Pick::Severity => severities.len() == 0 || has_severity(severities, rule.severity()),
            Pick::Default => rule.is_default(),
            Pick::Checks => rule.is_check(),
            Pick::Named => is_listed(names, rule.name()),
            Pick::NotNamed => !is_listed(names, rule.name()),
        };
        proof {
            let next = rules@.subrange(0, i + 1);
            assert(next.drop_last() =~= rules@.subrange(0, i as int));
            assert(next.last() == rule);
        }
        if take {
            v.push(rule);
        }
        i += 1;
    }
    assert(rules@.subrange(0, i as int) =~= rules@);
    v
}

/// The names that a list separated by commas gives.
pub open spec fn listed(list: Seq<char>) -> Seq<Seq<char>> {
    trimmed_parts(encode_utf8(list), 0, ascii::COMMA)
}

/// True when one of the names is unknown.
pub open spec fn has_unknown(names: Seq<Seq<char>>, known: Seq<Seq<char>>) -> bool {
    exists|k: int| 0 <= k < names.len() && is_unknown(#[trigger] names[k], known)
}

/// The rules among which rules are selected: those with one of the given
/// severities.
pub open spec fn candidates(severities: Seq<Severity>) -> Seq<Rule> {
    kept(catalog(), Pick::Severity, severities, Seq::empty())
}

/// The rules that a selection gives: the default rules where nothing is
/// selected; all the candidates for `all`; those that check for `checks`;
/// else the rules that are named.
pub open spec fn selected_rules(select: Option<Seq<char>>, severities: Seq<Severity>) -> Seq<Rule> {
    let all = candidates(severities);
    match select {
        Some(list) => {
            let names = listed(list);
            if names.contains("all"@) {
                all
            } else if names.contains("checks"@) {
                kept(all, Pick::Checks, severities, names)
            } else {
                kept(all, Pick::Named, severities, names)
            }
        },
        None => kept(all, Pick::Default, severities, Seq::empty()),
    }
}

/// The rules that are enabled: those selected, without those ignored.
pub open spec fn enabled_rules(
    select: Option<Seq<char>>,
    ignore: Option<Seq<char>>,
    severities: Seq<Severity>,
) -> Seq<Rule> {
    match ignore {
        Some(list) => kept(
            selected_rules(select, severities),
            Pick::NotNamed,
            severities,
            listed(list),
        ),
        None => selected_rules(select, severities),
    }
}

/// Why a selection of rules is refused.
#[derive(Debug, PartialEq, Eq)]
pub enum SelectionError {
    /// Names given to select rules that are not names of rules.
    UnknownSelected(Vec<String>),
    /// Names given to ignore rules that are not names of rules.
    UnknownIgnored(Vec<String>),
}

/// The texts of a list put together, with `, ` between them.
pub open spec fn joined(parts: Seq<Seq<char>>) -> Seq<char>
    decreases parts.len(),
{
    if parts.len() == 0 {
        Seq::empty()
    } else if parts.len() == 1 {
        parts[0]
    } else {
        joined(parts.drop_last()) + ", "@ + parts.last()
    }
}

impl SelectionError {
    /// What the error says.
    pub open spec fn text(&self) -> Seq<char> {
        match self {
            SelectionError::UnknownSelected(names) => "unknown selected rules: "@ + joined(
                texts(names@),
            ),
            SelectionError::UnknownIgnored(names) => "unknown rules to ignore: "@ + joined(
                texts(names@),
            ),
        }
    }

    /// Returns what the error says, with the names that are unknown.
    pub fn message(&self) -> (r: String)
        ensures
            r@ == self.text(),
    {
        let (mut r, names) = match self {
            SelectionError::UnknownSelected(names) => (
                "unknown selected rules: ".to_owned(),
                names,
            ),
            SelectionError::UnknownIgnored(names) => (
                "unknown rules to ignore: ".to_owned(),
                names,
            ),
        };
        let ghost head = r@;
        let mut i: usize = 0;
        assert(texts(names@).subrange(0, 0) =~= Seq::empty());
        while i < names.len()
            invariant
                i <= names@.len(),
                r@ == head + joined(texts(names@).subrange(0, i as int)),
            decreases names@.len() - i,
        {
            let ghost before = r@;
            if i > 0 {
                r.append(", ");
            }
            r.append(names[i].as_str());
            proof {
                let next = texts(names@).subrange(0, i + 1);
                assert(next.drop_last() =~= texts(names@).subrange(0, i as int));
                assert(next.last() == names@[i as int]@);
                if i == 0 {
                    assert(r@ =~= head + joined(next));
                } else {
                    assert(r@ =~= head + joined(next));
                }
            }
            i += 1;
        }
        assert(texts(names@).subrange(0, i as int) =~= texts(names@));
        r
    }
}

/// What goes wrong, if anything, with names given for rules: nothing where
/// they are all known.
fn check_names(names: &Vec<String>, all_rules_names: &Vec<&'static str>) -> (unknown: Vec<String>)
    ensures
        lists_unknown(texts(unknown@), texts(names@), name_texts(all_rules_names@)),
        (unknown@.len() > 0) == has_unknown(texts(names@), name_texts(all_rules_names@)),
{
    let unknown = get_unknown_rules(names, all_rules_names);
    proof {
        let u = texts(unknown@);
        let n = texts(names@);
        let known = name_texts(all_rules_names@);
        if unknown@.len() > 0 {
            assert(n.contains(u[0]) && is_unknown(u[0], known));
            let k = choose|k: int| 0 <= k < n.len() && n[k] == u[0];
            assert(is_unknown(n[k], known));
        }
        if has_unknown(n, known) {
            let k = choose|k: int| 0 <= k < n.len() && is_unknown(#[trigger] n[k], known);
            assert(u.contains(n[k]));
        }
    }
    unknown
}

/// Returns the rules that the settings enable. Where `select` is given,
/// only the rules that it names are taken, else the default rules; the
/// rules that `ignore` names are then left out. A name that is not the name
/// of a rule with one of the given severities is refused.
pub fn get_selected_rules(args: &CheckArgs) -> (r: Result<Rules, SelectionError>)
    ensures
        ({
            let known = labels(candidates(args.severity@));
            let select = match args.select {
                Some(s) => Some(s@),
                None => None,
            };
            let ignore = match args.ignore {
                Some(s) => Some(s@),
                None => None,
            };
            let select_fails = select is Some && has_unknown(listed(select->0), known);
            let ignore_fails = ignore is Some && has_unknown(listed(ignore->0), known);
            match r {
                Ok(rules) => !select_fails && !ignore_fails && rules.enabled@ == enabled_rules(
                    select,
                    ignore,
                    args.severity@,
                ) && rules.flags_fit(),
                Err(SelectionError::UnknownSelected(names)) => select_fails && lists_unknown(
                    texts(names@),
                    listed(select->0),
                    known,
                ),
                Err(SelectionError::UnknownIgnored(names)) => !select_fails && ignore_fails
                    && lists_unknown(texts(names@), listed(ignore->0), known),
            }
        }),
{
    let none: Vec<String> = Vec::new();
    assert(texts(none@) =~= Seq::empty());
    let all_rules = keep_rules(&get_all_rules(), Pick::Severity, &args.severity, &none);
    let mut all_rules_names: Vec<&'static str> = Vec::new();
    let mut i: usize = 0;
    while i < all_rules.len()
        invariant
            i <= all_rules@.len(),
            name_texts(all_rules_names@) =~= labels(all_rules@).subrange(0, i as int),
        decreases all_rules@.len() - i,
    {
        let ghost before = name_texts(all_rules_names@);
        let name = all_rules[i].name();
        all_rules_names.push(name);
        proof {
            assert(name_texts(all_rules_names@) =~= before.push(name@));
            assert(labels(all_rules@)[i as int] == name@);
            assert(labels(all_rules@).subrange(0, i + 1) =~= labels(all_rules@).subrange(
                0,
                i as int,
            ).push(name@));
        }
        i += 1;
    }
    assert(labels(all_rules@).subrange(0, i as int) =~= labels(all_rules@));
    proof {
        encode_utf8_valid_utf8(""@);
    }
    let selected_rules = match &args.select {
        Some(select_str) => {
            proof {
                encode_utf8_valid_utf8(select_str@);
            }
            let names = split_trimmed(select_str.as_str(), 0, ascii::COMMA);
            let unknown = check_names(&names, &all_rules_names);
            if unknown.len() > 0 {
                return Err(SelectionError::UnknownSelected(unknown));
            }
            if is_listed(&names, "all") {
                all_rules
            } else if is_listed(&names, "checks") {
                keep_rules(&all_rules, Pick::Checks, &args.severity, &names)
            } else {
                keep_rules(&all_rules, Pick::Named, &args.severity, &names)
            }
        },
        None => keep_rules(&all_rules, Pick::Default, &args.severity, &none),
    };
    // Remove the ignored rules.
    let enabled = match &args.ignore {
        Some(ignore_str) => {
            proof {
                encode_utf8_valid_utf8(ignore_str@);
            }
            let names = split_trimmed(ignore_str.as_str(), 0, ascii::COMMA);
            let unknown = check_names(&names, &all_rules_names);
            if unknown.len() > 0 {
                return Err(SelectionError::UnknownIgnored(unknown));
            }
            keep_rules(&selected_rules, Pick::NotNamed, &args.severity, &names)
        },
        None => selected_rules,
    };
    Ok(Rules::new(enabled))
}

} // verus!
