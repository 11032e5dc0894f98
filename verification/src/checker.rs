//! Checker: runs the enabled rules on the entries of one catalog and keeps
//! the diagnostics that they report.

use vstd::prelude::*;
use vstd::string::*;

use spellbook::Dictionary;

use crate::diagnostic::{
    diagnostics_view, with_lines, Diagnostic, DiagnosticLineView, DiagnosticView, Severity,
};
use crate::dict::dictionary_words;
use crate::po::entry::{po_lines, Entry, EntryView};
use crate::po::message::MessageView;
use crate::po::parser::{next_entry, Cursor, HeaderView, Parser};
use crate::po::translations::{lemma_lower_bound_view, position_of};
use crate::rules::rule::{Rule, RuleChecker, Rules};
use crate::text::{left, str_eq, texts};

verus! {

/// What stamps a diagnostic: the file, the rule that reports, its severity,
/// and the lines of the strings that are being checked.
pub struct Stamp {
    pub path: Seq<char>,
    pub rule: Seq<char>,
    pub severity: Severity,
    pub line_ctxt: usize,
    pub line_id: usize,
    pub line_str: usize,
}

/// The words that the dictionaries accept: those of the language of the
/// source strings and those of the language of the translations, each where
/// the checker has the dictionary.
pub struct Lexicon {
    pub id_words: Option<Set<Seq<char>>>,
    pub str_words: Option<Set<Seq<char>>>,
}

/// What a rule sees of the checker: the stamp of its diagnostics, what the
/// header of the catalog has said, and the words of the dictionaries.
pub struct Scene {
    pub stamp: Stamp,
    pub language_code: Seq<char>,
    pub nplurals: u32,
    pub encoding_name: Seq<char>,
    pub words: Lexicon,
}

/// The diagnostic of a file, without lines.
pub open spec fn file_diagnostic(
    path: Seq<char>,
    rule: Seq<char>,
    severity: Severity,
    message: Seq<char>,
) -> DiagnosticView {
    DiagnosticView { path, rule, severity, message, lines: Seq::empty() }
}

/// The diagnostic of an entry: its lines are the lines of the entry as
/// they are written in a catalog, without highlights.
pub open spec fn entry_diagnostic(
    stamp: Stamp,
    message: Seq<char>,
    e: EntryView,
) -> DiagnosticView {
    DiagnosticView {
        path: stamp.path,
        rule: stamp.rule,
        severity: stamp.severity,
        message,
        lines: Seq::new(
            po_lines(e).len(),
            |i: int|
                DiagnosticLineView {
                    line_number: po_lines(e)[i].0,
                    message: po_lines(e)[i].1,
                    highlights: Seq::empty(),
                },
        ),
    }
}

/// The diagnostic of a context: one line, the context with its highlights.
pub open spec fn ctxt_diagnostic(
    stamp: Stamp,
    message: Seq<char>,
    msgctxt: Seq<char>,
    hl_ctxt: Seq<(usize, usize)>,
) -> DiagnosticView {
    DiagnosticView {
        path: stamp.path,
        rule: stamp.rule,
        severity: stamp.severity,
        message,
        lines: seq![
            DiagnosticLineView {
                line_number: stamp.line_ctxt,
                message: msgctxt,
                highlights: hl_ctxt,
            },
        ],
    }
}

/// The diagnostic of a source string and its translation: two lines, the
/// source with its highlights and the translation with its highlights.
pub open spec fn msg_diagnostic(
    stamp: Stamp,
    message: Seq<char>,
    msgid: Seq<char>,
    hl_id: Seq<(usize, usize)>,
    msgstr: Seq<char>,
    hl_str: Seq<(usize, usize)>,
) -> DiagnosticView {
    DiagnosticView {
        path: stamp.path,
        rule: stamp.rule,
        severity: stamp.severity,
        message,
        lines: seq![
            DiagnosticLineView { line_number: stamp.line_id, message: msgid, highlights: hl_id },
            DiagnosticLineView {
                line_number: stamp.line_str,
                message: msgstr,
                highlights: hl_str,
            },
        ],
    }
}

/// What a rule sees while it checks with the given stamp a catalog whose
/// header has said `header`, with the given dictionaries.
pub open spec fn scene_of(stamp: Stamp, header: HeaderView, words: Lexicon) -> Scene {
    Scene {
        stamp,
        language_code: header.language_code,
        nplurals: header.nplurals,
        encoding_name: Parser::encoding_name_of(header.encoding),
        words,
    }
}

/// The stamp after a rule has checked the translations of the plural form
/// from the place `i` on, and what it has reported: each translation with
/// an index above 0 that is not empty, or every one where `keep_empty`, is
/// checked against `msgid_plural`.
pub open spec fn plural_run(
    rule: Rule,
    stamp: Stamp,
    header: HeaderView,
    words: Lexicon,
    keep_empty: bool,
    e: EntryView,
    plural: MessageView,
    i: int,
) -> (Stamp, Seq<DiagnosticView>)
    decreases e.msgstr.len() - i,
{
    if i < 0 || i >= e.msgstr.len() {
        (stamp, Seq::empty())
    } else {
        let (index, m) = e.msgstr[i];
        if index > 0 && (m.value.len() > 0 || keep_empty) {
            let here = Stamp { line_id: plural.line_number, line_str: m.line_number, ..stamp };
            let found = rule.msg_findings(scene_of(here, header, words), e, plural.value, m.value);
            let (last, rest) = plural_run(rule, here, header, words, keep_empty, e, plural, i + 1);
            (last, found + rest)
        } else {
            plural_run(rule, stamp, header, words, keep_empty, e, plural, i + 1)
        }
    }
}

/// The stamp after a rule has checked the context of an entry, and what it
/// has reported.
pub open spec fn context_run(
    rule: Rule,
    stamp: Stamp,
    header: HeaderView,
    words: Lexicon,
    e: EntryView,
) -> (
    Stamp,
    Seq<DiagnosticView>,
) {
    match e.msgctxt {
        Some(c) => {
            let here = Stamp { line_ctxt: c.line_number, ..stamp };
            (here, rule.ctxt_findings(scene_of(here, header, words), e, c.value))
        },
        None => (stamp, Seq::empty()),
    }
}

/// The stamp after a rule has checked `msgid` with the translation of
/// index 0, and what it has reported. An empty translation is checked only
/// where `keep_empty`.
pub open spec fn singular_run(
    rule: Rule,
    stamp: Stamp,
    header: HeaderView,
    words: Lexicon,
    keep_empty: bool,
    e: EntryView,
) -> (Stamp, Seq<DiagnosticView>) {
    let first = position_of(e.msgstr, 0);
    if e.msgid is Some && first is Some && (e.msgstr[first->0].1.value.len() > 0 || keep_empty) {
        let here = Stamp {
            line_id: e.msgid->0.line_number,
            line_str: e.msgstr[first->0].1.line_number,
            ..stamp
        };
        (
            here,
            rule.msg_findings(
                scene_of(here, header, words),
                e,
                e.msgid->0.value,
                e.msgstr[first->0].1.value,
            ),
        )
    } else {
        (stamp, Seq::empty())
    }
}

/// The stamp after a rule has checked `msgid_plural` with the translations
/// of the indexes above 0, and what it has reported.
pub open spec fn plurals_run(
    rule: Rule,
    stamp: Stamp,
    header: HeaderView,
    words: Lexicon,
    keep_empty: bool,
    e: EntryView,
) -> (Stamp, Seq<DiagnosticView>) {
    match e.msgid_plural {
        Some(plural) => plural_run(rule, stamp, header, words, keep_empty, e, plural, 0),
        None => (stamp, Seq::empty()),
    }
}

/// The stamp after a rule has checked an entry, and what it has reported:
/// the entry as a whole, its context, its `msgid` with the translation of
/// index 0, and its `msgid_plural` with the translations of the other
/// indexes. An empty translation is checked only by the rule `untranslated`
/// where it is enabled.
pub open spec fn rule_run(
    rule: Rule,
    stamp: Stamp,
    header: HeaderView,
    words: Lexicon,
    untranslated_rule: bool,
    e: EntryView,
) -> (Stamp, Seq<DiagnosticView>) {
    let s0 = Stamp { rule: rule.label(), severity: rule.level(), ..stamp };
    let keep_empty = untranslated_rule && rule.label() == "untranslated"@;
    let f0 = rule.entry_findings(scene_of(s0, header, words), e);
    let (s1, f1) = context_run(rule, s0, header, words, e);
    let (s2, f2) = singular_run(rule, s1, header, words, keep_empty, e);
    let (s3, f3) = plurals_run(rule, s2, header, words, keep_empty, e);
    (s3, f0 + f1 + f2 + f3)
}

/// The stamp after the rules from the place `i` on have checked an entry,
/// and what they have reported, in the order of the rules. A rule that the
/// entry names after `noqa:` is passed over.
pub open spec fn entry_run(
    rules: Rules,
    i: int,
    stamp: Stamp,
    header: HeaderView,
    words: Lexicon,
    e: EntryView,
) -> (Stamp, Seq<DiagnosticView>)
    decreases rules.enabled@.len() - i,
{
    if i < 0 || i >= rules.enabled@.len() {
        (stamp, Seq::empty())
    } else if e.noqa_rules.contains(rules.enabled@[i].label()) {
        entry_run(rules, i + 1, stamp, header, words, e)
    } else {
        let (s1, found) = rule_run(
            rules.enabled@[i],
            stamp,
            header,
            words,
            rules.untranslated_rule,
            e,
        );
        let (s2, rest) = entry_run(rules, i + 1, s1, header, words, e);
        (s2, found + rest)
    }
}

/// The settings of a check: the entries that are checked besides the
/// translated ones, the words of the dictionaries, and where dictionaries
/// are looked for.
pub struct Settings {
    pub check_fuzzy: bool,
    pub check_noqa: bool,
    pub check_obsolete: bool,
    pub words: Lexicon,
    pub path_dicts: Seq<char>,
}

/// True when an entry has at least one translation that is not empty.
pub open spec fn is_translated(e: EntryView) -> bool {
    exists|i: int| 0 <= i < e.msgstr.len() && (#[trigger] e.msgstr[i]).1.value.len() > 0
}

/// True for the header entry: its `msgid` is set and empty.
pub open spec fn is_header(e: EntryView) -> bool {
    e.msgid is Some && e.msgid->0.value.len() == 0
}

/// True when an entry is passed over: it is untranslated and no rule asks
/// for untranslated entries, or it is fuzzy, marked `noqa` or obsolete and
/// neither the settings nor a rule ask for such entries.
pub open spec fn is_skipped(rules: Rules, settings: Settings, e: EntryView) -> bool {
    ||| (!is_translated(e) && !rules.untranslated_rule)
    ||| (e.fuzzy && !settings.check_fuzzy && !rules.fuzzy_rule)
    ||| (e.noqa && !settings.check_noqa)
    ||| (e.obsolete && !settings.check_obsolete && !rules.obsolete_rule)
}

/// True when a header entry asks for the dictionary of the translations:
/// the rule that spells the translations is enabled and the checker has no
/// dictionary for it.
pub open spec fn dictionary_wanted(rules: Rules, settings: Settings) -> bool {
    rules.spelling_str_rule && settings.words.str_words is None
}

/// What is said of a dictionary that was not found.
pub open spec fn not_found_reason(language: Seq<char>, path_dicts: Seq<char>) -> Seq<char> {
    "dictionary not found for language '"@ + language + "' (path: "@ + path_dicts
        + "), spelling rule ignored"@
}

/// Says of a dictionary that it was not found for a language under a path.
pub fn not_found_message(language: &str, path_dicts: &str) -> (r: String)
    ensures
        r@ == not_found_reason(language@, path_dicts@),
{
    let mut r = "dictionary not found for language '".to_owned();
    r.append(language);
    r.append("' (path: ");
    r.append(path_dicts);
    r.append("), spelling rule ignored");
    r
}

/// The diagnostic of a file that could not be read: an error of the rule
/// `read-error`, without lines.
pub fn read_error(path: &str, message: String) -> (r: Diagnostic)
    ensures
        r@ == file_diagnostic(path@, "read-error"@, Severity::Error, message@),
{
    Diagnostic::new(path, "read-error", Severity::Error, message)
}

/// The state of a check of a catalog: where the parser stands, what the
/// header has said, the stamp, and whether a dictionary has been missed.
pub struct Progress {
    pub header: HeaderView,
    pub cursor: Cursor,
    pub stamp: Stamp,
    pub missed: bool,
}

/// What the checker reports for an entry, and the stamp afterwards: nothing
/// for the header entry and for an entry that is passed over.
pub open spec fn entry_checked(
    rules: Rules,
    settings: Settings,
    stamp: Stamp,
    header: HeaderView,
    e: EntryView,
) -> (Stamp, Seq<DiagnosticView>) {
    if is_header(e) || is_skipped(rules, settings, e) {
        (stamp, Seq::empty())
    } else {
        entry_run(rules, 0, stamp, header, settings.words, e)
    }
}

/// What is reported where a dictionary is missed: a warning on the file,
/// the first time only.
pub open spec fn missed_findings(stamp: Stamp, missed: bool, reason: Seq<char>) -> Seq<
    DiagnosticView,
> {
    if missed {
        Seq::empty()
    } else {
        seq![file_diagnostic(stamp.path, "spelling-str"@, Severity::Warning, reason)]
    }
}

/// What the checker reports for the entries of a catalog from a state on,
/// in the order of the entries, and the state at the end. A header entry
/// that asks for a dictionary finds none.
pub open spec fn catalog_run(data: Seq<u8>, rules: Rules, settings: Settings, from: Progress) -> (
    Progress,
    Seq<DiagnosticView>,
)
    decreases left(data, from.cursor.offset),
{
    let (entry, header, cursor) = next_entry(data, from.header, from.cursor);
    match entry {
        Some(e) => {
            let asks = is_header(e) && dictionary_wanted(rules, settings);
            let (stamp, found) = if asks {
                (
                    from.stamp,
                    missed_findings(
                        from.stamp,
                        from.missed,
                        not_found_reason(header.language, settings.path_dicts),
                    ),
                )
            } else {
                entry_checked(rules, settings, from.stamp, header, e)
            };
            let here = Progress { header, cursor, stamp, missed: from.missed || asks };
            if from.cursor.offset < cursor.offset <= data.len() {
                let (last, rest) = catalog_run(data, rules, settings, here);
                (last, found + rest)
            } else {
                (here, found)
            }
        },
        None => (Progress { header, cursor, ..from }, Seq::empty()),
    }
}

/// True for the name of a rule that checks the spelling.
pub open spec fn is_spelling_rule(rule: Seq<char>) -> bool {
    rule == "spelling-ctxt"@ || rule == "spelling-id"@ || rule == "spelling-str"@
}

/// A list of words with the highlighted parts of the diagnostics of the
/// spelling rules from the place `i` on, each once, in the order of their
/// bytes.
pub open spec fn misspelled_in(findings: Seq<DiagnosticView>, i: int, words: Seq<Seq<char>>) -> Seq<
    Seq<char>,
>
    decreases findings.len() - i,
{
    if i < 0 || i >= findings.len() {
        words
    } else if is_spelling_rule(findings[i].rule) {
        misspelled_in(findings, i + 1, with_lines(words, findings[i].lines, 0))
    } else {
        misspelled_in(findings, i + 1, words)
    }
}

/// What a step of a check has done.
#[derive(Clone, Copy, Debug, PartialEq, Eq, Structural)]
pub enum CheckStep {
    /// The catalog holds no more entry.
    Done,
    /// An entry was read, and checked unless it is passed over.
    Checked,
    /// A header entry was read, and the dictionary of the language of the
    /// catalog is wanted.
    NeedDictionary,
}

/// The checker of one catalog.
pub struct Checker<'d, 'r, 't> {
    /// Path of the file that is checked.
    pub path: String,
    /// Dictionary of the language of the source strings.
    pub dict_id: Option<&'t Dictionary>,
    /// Dictionary of the language of the translations.
    pub dict_str: Option<Dictionary>,
    /// What the rules have reported so far.
    pub diagnostics: Vec<Diagnostic>,
    parser: Parser<'d>,
    rules: &'r Rules,
    check_fuzzy: bool,
    check_noqa: bool,
    check_obsolete: bool,
    path_dicts: String,
    path_words: Option<String>,
    dict_str_missed: bool,
    current_rule: &'static str,
    current_severity: Severity,
    current_line_ctxt: usize,
    current_line_id: usize,
    current_line_str: usize,
}

impl<'d, 'r, 't> Checker<'d, 'r, 't> {
    /// What has been reported so far.
    pub closed spec fn findings(&self) -> Seq<DiagnosticView> {
        diagnostics_view(self.diagnostics@)
    }

    /// The stamp that the next diagnostic gets.
    pub closed spec fn stamp(&self) -> Stamp {
        Stamp {
            path: self.path@,
            rule: self.current_rule@,
            severity: self.current_severity,
            line_ctxt: self.current_line_ctxt,
            line_id: self.current_line_id,
            line_str: self.current_line_str,
        }
    }

    /// The bytes of the catalog.
    pub closed spec fn data(&self) -> Seq<u8> {
        self.parser.data()
    }

    /// What the header of the catalog has said so far.
    pub closed spec fn header(&self) -> HeaderView {
        self.parser.header()
    }

    /// Where the parser stands in the catalog.
    pub closed spec fn cursor(&self) -> Cursor {
        self.parser.cursor()
    }

    /// Whether a dictionary has been missed.
    pub closed spec fn missed(&self) -> bool {
        self.dict_str_missed
    }

    /// The rules that are enabled.
    pub closed spec fn rules(&self) -> Rules {
        *self.rules
    }

    /// The words that the dictionaries of the checker accept.
    pub closed spec fn lexicon(&self) -> Lexicon {
        Lexicon {
            id_words: match self.dict_id {
                Some(d) => Some(dictionary_words(*d)),
                None => None,
            },
            str_words: match self.dict_str {
                Some(d) => Some(dictionary_words(d)),
                None => None,
            },
        }
    }

    /// The directory of lists of words to add to the dictionaries.
    pub closed spec fn path_words(&self) -> Option<Seq<char>> {
        match self.path_words {
            Some(p) => Some(p@),
            None => None,
        }
    }

    /// The settings of the check.
    pub closed spec fn settings(&self) -> Settings {
        Settings {
            check_fuzzy: self.check_fuzzy,
            check_noqa: self.check_noqa,
            check_obsolete: self.check_obsolete,
            words: self.lexicon(),
            path_dicts: self.path_dicts@,
        }
    }

    /// What a rule sees of this checker.
    pub open spec fn scene(&self) -> Scene {
        scene_of(self.stamp(), self.header(), self.settings().words)
    }

    /// Where the check of the catalog stands.
    pub open spec fn progress(&self) -> Progress {
        Progress {
            header: self.header(),
            cursor: self.cursor(),
            stamp: self.stamp(),
            missed: self.missed(),
        }
    }

    /// True when this checker has the catalog, the rules and the settings
    /// of `before`.
    pub open spec fn same_setup(&self, before: &Self) -> bool {
        &&& self.data() == before.data()
        &&& self.rules() == before.rules()
        &&& self.settings() == before.settings()
        &&& self.path_words() == before.path_words()
    }

    /// True when this checker is `before` after it has reported `added` and
    /// done nothing else.
    pub open spec fn reported(&self, before: &Self, added: Seq<DiagnosticView>) -> bool {
        &&& self.same_setup(before)
        &&& self.progress() == before.progress()
        &&& self.findings() =~= before.findings() + added
    }

    /// True when this checker is `before` after all the entries that were
    /// left have been checked.
    pub open spec fn checked_all(&self, before: &Self) -> bool {
        &&& self.same_setup(before)
        &&& self.progress() == catalog_run(
            before.data(),
            before.rules(),
            before.settings(),
            before.progress(),
        ).0
        &&& self.findings() == before.findings() + catalog_run(
            before.data(),
            before.rules(),
            before.settings(),
            before.progress(),
        ).1
    }

    /// Creates a checker of `data` with the given rules. It has no
    /// dictionary, and checks neither fuzzy entries, nor entries marked
    /// `noqa`, nor obsolete entries.
    pub fn new(data: &'d [u8], rules: &'r Rules) -> (r: Self)
        requires
            data@.len() < usize::MAX,
        ensures
            r.data() == data@,
            r.rules() == *rules,
            r.settings() == (Settings {
                check_fuzzy: false,
                check_noqa: false,
                check_obsolete: false,
                words: Lexicon { id_words: None, str_words: None },
                path_dicts: Seq::empty(),
            }),
            r.path_words() is None,
            r.findings() == Seq::<DiagnosticView>::empty(),
            r.progress() == (Progress {
                header: HeaderView {
                    language: Seq::empty(),
                    language_code: Seq::empty(),
                    country: Seq::empty(),
                    encoding: None,
                    nplurals: 0,
                },
                cursor: Cursor { offset: 0, next_line_number: 1 },
                stamp: Stamp {
                    path: Seq::empty(),
                    rule: Seq::empty(),
                    severity: Severity::Info,
                    line_ctxt: 0,
                    line_id: 0,
                    line_str: 0,
                },
                missed: false,
            }),
    {
        proof {
            reveal_strlit("");
        }
        let r = Checker {
            path: String::new(),
            dict_id: None,
            dict_str: None,
            diagnostics: Vec::new(),
            parser: Parser::new(data),
            rules,
            check_fuzzy: false,
            check_noqa: false,
            check_obsolete: false,
            path_dicts: String::new(),
            path_words: None,
            dict_str_missed: false,
            current_rule: "",
            current_severity: Severity::Info,
            current_line_ctxt: 0,
            current_line_id: 0,
            current_line_str: 0,
        };
        assert(r.findings() =~= Seq::empty());
        assert(r.stamp().rule =~= Seq::empty());
        r
    }

    /// Sets the path of the file that is checked.
    pub fn with_path(self, path: &str) -> (r: Self)
        ensures
            r.same_setup(&self),
            r.findings() == self.findings(),
            r.progress() == (Progress {
                stamp: Stamp { path: path@, ..self.stamp() },
                ..self.progress()
            }),
    {
        let mut r = self;
        r.path = path.to_owned();
        r
    }

    /// Sets the dictionary of the language of the source strings.
    pub fn with_dict_id(self, dict_id: Option<&'t Dictionary>) -> (r: Self)
        ensures
            r.data() == self.data(),
            r.rules() == self.rules(),
            r.path_words() == self.path_words(),
            r.settings() == (Settings {
                words: Lexicon {
                    id_words: match dict_id {
                        Some(d) => Some(dictionary_words(*d)),
                        None => None,
                    },
                    ..self.settings().words
                },
                ..self.settings()
            }),
            r.findings() == self.findings(),
            r.progress() == self.progress(),
    {
        let mut r = self;
        r.dict_id = dict_id;
        r
    }

    /// Sets whether fuzzy entries are checked.
    pub fn with_check_fuzzy(self, check_fuzzy: bool) -> (r: Self)
        ensures
            r.data() == self.data(),
            r.rules() == self.rules(),
            r.path_words() == self.path_words(),
            r.settings() == (Settings { check_fuzzy, ..self.settings() }),
            r.findings() == self.findings(),
            r.progress() == self.progress(),
    {
        let mut r = self;
        r.check_fuzzy = check_fuzzy;
        r
    }

    /// Sets whether the entries marked `noqa` are checked.
    pub fn with_check_noqa(self, check_noqa: bool) -> (r: Self)
        ensures
            r.data() == self.data(),
            r.rules() == self.rules(),
            r.path_words() == self.path_words(),
            r.settings() == (Settings { check_noqa, ..self.settings() }),
            r.findings() == self.findings(),
            r.progress() == self.progress(),
    {
        let mut r = self;
        r.check_noqa = check_noqa;
        r
    }

    /// Sets whether obsolete entries are checked.
    pub fn with_check_obsolete(self, check_obsolete: bool) -> (r: Self)
        ensures
            r.data() == self.data(),
            r.rules() == self.rules(),
            r.path_words() == self.path_words(),
            r.settings() == (Settings { check_obsolete, ..self.settings() }),
            r.findings() == self.findings(),
            r.progress() == self.progress(),
    {
        let mut r = self;
        r.check_obsolete = check_obsolete;
        r
    }

    /// Sets the directory in which dictionaries are looked for.
    pub fn with_path_dicts(self, path_dicts: &str) -> (r: Self)
        ensures
            r.data() == self.data(),
            r.rules() == self.rules(),
            r.path_words() == self.path_words(),
            r.settings() == (Settings { path_dicts: path_dicts@, ..self.settings() }),
            r.findings() == self.findings(),
            r.progress() == self.progress(),
    {
        let mut r = self;
        r.path_dicts = path_dicts.to_owned();
        r
    }

    /// Sets the directory of the lists of words to add to the dictionaries,
    /// one file per language.
    pub fn with_path_words(self, path_words: Option<&String>) -> (r: Self)
        ensures
            r.data() == self.data(),
            r.rules() == self.rules(),
            r.settings() == self.settings(),
            r.path_words() == match path_words {
                Some(p) => Some(p@),
                None => None,
            },
            r.findings() == self.findings(),
            r.progress() == self.progress(),
    {
        let mut r = self;
        r.path_words = match path_words {
            Some(p) => Some(p.clone()),
            None => None,
        };
        r
    }

    /// Returns the directory in which dictionaries are looked for.
    pub fn path_dicts(&self) -> (r: &str)
        ensures
            r@ == self.settings().path_dicts,
    {
        self.path_dicts.as_str()
    }

    /// Returns the directory of the lists of words to add.
    pub fn words_path(&self) -> (r: Option<&str>)
        ensures
            match r {
                Some(p) => self.path_words() == Some(p@),
                None => self.path_words() is None,
            },
    {
        match &self.path_words {
            Some(p) => Some(p.as_str()),
            None => None,
        }
    }

    /// Returns the language of the catalog (`pt_BR`).
    pub fn language(&self) -> (r: &str)
        ensures
            r@ == self.header().language,
    {
        self.parser.language()
    }

    /// Returns the language of the catalog without the country (`pt`).
    pub fn language_code(&self) -> (r: &str)
        ensures
            r@ == self.header().language_code,
            r@ == self.scene().language_code,
    {
        self.parser.language_code()
    }

    /// Returns the country of the language of the catalog (`BR`).
    pub fn country(&self) -> (r: &str)
        ensures
            r@ == self.header().country,
    {
        self.parser.country()
    }

    /// Returns the name of the encoding of the catalog.
    pub fn encoding_name(&self) -> (r: &'static str)
        ensures
            r@ == self.scene().encoding_name,
    {
        self.parser.encoding_name()
    }

    /// Returns the number of plural forms of the catalog.
    pub fn nplurals(&self) -> (r: u32)
        ensures
            r == self.scene().nplurals,
    {
        self.parser.nplurals()
    }

    /// Returns the dictionary of the language of the source strings.
    pub fn source_dictionary(&self) -> (r: Option<&Dictionary>)
        ensures
            match r {
                Some(d) => self.scene().words.id_words == Some(dictionary_words(*d)),
                None => self.scene().words.id_words is None,
            },
    {
        self.dict_id
    }

    /// Returns the dictionary of the language of the translations.
    pub fn translation_dictionary(&self) -> (r: Option<&Dictionary>)
        ensures
            match r {
                Some(d) => self.scene().words.str_words == Some(dictionary_words(*d)),
                None => self.scene().words.str_words is None,
            },
    {
        match &self.dict_str {
            Some(d) => Some(d),
            None => None,
        }
    }

    /// Reports a diagnostic on the file.
    pub fn report_file(&mut self, rule: &'static str, severity: Severity, message: String)
        ensures
            final(self).reported(
                old(self),
                seq![file_diagnostic(old(self).stamp().path, rule@, severity, message@)],
            ),
    {
        let diagnostic = Diagnostic::new(self.path.as_str(), rule, severity, message);
        self.diagnostics.push(diagnostic);
    }

    /// Reports a diagnostic on an entry, with the lines of the entry.
    pub fn report_entry(&mut self, message: String, entry: &Entry)
        ensures
            final(self).reported(
                old(self),
                seq![entry_diagnostic(old(self).stamp(), message@, entry@)],
            ),
    {
        let mut diagnostic = Diagnostic::new(
            self.path.as_str(),
            self.current_rule,
            self.current_severity,
            message,
        );
        let lines = entry.to_po_lines();
        let empty: Vec<(usize, usize)> = Vec::new();
        let mut i: usize = 0;
        while i < lines.len()
            invariant
                i <= lines@.len(),
                empty@ == Seq::<(usize, usize)>::empty(),
                crate::po::entry::lines_view(lines@) == po_lines(entry@),
                diagnostic@.path == self.path@,
                diagnostic@.rule == self.current_rule@,
                diagnostic@.severity == self.current_severity,
                diagnostic@.message == message@,
                diagnostic@.lines =~= Seq::new(
                    i as nat,
                    |k: int|
                        DiagnosticLineView {
                            line_number: po_lines(entry@)[k].0,
                            message: po_lines(entry@)[k].1,
                            highlights: Seq::empty(),
                        },
                ),
            decreases lines@.len() - i,
        {
            assert(crate::po::entry::lines_view(lines@)[i as int] == (
                lines@[i as int].0,
                lines@[i as int].1@,
            ));
            diagnostic.add_message(lines[i].0, lines[i].1.as_str(), empty.as_slice());
            i += 1;
        }
        assert(diagnostic@.lines =~= entry_diagnostic(self.stamp(), message@, entry@).lines);
        self.diagnostics.push(diagnostic);
    }

    /// Reports a diagnostic on the context of an entry.
    pub fn report_ctxt(
        &mut self,
        _entry: &Entry,
        message: String,
        msgctxt: &str,
        hl_ctxt: &[(usize, usize)],
    )
        ensures
            final(self).reported(
                old(self),
                seq![ctxt_diagnostic(old(self).stamp(), message@, msgctxt@, hl_ctxt@)],
            ),
    {
        let mut diagnostic = Diagnostic::new(
            self.path.as_str(),
            self.current_rule,
            self.current_severity,
            message,
        );
        diagnostic.add_message(self.current_line_ctxt, msgctxt, hl_ctxt);
        assert(diagnostic@.lines =~= ctxt_diagnostic(
            self.stamp(),
            message@,
            msgctxt@,
            hl_ctxt@,
        ).lines);
        self.diagnostics.push(diagnostic);
    }

    /// Reports a diagnostic on a source string and its translation.
    pub fn report_msg(
        &mut self,
        _entry: &Entry,
        message: String,
        msgid: &str,
        hl_id: &[(usize, usize)],
        msgstr: &str,
        hl_str: &[(usize, usize)],
    )
        ensures
            final(self).reported(
                old(self),
                seq![msg_diagnostic(old(self).stamp(), message@, msgid@, hl_id@, msgstr@, hl_str@)],
            ),
    {
        let mut diagnostic = Diagnostic::new(
            self.path.as_str(),
            self.current_rule,
            self.current_severity,
            message,
        );
        diagnostic.add_message(self.current_line_id, msgid, hl_id);
        diagnostic.add_message(self.current_line_str, msgstr, hl_str);
        assert(diagnostic@.lines =~= msg_diagnostic(
            self.stamp(),
            message@,
            msgid@,
            hl_id@,
            msgstr@,
            hl_str@,
        ).lines);
        self.diagnostics.push(diagnostic);
    }

    /// Tells whether an entry names a rule after `noqa:`.
    fn is_suppressed(entry: &Entry, name: &str) -> (r: bool)
        ensures
            r == entry@.noqa_rules.contains(name@),
    {
        let mut i: usize = 0;
        while i < entry.noqa_rules.len()
            invariant
                i <= entry.noqa_rules@.len(),
                forall|k: int| 0 <= k < i ==> entry@.noqa_rules[k] != name@,
            decreases entry.noqa_rules@.len() - i,
        {
            if str_eq(entry.noqa_rules[i].as_str(), name) {
                assert(entry@.noqa_rules[i as int] == name@);
                return true;
            }
            i += 1;
        }
        false
    }

    /// Checks the context of an entry with a rule that has been set.
    fn check_context(&mut self, entry: &Entry, rule: &Rule)
        ensures
            final(self).same_setup(old(self)),
            final(self).header() == old(self).header(),
            final(self).cursor() == old(self).cursor(),
            final(self).missed() == old(self).missed(),
            final(self).stamp() == context_run(
                *rule,
                old(self).stamp(),
                old(self).header(),
                old(self).settings().words,
                entry@,
            ).0,
            final(self).findings() =~= old(self).findings() + context_run(
                *rule,
                old(self).stamp(),
                old(self).header(),
                old(self).settings().words,
                entry@,
            ).1,
    {
        match &entry.msgctxt {
            Some(msgctxt) => {
                self.current_line_ctxt = msgctxt.line_number;
                rule.check_ctxt(self, entry, msgctxt.value.as_str());
            },
            None => {},
        }
    }

    /// Checks `msgid` with the translation of index 0, with a rule that
    /// has been set.
    fn check_singular(&mut self, entry: &Entry, rule: &Rule, keep_empty: bool)
        ensures
            final(self).same_setup(old(self)),
            final(self).header() == old(self).header(),
            final(self).cursor() == old(self).cursor(),
            final(self).missed() == old(self).missed(),
            final(self).stamp() == singular_run(
                *rule,
                old(self).stamp(),
                old(self).header(),
                old(self).settings().words,
                keep_empty,
                entry@,
            ).0,
            final(self).findings() =~= old(self).findings() + singular_run(
                *rule,
                old(self).stamp(),
                old(self).header(),
                old(self).settings().words,
                keep_empty,
                entry@,
            ).1,
    {
        proof {
            lemma_lower_bound_view(entry.msgstr.entries(), 0);
        }
        match &entry.msgid {
            Some(msgid) => {
                match entry.msgstr.get(&0) {
                    Some(msgstr_0) => {
                        if !msgstr_0.value.as_str().is_empty() || keep_empty {
                            self.current_line_id = msgid.line_number;
                            self.current_line_str = msgstr_0.line_number;
                            rule.check_msg(
                                self,
                                entry,
                                msgid.value.as_str(),
                                msgstr_0.value.as_str(),
                            );
                        }
                    },
                    None => {},
                }
            },
            None => {},
        }
    }

    /// Checks `msgid_plural` with the translations of the indexes above 0,
    /// with a rule that has been set.
    fn check_plurals(&mut self, entry: &Entry, rule: &Rule, keep_empty: bool)
        ensures
            final(self).same_setup(old(self)),
            final(self).header() == old(self).header(),
            final(self).cursor() == old(self).cursor(),
            final(self).missed() == old(self).missed(),
            final(self).stamp() == plurals_run(
                *rule,
                old(self).stamp(),
                old(self).header(),
                old(self).settings().words,
                keep_empty,
                entry@,
            ).0,
            final(self).findings() =~= old(self).findings() + plurals_run(
                *rule,
                old(self).stamp(),
                old(self).header(),
                old(self).settings().words,
                keep_empty,
                entry@,
            ).1,
    {
        let ghost e = entry@;
        let ghost header = self.header();
        let ghost words = self.settings().words;
        match &entry.msgid_plural {
            Some(msgid_plural) => {
                let ghost s2 = self.stamp();
                let ghost mid = self.findings();
                let ghost plural = msgid_plural@;
                let n = entry.msgstr.len();
                let mut i: usize = 0;
                while i < n
                    invariant
                        e == entry@,
                        plural == msgid_plural@,
                        n == entry.msgstr.entries().len(),
                        i <= n,
                        self.same_setup(old(self)),
                        self.header() == header,
                        self.cursor() == old(self).cursor(),
                        self.missed() == old(self).missed(),
                        words == old(self).settings().words,
                        plural_run(*rule, s2, header, words, keep_empty, e, plural, 0).0
                            == plural_run(
                            *rule,
                            self.stamp(),
                            header,
                            words,
                            keep_empty,
                            e,
                            plural,
                            i as int,
                        ).0,
                        mid + plural_run(*rule, s2, header, words, keep_empty, e, plural, 0).1
                            =~= self.findings() + plural_run(
                            *rule,
                            self.stamp(),
                            header,
                            words,
                            keep_empty,
                            e,
                            plural,
                            i as int,
                        ).1,
                    decreases n - i,
                {
                    let index = entry.msgstr.key_at(i);
                    let msgstr_n = entry.msgstr.value_at(i);
                    assert(e.msgstr[i as int] == (index, msgstr_n@));
                    if index > 0 && (!msgstr_n.value.as_str().is_empty() || keep_empty) {
                        self.current_line_id = msgid_plural.line_number;
                        self.current_line_str = msgstr_n.line_number;
                        rule.check_msg(
                            self,
                            entry,
                            msgid_plural.value.as_str(),
                            msgstr_n.value.as_str(),
                        );
                    }
                    i += 1;
                }
            },
            None => {},
        }
    }

    /// Checks an entry with one rule: the entry as a whole, its context,
    /// `msgid` with the translation of index 0, and `msgid_plural` with the
    /// translations of the other indexes.
    pub fn check_entry(&mut self, entry: &Entry, rule: &Rule)
        ensures
            final(self).same_setup(old(self)),
            final(self).header() == old(self).header(),
            final(self).cursor() == old(self).cursor(),
            final(self).missed() == old(self).missed(),
            final(self).stamp() == rule_run(
                *rule,
                old(self).stamp(),
                old(self).header(),
                old(self).settings().words,
                old(self).rules().untranslated_rule,
                entry@,
            ).0,
            final(self).findings() == old(self).findings() + rule_run(
                *rule,
                old(self).stamp(),
                old(self).header(),
                old(self).settings().words,
                old(self).rules().untranslated_rule,
                entry@,
            ).1,
    {
        let ghost start = self.findings();
        self.current_rule = rule.name();
        self.current_severity = rule.severity();
        let keep_empty = self.rules.untranslated_rule && str_eq(self.current_rule, "untranslated");
        rule.check_entry(self, entry);
        self.check_context(entry, rule);
        self.check_singular(entry, rule, keep_empty);
        self.check_plurals(entry, rule, keep_empty);
        proof {
            let run = rule_run(
                *rule,
                old(self).stamp(),
                old(self).header(),
                old(self).settings().words,
                old(self).rules().untranslated_rule,
                entry@,
            );
            assert(self.findings() =~= start + run.1);
        }
    }

    /// Checks an entry with the rules that are enabled, but those that the
    /// entry names after `noqa:`.
    fn check_with_rules(&mut self, entry: &Entry)
        ensures
            final(self).same_setup(old(self)),
            final(self).header() == old(self).header(),
            final(self).cursor() == old(self).cursor(),
            final(self).missed() == old(self).missed(),
            final(self).stamp() == entry_run(
                old(self).rules(),
                0,
                old(self).stamp(),
                old(self).header(),
                old(self).settings().words,
                entry@,
            ).0,
            final(self).findings() == old(self).findings() + entry_run(
                old(self).rules(),
                0,
                old(self).stamp(),
                old(self).header(),
                old(self).settings().words,
                entry@,
            ).1,
    {
        let rules = self.rules;
        let ghost header = self.header();
        let ghost words = self.settings().words;
        let ghost start = self.findings();
        let ghost first = self.stamp();
        let n = rules.enabled.len();
        let mut i: usize = 0;
        while i < n
            invariant
                *rules == old(self).rules(),
                n == rules.enabled@.len(),
                i <= n,
                self.same_setup(old(self)),
                self.header() == header,
                self.cursor() == old(self).cursor(),
                self.missed() == old(self).missed(),
                words == old(self).settings().words,
                entry_run(*rules, 0, first, header, words, entry@).0 == entry_run(
                    *rules,
                    i as int,
                    self.stamp(),
                    header,
                    words,
                    entry@,
                ).0,
                start + entry_run(*rules, 0, first, header, words, entry@).1 =~= self.findings()
                    + entry_run(*rules, i as int, self.stamp(), header, words, entry@).1,
            decreases n - i,
        {
            let rule = &rules.enabled[i];
            if !Self::is_suppressed(entry, rule.name()) {
                self.check_entry(entry, rule);
            }
            i += 1;
        }
    }

    /// Returns the misspelled words that were reported: the highlighted
    /// parts of the diagnostics of the spelling rules, each once, in the
    /// order of their bytes.
    pub fn misspelled_words(&self) -> (words: Vec<String>)
        ensures
            texts(words@) == misspelled_in(self.findings(), 0, Seq::empty()),
    {
        let mut words: Vec<String> = Vec::new();
        assert(texts(words@) =~= Seq::empty());
        let mut i: usize = 0;
        while i < self.diagnostics.len()
            invariant
                i <= self.diagnostics@.len(),
                misspelled_in(self.findings(), 0, Seq::empty()) == misspelled_in(
                    self.findings(),
                    i as int,
                    texts(words@),
                ),
            decreases self.diagnostics@.len() - i,
        {
            let diagnostic = &self.diagnostics[i];
            assert(self.findings()[i as int] == diagnostic@);
            if str_eq(diagnostic.rule, "spelling-ctxt") || str_eq(diagnostic.rule, "spelling-id")
                || str_eq(diagnostic.rule, "spelling-str") {
                diagnostic.add_highlighted(&mut words);
            }
            i += 1;
        }
        words
    }

    /// Tells what is said of the dictionary of the language of the catalog
    /// where it is not found.
    pub fn missing_dictionary_reason(&self) -> (r: String)
        ensures
            r@ == not_found_reason(self.header().language, self.settings().path_dicts),
    {
        not_found_message(self.parser.language(), self.path_dicts.as_str())
    }

    /// Gives the checker the dictionary of the language of the
    /// translations.
    pub fn set_dict_str(&mut self, dict: Dictionary)
        ensures
            final(self).data() == old(self).data(),
            final(self).rules() == old(self).rules(),
            final(self).path_words() == old(self).path_words(),
            final(self).settings() == (Settings {
                words: Lexicon {
                    str_words: Some(dictionary_words(dict)),
                    ..old(self).settings().words
                },
                ..old(self).settings()
            }),
            final(self).progress() == old(self).progress(),
            final(self).findings() == old(self).findings(),
    {
        self.dict_str = Some(dict);
    }

    /// Records that the dictionary of the language of the translations was
    /// not found: a warning is reported, the first time only.
    pub fn dictionary_not_found(&mut self, reason: String)
        ensures
            final(self).same_setup(old(self)),
            final(self).progress() == (Progress { missed: true, ..old(self).progress() }),
            final(self).findings() =~= old(self).findings() + missed_findings(
                old(self).stamp(),
                old(self).missed(),
                reason@,
            ),
    {
        if !self.dict_str_missed {
            self.report_file("spelling-str", Severity::Warning, reason);
        }
        self.dict_str_missed = true;
    }

    /// Reads the next entry of the catalog and checks it, unless it is the
    /// header entry or is passed over. Where the header entry asks for the
    /// dictionary of the language of the catalog, nothing else is done: the
    /// caller gives the dictionary, or says that it was not found.
    pub fn check_next(&mut self) -> (step: CheckStep)
        ensures
            final(self).same_setup(old(self)),
            final(self).missed() == old(self).missed(),
            ({
                let (entry, header, cursor) = next_entry(
                    old(self).data(),
                    old(self).header(),
                    old(self).cursor(),
                );
                &&& final(self).header() == header
                &&& final(self).cursor() == cursor
                &&& match entry {
                    Some(e) => if is_header(e) && dictionary_wanted(
                        old(self).rules(),
                        old(self).settings(),
                    ) {
                        &&& step == CheckStep::NeedDictionary
                        &&& final(self).stamp() == old(self).stamp()
                        &&& final(self).findings() == old(self).findings()
                    } else {
                        &&& step == CheckStep::Checked
                        &&& final(self).stamp() == entry_checked(
                            old(self).rules(),
                            old(self).settings(),
                            old(self).stamp(),
                            header,
                            e,
                        ).0
                        &&& final(self).findings() == old(self).findings() + entry_checked(
                            old(self).rules(),
                            old(self).settings(),
                            old(self).stamp(),
                            header,
                            e,
                        ).1
                    },
                    None => {
                        &&& step == CheckStep::Done
                        &&& final(self).stamp() == old(self).stamp()
                        &&& final(self).findings() == old(self).findings()
                    },
                }
            }),
            step != CheckStep::Done ==> old(self).cursor().offset < final(self).cursor().offset,
            final(self).cursor().offset <= old(self).data().len(),
    {
        let entry = match self.parser.next() {
            Some(entry) => entry,
            None => {
                return CheckStep::Done;
            },
        };
        if entry.is_header() {
            if self.rules.spelling_str_rule && self.dict_str.is_none() {
                return CheckStep::NeedDictionary;
            }
            assert(self.findings() + Seq::<DiagnosticView>::empty() =~= self.findings());
            return CheckStep::Checked;
        }
        let translated = entry.is_translated();
        proof {
            let e = entry@;
            if translated {
                let i = choose|i: int|
                    0 <= i < entry.msgstr.entries().len() && (
                    #[trigger] entry.msgstr.entries()[i]).1.value@.len() > 0;
                assert(e.msgstr[i].1.value.len() > 0);
            } else {
                assert forall|i: int| 0 <= i < e.msgstr.len() implies (
                #[trigger] e.msgstr[i]).1.value.len() == 0 by {
                    assert(entry.msgstr.entries()[i].1.value@.len() == 0);
                }
            }
        }
        if (!translated && !self.rules.untranslated_rule) || (entry.fuzzy && !self.check_fuzzy
            && !self.rules.fuzzy_rule) || (entry.noqa && !self.check_noqa) || (entry.obsolete
            && !self.check_obsolete && !self.rules.obsolete_rule) {
            assert(self.findings() + Seq::<DiagnosticView>::empty() =~= self.findings());
            return CheckStep::Checked;
        }
        self.check_with_rules(&entry);
        CheckStep::Checked
    }

    /// Performs all checks on every entry of the catalog. A dictionary
    /// that the header asks for is not found: the checker looks for none.
    pub fn do_all_checks(&mut self)
        ensures
            final(self).checked_all(old(self)),
    {
        let ghost data = self.data();
        let ghost rules = self.rules();
        let ghost settings = self.settings();
        let ghost start = self.findings();
        let ghost whole = catalog_run(data, rules, settings, self.progress());
        loop
            invariant_except_break
                self.same_setup(old(self)),
                data == old(self).data(),
                rules == old(self).rules(),
                settings == old(self).settings(),
                whole.0 == catalog_run(data, rules, settings, self.progress()).0,
                start + whole.1 =~= self.findings() + catalog_run(
                    data,
                    rules,
                    settings,
                    self.progress(),
                ).1,
            ensures
                self.same_setup(old(self)),
                self.progress() == whole.0,
                self.findings() == start + whole.1,
            decreases left(data, self.cursor().offset),
        {
            let ghost before = self.progress();
            let ghost found = self.findings();
            match self.check_next() {
                CheckStep::Done => {
                    assert(self.findings() =~= start + whole.1);
                    break;
                },
                CheckStep::Checked => {},
                CheckStep::NeedDictionary => {
                    let reason = self.missing_dictionary_reason();
                    self.dictionary_not_found(reason);
                },
            }
        }
    }
}

/// Checking is repeatable: two checks of the same catalog with the same
/// rules and settings, from the same state, report the same diagnostics in
/// the same order and end in the same state.
pub proof fn lemma_check_is_repeatable(
    first_before: Checker,
    first_after: Checker,
    second_before: Checker,
    second_after: Checker,
)
    requires
        first_after.checked_all(&first_before),
        second_after.checked_all(&second_before),
        first_before.data() == second_before.data(),
        first_before.rules() == second_before.rules(),
        first_before.settings() == second_before.settings(),
        first_before.progress() == second_before.progress(),
        first_before.findings() == second_before.findings(),
    ensures
        first_after.findings() == second_after.findings(),
        first_after.progress() == second_after.progress(),
{
}

/// A check of a whole catalog reports what it had reported before and,
/// after it, what the entries give: nothing is taken away or changed.
pub proof fn lemma_check_only_adds(before: Checker, after: Checker)
    requires
        after.checked_all(&before),
    ensures
        before.findings().len() <= after.findings().len(),
        after.findings().subrange(0, before.findings().len() as int) == before.findings(),
{
    assert(after.findings().subrange(0, before.findings().len() as int) =~= before.findings());
}

} // verus!
