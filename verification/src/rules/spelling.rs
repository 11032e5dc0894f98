//! Implementation of the rules that check the spelling of words:
//!
//! - `spelling-ctxt`: in the context (`msgctxt`)
//! - `spelling-id`: in the source (`msgid`)
//! - `spelling-str`: in the translation (`msgstr`)

use vstd::prelude::*;
use vstd::string::*;
use vstd::utf8::*;

use spellbook::Dictionary;

use crate::checker::{ctxt_diagnostic, msg_diagnostic, Checker, Scene, Stamp};
use crate::diagnostic::{DiagnosticView, Severity};
use crate::dict::{dict_check, dictionary_words};
use crate::po::entry::{Entry, EntryView};
use crate::po::format::language::Language;
use crate::po::format::word_pos::{lemma_next_word, next_word, WordPos};
use crate::rules::formats::highlights_of;
use crate::rules::rule::{joined, RuleChecker};
use crate::text::{insert_word, left, texts, with_word};

verus! {

/// The words of `bytes` from `pos` on that the dictionary does not accept,
/// each occurrence as its start and its end. The words are those outside
/// the placeholders of `language`.
pub open spec fn misspelled_spans(
    language: Language,
    bytes: Seq<u8>,
    words: Set<Seq<char>>,
    pos: int,
) -> Seq<(int, int)>
    decreases left(bytes, pos),
{
    match next_word(language, bytes, pos) {
        Some((start, end)) => {
            let rest = if pos < end <= bytes.len() {
                misspelled_spans(language, bytes, words, end)
            } else {
                Seq::empty()
            };
            if words.contains(decode_utf8(bytes.subrange(start, end))) {
                rest
            } else {
                seq![(start, end)] + rest
            }
        },
        None => Seq::empty(),
    }
}

/// The words at the given spans, each once, in the order of their bytes.
pub open spec fn words_at(bytes: Seq<u8>, spans: Seq<(int, int)>) -> Seq<Seq<char>>
    decreases spans.len(),
{
    if spans.len() == 0 {
        Seq::empty()
    } else {
        with_word(
            words_at(bytes, spans.drop_last()),
            decode_utf8(bytes.subrange(spans.last().0, spans.last().1)),
        )
    }
}

/// Finds the words of `s` that the dictionary does not accept: the words,
/// each once and in the order of their bytes, and the positions of all
/// their occurrences.
pub fn check_words(entry: &Entry, s: &str, dict: &Dictionary) -> (r: (
    Vec<String>,
    Vec<(usize, usize)>,
))
    ensures
        ({
            let spans = misspelled_spans(
                entry.format_language,
                s.spec_bytes(),
                dictionary_words(*dict),
                0,
            );
            &&& texts(r.0@) == words_at(s.spec_bytes(), spans)
            &&& r.1@ == highlights_of(spans)
        }),
{
    let ghost language = entry.format_language;
    let ghost bytes = s.spec_bytes();
    let ghost accepted = dictionary_words(*dict);
    let ghost all = misspelled_spans(language, bytes, accepted, 0);
    let ghost mut found: Seq<(int, int)> = Seq::empty();
    let mut list: Vec<String> = Vec::new();
    let mut pos_words: Vec<(usize, usize)> = Vec::new();
    let mut it = WordPos::new(s, &entry.format_language);
    assert(texts(list@) =~= words_at(bytes, found));
    assert(pos_words@ =~= highlights_of(found));
    loop
        invariant_except_break
            it.text() == bytes,
            it.language() == language,
            0 <= it.position() <= bytes.len(),
            all == found + misspelled_spans(language, bytes, accepted, it.position()),
            texts(list@) == words_at(bytes, found),
            pos_words@ == highlights_of(found),
            accepted == dictionary_words(*dict),
        ensures
            texts(list@) == words_at(bytes, all),
            pos_words@ == highlights_of(all),
        decreases bytes.len() - it.position(),
    {
        proof {
            lemma_next_word(language, bytes, it.position());
        }
        match it.next() {
            Some(m) => {
                proof {
                    encode_utf8_decode_utf8(m.s@);
                }
                if !dict_check(dict, m.s) {
                    insert_word(&mut list, m.s);
                    pos_words.push((m.start, m.end));
                    proof {
                        let next = found.push((m.start as int, m.end as int));
                        assert(next.drop_last() =~= found);
                        assert(pos_words@ =~= highlights_of(next));
                        found = next;
                    }
                }
                assert(all =~= found + misspelled_spans(language, bytes, accepted, it.position()));
            },
            None => {
                assert(all =~= found);
                break;
            },
        }
    }
    (list, pos_words)
}

/// Writes the message on misspelled words.
fn write_message(label: &str, words: &Vec<String>) -> (r: String)
    ensures
        r@ == label@ + joined(texts(words@)),
{
    let mut r = label.to_owned();
    let mut i: usize = 0;
    assert(texts(words@).subrange(0, 0) =~= Seq::empty());
    while i < words.len()
        invariant
            i <= words@.len(),
            r@ == label@ + joined(texts(words@).subrange(0, i as int)),
        decreases words@.len() - i,
    {
        if i > 0 {
            r.append(", ");
        }
        r.append(words[i].as_str());
        proof {
            let next = texts(words@).subrange(0, i + 1);
            assert(next.drop_last() =~= texts(words@).subrange(0, i as int));
            assert(next.last() == words@[i as int]@);
            assert(r@ =~= label@ + joined(next));
        }
        i += 1;
    }
    assert(texts(words@).subrange(0, i as int) =~= texts(words@));
    r
}

/// What is reported on the words of the context that the dictionary of the
/// source language does not accept.
pub open spec fn ctxt_spelling(scene: Scene, language: Language, msgctxt: Seq<char>) -> Seq<
    DiagnosticView,
> {
    match scene.words.id_words {
        Some(accepted) => {
            let spans = misspelled_spans(language, encode_utf8(msgctxt), accepted, 0);
            if spans.len() > 0 {
                seq![
                    ctxt_diagnostic(
                        scene.stamp,
                        "misspelled words in context: "@ + joined(
                            words_at(encode_utf8(msgctxt), spans),
                        ),
                        msgctxt,
                        highlights_of(spans),
                    ),
                ]
            } else {
                Seq::empty()
            }
        },
        None => Seq::empty(),
    }
}

/// What is reported on the words of `text`, the source or the translation,
/// that a dictionary does not accept.
pub open spec fn msg_spelling(
    stamp: Stamp,
    dictionary: Option<Set<Seq<char>>>,
    language: Language,
    label: Seq<char>,
    in_source: bool,
    msgid: Seq<char>,
    msgstr: Seq<char>,
) -> Seq<DiagnosticView> {
    let text = if in_source {
        msgid
    } else {
        msgstr
    };
    match dictionary {
        Some(accepted) => {
            let spans = misspelled_spans(language, encode_utf8(text), accepted, 0);
            if spans.len() > 0 {
                seq![
                    msg_diagnostic(
                        stamp,
                        label + joined(words_at(encode_utf8(text), spans)),
                        msgid,
                        if in_source {
                            highlights_of(spans)
                        } else {
                            Seq::empty()
                        },
                        msgstr,
                        if in_source {
                            Seq::empty()
                        } else {
                            highlights_of(spans)
                        },
                    ),
                ]
            } else {
                Seq::empty()
            }
        },
        None => Seq::empty(),
    }
}

/// The rule `spelling-ctxt`: misspelled words in the context.
#[derive(Clone, Copy, Debug)]
pub struct SpellingCtxtRule;

impl RuleChecker for SpellingCtxtRule {
    open spec fn label(&self) -> Seq<char> {
        "spelling-ctxt"@
    }

    open spec fn default_on(&self) -> bool {
        false
    }

    open spec fn checks(&self) -> bool {
        true
    }

    open spec fn level(&self) -> Severity {
        Severity::Info
    }

    open spec fn entry_findings(&self, scene: Scene, entry: EntryView) -> Seq<DiagnosticView> {
        Seq::empty()
    }

    /// Where the checker has the dictionary of the source language, the
    /// words of the context that it does not accept are reported as
    /// `misspelled words in context: ...`, every occurrence highlighted.
    open spec fn ctxt_findings(&self, scene: Scene, entry: EntryView, msgctxt: Seq<char>) -> Seq<
        DiagnosticView,
    > {
        ctxt_spelling(scene, entry.format_language, msgctxt)
    }

    open spec fn msg_findings(
        &self,
        scene: Scene,
        entry: EntryView,
        msgid: Seq<char>,
        msgstr: Seq<char>,
    ) -> Seq<DiagnosticView> {
        Seq::empty()
    }

    fn name(&self) -> (r: &'static str) {
        "spelling-ctxt"
    }

    fn is_default(&self) -> (r: bool) {
        false
    }

    fn is_check(&self) -> (r: bool) {
        true
    }

    fn severity(&self) -> (r: Severity) {
        Severity::Info
    }

    fn check_entry(&self, checker: &mut Checker, entry: &Entry) {
    }

    fn check_ctxt(&self, checker: &mut Checker, entry: &Entry, msgctxt: &str) {
        let found = match checker.source_dictionary() {
            Some(dict) => Some(check_words(entry, msgctxt, dict)),
            None => None,
        };
        match found {
            Some((misspelled_words, pos_words)) => {
                if pos_words.len() > 0 {
                    checker.report_ctxt(
                        entry,
                        write_message("misspelled words in context: ", &misspelled_words),
                        msgctxt,
                        pos_words.as_slice(),
                    );
                }
            },
            None => {},
        }
    }

    fn check_msg(&self, checker: &mut Checker, entry: &Entry, msgid: &str, msgstr: &str) {
    }
}

/// The rule `spelling-id`: misspelled words in the source.
#[derive(Clone, Copy, Debug)]
pub struct SpellingIdRule;

impl RuleChecker for SpellingIdRule {
    open spec fn label(&self) -> Seq<char> {
        "spelling-id"@
    }

    open spec fn default_on(&self) -> bool {
        false
    }

    open spec fn checks(&self) -> bool {
        true
    }

    open spec fn level(&self) -> Severity {
        Severity::Info
    }

    open spec fn entry_findings(&self, scene: Scene, entry: EntryView) -> Seq<DiagnosticView> {
        Seq::empty()
    }

    open spec fn ctxt_findings(&self, scene: Scene, entry: EntryView, msgctxt: Seq<char>) -> Seq<
        DiagnosticView,
    > {
        Seq::empty()
    }

    /// Where the checker has the dictionary of the source language, the
    /// words of the source that it does not accept are reported as
    /// `misspelled words in source: ...`, every occurrence highlighted.
    open spec fn msg_findings(
        &self,
        scene: Scene,
        entry: EntryView,
        msgid: Seq<char>,
        msgstr: Seq<char>,
    ) -> Seq<DiagnosticView> {
        msg_spelling(
            scene.stamp,
            scene.words.id_words,
            entry.format_language,
            "misspelled words in source: "@,
            true,
            msgid,
            msgstr,
        )
    }

    fn name(&self) -> (r: &'static str) {
        "spelling-id"
    }

    fn is_default(&self) -> (r: bool) {
        false
    }

    fn is_check(&self) -> (r: bool) {
        true
    }

    fn severity(&self) -> (r: Severity) {
        Severity::Info
    }

    fn check_entry(&self, checker: &mut Checker, entry: &Entry) {
    }

    fn check_ctxt(&self, checker: &mut Checker, entry: &Entry, msgctxt: &str) {
    }

    fn check_msg(&self, checker: &mut Checker, entry: &Entry, msgid: &str, msgstr: &str) {
        let found = match checker.source_dictionary() {
            Some(dict) => Some(check_words(entry, msgid, dict)),
            None => None,
        };
        match found {
            Some((misspelled_words, pos_words)) => {
                if pos_words.len() > 0 {
                    let none: Vec<(usize, usize)> = Vec::new();
                    checker.report_msg(
                        entry,
                        write_message("misspelled words in source: ", &misspelled_words),
                        msgid,
                        pos_words.as_slice(),
                        msgstr,
                        none.as_slice(),
                    );
                }
            },
            None => {},
        }
    }
}

/// The rule `spelling-str`: misspelled words in the translation.
#[derive(Clone, Copy, Debug)]
pub struct SpellingStrRule;

impl RuleChecker for SpellingStrRule {
    open spec fn label(&self) -> Seq<char> {
        "spelling-str"@
    }

    open spec fn default_on(&self) -> bool {
        false
    }

    open spec fn checks(&self) -> bool {
        true
    }

    open spec fn level(&self) -> Severity {
        Severity::Info
    }

    open spec fn entry_findings(&self, scene: Scene, entry: EntryView) -> Seq<DiagnosticView> {
        Seq::empty()
    }

    open spec fn ctxt_findings(&self, scene: Scene, entry: EntryView, msgctxt: Seq<char>) -> Seq<
        DiagnosticView,
    > {
        Seq::empty()
    }

    /// Where the checker has the dictionary of the language of the
    /// catalog, the words of the translation that it does not accept are
    /// reported as `misspelled words in translation: ...`, every
    /// occurrence highlighted.
    open spec fn msg_findings(
        &self,
        scene: Scene,
        entry: EntryView,
        msgid: Seq<char>,
        msgstr: Seq<char>,
    ) -> Seq<DiagnosticView> {
        msg_spelling(
            scene.stamp,
            scene.words.str_words,
            entry.format_language,
            "misspelled words in translation: "@,
            false,
            msgid,
            msgstr,
        )
    }

    fn name(&self) -> (r: &'static str) {
        "spelling-str"
    }

    fn is_default(&self) -> (r: bool) {
        false
    }

    fn is_check(&self) -> (r: bool) {
        true
    }

    fn severity(&self) -> (r: Severity) {
        Severity::Info
    }

    fn check_entry(&self, checker: &mut Checker, entry: &Entry) {
    }

    fn check_ctxt(&self, checker: &mut Checker, entry: &Entry, msgctxt: &str) {
    }

    fn check_msg(&self, checker: &mut Checker, entry: &Entry, msgid: &str, msgstr: &str) {
        let found = match checker.translation_dictionary() {
            Some(dict) => Some(check_words(entry, msgstr, dict)),
            None => None,
        };
        match found {
            Some((misspelled_words, pos_words)) => {
                if pos_words.len() > 0 {
                    let none: Vec<(usize, usize)> = Vec::new();
                    checker.report_msg(
                        entry,
                        write_message("misspelled words in translation: ", &misspelled_words),
                        msgid,
                        none.as_slice(),
                        msgstr,
                        pos_words.as_slice(),
                    );
                }
            },
            None => {},
        }
    }
}

} // verus!
