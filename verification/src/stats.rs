//! Statistics on the entries of catalogs: numbers of entries, of words and
//! of characters, by state of translation.

use vstd::prelude::*;
use vstd::string::*;
use vstd::utf8::*;

use crate::checker::{is_header, is_translated};
use crate::po::entry::{Entry, EntryView};
use crate::po::format::char_pos::{counted_chars_from, CharPos};
use crate::po::format::language::Language;
use crate::po::format::word_pos::{words_from, WordPos};
use crate::po::translations::{lemma_lower_bound_view, position_of};

verus! {

/// The sum of two counts, kept at the greatest count where it does not fit.
pub open spec fn sum(a: u64, b: u64) -> u64 {
    if a + b > u64::MAX {
        u64::MAX
    } else {
        (a + b) as u64
    }
}

/// The part of `total` that `part` is, out of `scale`, rounded down; 0
/// where the total is 0, and the greatest count where it does not fit.
pub open spec fn share(part: u64, total: u64, scale: u64) -> u64 {
    if total == 0 {
        0
    } else if part * scale / (total as int) > u64::MAX {
        u64::MAX
    } else {
        (part * scale / (total as int)) as u64
    }
}

/// Computes the part of `total` that `part` is, out of `scale`.
fn compute_share(part: u64, total: u64, scale: u64) -> (r: u64)
    ensures
        r == share(part, total, scale),
{
    if total == 0 {
        return 0;
    }
    assert(part * scale <= u64::MAX * u64::MAX) by (nonlinear_arith)
        requires
            0 <= part <= u64::MAX,
            0 <= scale <= u64::MAX,
    ;
    let scaled: u128 = part as u128 * scale as u128;
    let value = scaled / (total as u128);
    if value > u64::MAX as u128 {
        u64::MAX
    } else {
        value as u64
    }
}

/// Numbers of entries, by state of translation.
#[derive(Clone, Copy, Debug, Default, PartialEq, Eq, Structural)]
pub struct Entries {
    pub total: u64,
    pub translated: u64,
    pub fuzzy: u64,
    pub untranslated: u64,
    pub obsolete: u64,
}

/// Numbers of words or of characters, in the source strings and in the
/// translations, by state of translation of their entry.
#[derive(Clone, Copy, Debug, Default, PartialEq, Eq, Structural)]
pub struct Counts {
    pub id_total: u64,
    pub id_translated: u64,
    pub id_fuzzy: u64,
    pub id_untranslated: u64,
    pub id_obsolete: u64,
    pub str_translated: u64,
    pub str_fuzzy: u64,
    /// Always 0, kept for symmetry.
    pub str_untranslated: u64,
    pub str_obsolete: u64,
}

impl Entries {
    /// The numbers of two catalogs put together.
    pub open spec fn plus(self, other: Entries) -> Entries {
        Entries {
            total: sum(self.total, other.total),
            translated: sum(self.translated, other.translated),
            fuzzy: sum(self.fuzzy, other.fuzzy),
            untranslated: sum(self.untranslated, other.untranslated),
            obsolete: sum(self.obsolete, other.obsolete),
        }
    }

    /// Adds the numbers of another catalog to these.
    pub fn add_assign(&mut self, other: Self)
        ensures
            *final(self) == old(self).plus(other),
    {
        self.total = self.total.saturating_add(other.total);
        self.translated = self.translated.saturating_add(other.translated);
        self.fuzzy = self.fuzzy.saturating_add(other.fuzzy);
        self.untranslated = self.untranslated.saturating_add(other.untranslated);
        self.obsolete = self.obsolete.saturating_add(other.obsolete);
    }

    /// Returns the percentage of translated entries, rounded down.
    pub fn pct_translated(&self) -> (r: u64)
        ensures
            r == share(self.translated, self.total, 100),
    {
        compute_share(self.translated, self.total, 100)
    }

    /// Returns the part of translated entries, out of 1,000,000.
    pub fn ratio_translated(&self) -> (r: u64)
        ensures
            r == share(self.translated, self.total, 1_000_000),
    {
        compute_share(self.translated, self.total, 1_000_000)
    }

    /// Returns the percentage of fuzzy entries, rounded down.
    pub fn pct_fuzzy(&self) -> (r: u64)
        ensures
            r == share(self.fuzzy, self.total, 100),
    {
        compute_share(self.fuzzy, self.total, 100)
    }

    /// Returns the part of fuzzy entries, out of 1,000,000.
    pub fn ratio_fuzzy(&self) -> (r: u64)
        ensures
            r == share(self.fuzzy, self.total, 1_000_000),
    {
        compute_share(self.fuzzy, self.total, 1_000_000)
    }

    /// Returns the percentage of untranslated entries, rounded down.
    pub fn pct_untranslated(&self) -> (r: u64)
        ensures
            r == share(self.untranslated, self.total, 100),
    {
        compute_share(self.untranslated, self.total, 100)
    }

    /// Returns the part of untranslated entries, out of 1,000,000.
    pub fn ratio_untranslated(&self) -> (r: u64)
        ensures
            r == share(self.untranslated, self.total, 1_000_000),
    {
        compute_share(self.untranslated, self.total, 1_000_000)
    }

    /// Returns the percentage of obsolete entries, rounded down.
    pub fn pct_obsolete(&self) -> (r: u64)
        ensures
            r == share(self.obsolete, self.total, 100),
    {
        compute_share(self.obsolete, self.total, 100)
    }

    /// Returns the part of obsolete entries, out of 1,000,000.
    pub fn ratio_obsolete(&self) -> (r: u64)
        ensures
            r == share(self.obsolete, self.total, 1_000_000),
    {
        compute_share(self.obsolete, self.total, 1_000_000)
    }

    /// Returns the percentages of translated, fuzzy, untranslated and
    /// obsolete entries.
    pub fn pct(&self) -> (r: (u64, u64, u64, u64))
        ensures
            r == (
                share(self.translated, self.total, 100),
                share(self.fuzzy, self.total, 100),
                share(self.untranslated, self.total, 100),
                share(self.obsolete, self.total, 100),
            ),
    {
        (self.pct_translated(), self.pct_fuzzy(), self.pct_untranslated(), self.pct_obsolete())
    }
}

impl Counts {
    /// The numbers of two catalogs put together.
    pub open spec fn plus(self, other: Counts) -> Counts {
        Counts {
            id_total: sum(self.id_total, other.id_total),
            id_translated: sum(self.id_translated, other.id_translated),
            id_fuzzy: sum(self.id_fuzzy, other.id_fuzzy),
            id_untranslated: sum(self.id_untranslated, other.id_untranslated),
            id_obsolete: sum(self.id_obsolete, other.id_obsolete),
            str_translated: sum(self.str_translated, other.str_translated),
            str_fuzzy: sum(self.str_fuzzy, other.str_fuzzy),
            str_untranslated: sum(self.str_untranslated, other.str_untranslated),
            str_obsolete: sum(self.str_obsolete, other.str_obsolete),
        }
    }

    /// Adds the numbers of another catalog to these.
    pub fn add_assign(&mut self, other: Self)
        ensures
            *final(self) == old(self).plus(other),
    {
        self.id_total = self.id_total.saturating_add(other.id_total);
        self.id_translated = self.id_translated.saturating_add(other.id_translated);
        self.id_fuzzy = self.id_fuzzy.saturating_add(other.id_fuzzy);
        self.id_untranslated = self.id_untranslated.saturating_add(other.id_untranslated);
        self.id_obsolete = self.id_obsolete.saturating_add(other.id_obsolete);
        self.str_translated = self.str_translated.saturating_add(other.str_translated);
        self.str_fuzzy = self.str_fuzzy.saturating_add(other.str_fuzzy);
        self.str_untranslated = self.str_untranslated.saturating_add(other.str_untranslated);
        self.str_obsolete = self.str_obsolete.saturating_add(other.str_obsolete);
    }

    /// Returns the percentage of the source that is translated, rounded
    /// down.
    pub fn pct_id_translated(&self) -> (r: u64)
        ensures
            r == share(self.id_translated, self.id_total, 100),
    {
        compute_share(self.id_translated, self.id_total, 100)
    }

    /// Returns the percentage of the source that is fuzzy, rounded down.
    pub fn pct_id_fuzzy(&self) -> (r: u64)
        ensures
            r == share(self.id_fuzzy, self.id_total, 100),
    {
        compute_share(self.id_fuzzy, self.id_total, 100)
    }

    /// Returns the percentage of the source that is untranslated, rounded
    /// down.
    pub fn pct_id_untranslated(&self) -> (r: u64)
        ensures
            r == share(self.id_untranslated, self.id_total, 100),
    {
        compute_share(self.id_untranslated, self.id_total, 100)
    }

    /// Returns the percentage of the source that is obsolete, rounded down.
    pub fn pct_id_obsolete(&self) -> (r: u64)
        ensures
            r == share(self.id_obsolete, self.id_total, 100),
    {
        compute_share(self.id_obsolete, self.id_total, 100)
    }
}

/// The state of translation of an entry, as statistics count it: fuzzy
/// first, then obsolete, then translated, else untranslated.
#[derive(Clone, Copy, Debug, PartialEq, Eq, Structural)]
pub enum State {
    Fuzzy,
    Obsolete,
    Translated,
    Untranslated,
}

/// The state of translation of an entry.
pub open spec fn state_of(e: EntryView) -> State {
    if e.fuzzy {
        State::Fuzzy
    } else if e.obsolete {
        State::Obsolete
    } else if is_translated(e) {
        State::Translated
    } else {
        State::Untranslated
    }
}

/// The numbers of entries after one more entry in the given state.
pub open spec fn entries_with(entries: Entries, state: State) -> Entries {
    let one = Entries { total: sum(entries.total, 1), ..entries };
    match state {
        State::Fuzzy => Entries { fuzzy: sum(entries.fuzzy, 1), ..one },
        State::Obsolete => Entries { obsolete: sum(entries.obsolete, 1), ..one },
        State::Translated => Entries { translated: sum(entries.translated, 1), ..one },
        State::Untranslated => Entries { untranslated: sum(entries.untranslated, 1), ..one },
    }
}

/// The counts after an entry in the given state with `id` units in its
/// source and `tr` units in its translation. The translation of an
/// untranslated entry is not counted.
pub open spec fn counts_with(counts: Counts, state: State, id: u64, tr: u64) -> Counts {
    let one = Counts { id_total: sum(counts.id_total, id), ..counts };
    match state {
        State::Fuzzy => Counts {
            id_fuzzy: sum(counts.id_fuzzy, id),
            str_fuzzy: sum(counts.str_fuzzy, tr),
            ..one
        },
        State::Obsolete => Counts {
            id_obsolete: sum(counts.id_obsolete, id),
            str_obsolete: sum(counts.str_obsolete, tr),
            ..one
        },
        State::Translated => Counts {
            id_translated: sum(counts.id_translated, id),
            str_translated: sum(counts.str_translated, tr),
            ..one
        },
        State::Untranslated => Counts { id_untranslated: sum(counts.id_untranslated, id), ..one },
    }
}

/// The number of words of a text, outside the placeholders of `language`.
pub open spec fn word_count(language: Language, text: Seq<char>) -> u64 {
    words_from(language, encode_utf8(text), 0).len() as u64
}

/// The number of letters, numbers and hyphens of a text, outside the
/// placeholders of `language`.
pub open spec fn char_count(language: Language, text: Seq<char>) -> u64 {
    counted_chars_from(language, encode_utf8(text), 0).len() as u64
}

/// Counts the words of a string.
pub fn count_words(s: &str, language: &Language) -> (r: u64)
    ensures
        r == word_count(*language, s@),
{
    WordPos::new(s, language).collect().len() as u64
}

/// Counts the letters, numbers and hyphens of a string.
pub fn count_chars(s: &str, language: &Language) -> (r: u64)
    ensures
        r == char_count(*language, s@),
{
    CharPos::new(s, language).collect().len() as u64
}

/// The statistics of a catalog: its entries, and its words and characters
/// where they are counted.
#[derive(Clone, Copy, Debug, Default, PartialEq, Eq, Structural)]
pub struct Stats {
    pub entries: Entries,
    pub words: Counts,
    pub chars: Counts,
}

impl Stats {
    /// The statistics of two catalogs put together.
    pub open spec fn plus(self, other: Stats) -> Stats {
        Stats {
            entries: self.entries.plus(other.entries),
            words: self.words.plus(other.words),
            chars: self.chars.plus(other.chars),
        }
    }
}

/// The statistics of catalogs put together, one after the other.
pub open spec fn total_of(stats: Seq<Stats>) -> Stats
    decreases stats.len(),
{
    if stats.len() == 0 {
        stats_of(Seq::empty(), false)
    } else {
        total_of(stats.drop_last()).plus(stats.last())
    }
}

/// Computes the statistics of several catalogs put together.
pub fn compute_total_stats(stats: &Vec<Stats>) -> (total: Stats)
    ensures
        total == total_of(stats@),
{
    let none: Vec<Entry> = Vec::new();
    assert(crate::po::parser::entries_view(none@) =~= Seq::empty());
    let mut total = stats_entries(&none, false);
    let mut i: usize = 0;
    assert(stats@.subrange(0, 0) =~= Seq::empty());
    while i < stats.len()
        invariant
            i <= stats@.len(),
            total == total_of(stats@.subrange(0, i as int)),
        decreases stats@.len() - i,
    {
        proof {
            let next = stats@.subrange(0, i + 1);
            assert(next.drop_last() =~= stats@.subrange(0, i as int));
            assert(next.last() == stats@[i as int]);
        }
        total.entries.add_assign(stats[i].entries);
        total.words.add_assign(stats[i].words);
        total.chars.add_assign(stats[i].chars);
        i += 1;
    }
    assert(stats@.subrange(0, i as int) =~= stats@);
    total
}

/// The text of `msgid`, or nothing.
pub open spec fn source_text(e: EntryView) -> Option<Seq<char>> {
    match e.msgid {
        Some(m) => Some(m.value),
        None => None,
    }
}

/// The text of the translation of index 0, or nothing.
pub open spec fn first_translation(e: EntryView) -> Option<Seq<char>> {
    match position_of(e.msgstr, 0) {
        Some(i) => Some(e.msgstr[i].1.value),
        None => None,
    }
}

/// The statistics after one more entry. The header entry is not counted;
/// words and characters are counted only where `with_words`.
pub open spec fn stats_with(stats: Stats, e: EntryView, with_words: bool) -> Stats {
    if is_header(e) {
        stats
    } else {
        let language = e.format_language;
        let state = state_of(e);
        let (words_id, chars_id) = match source_text(e) {
            Some(t) => if with_words {
                (word_count(language, t), char_count(language, t))
            } else {
                (0u64, 0u64)
            },
            None => (0u64, 0u64),
        };
        let (words_str, chars_str) = match first_translation(e) {
            Some(t) => if with_words {
                (word_count(language, t), char_count(language, t))
            } else {
                (0u64, 0u64)
            },
            None => (0u64, 0u64),
        };
        Stats {
            entries: entries_with(stats.entries, state),
            words: counts_with(stats.words, state, words_id, words_str),
            chars: counts_with(stats.chars, state, chars_id, chars_str),
        }
    }
}

/// The statistics of a list of entries.
pub open spec fn stats_of(entries: Seq<EntryView>, with_words: bool) -> Stats
    decreases entries.len(),
{
    if entries.len() == 0 {
        Stats {
            entries: Entries { total: 0, translated: 0, fuzzy: 0, untranslated: 0, obsolete: 0 },
            words: Counts {
                id_total: 0,
                id_translated: 0,
                id_fuzzy: 0,
                id_untranslated: 0,
                id_obsolete: 0,
                str_translated: 0,
                str_fuzzy: 0,
                str_untranslated: 0,
                str_obsolete: 0,
            },
            chars: Counts {
                id_total: 0,
                id_translated: 0,
                id_fuzzy: 0,
                id_untranslated: 0,
                id_obsolete: 0,
                str_translated: 0,
                str_fuzzy: 0,
                str_untranslated: 0,
                str_obsolete: 0,
            },
        }
    } else {
        stats_with(stats_of(entries.drop_last(), with_words), entries.last(), with_words)
    }
}

/// Adds an entry to statistics.
pub fn add_entry(stats: &mut Stats, entry: &Entry, with_words: bool)
    ensures
        *final(stats) == stats_with(*old(stats), entry@, with_words),
{
    if entry.is_header() {
        return;
    }
    let language = entry.format_language;
    let (words_id, chars_id) = match &entry.msgid {
        Some(msgid) => if with_words {
            (
                count_words(msgid.value.as_str(), &language),
                count_chars(msgid.value.as_str(), &language),
            )
        } else {
            (0, 0)
        },
        None => (0, 0),
    };
    proof {
        lemma_lower_bound_view(entry.msgstr.entries(), 0);
    }
    let (words_str, chars_str) = match entry.msgstr.get(&0) {
        Some(msgstr) => if with_words {
            (
                count_words(msgstr.value.as_str(), &language),
                count_chars(msgstr.value.as_str(), &language),
            )
        } else {
            (0, 0)
        },
        None => (0, 0),
    };
    let translated = entry.is_translated();
    proof {
        let e = entry@;
        if translated {
            let i = choose|i: int|
                0 <= i < entry.msgstr.entries().len() && (
                #[trigger] entry.msgstr.entries()[i]).1.value@.len() > 0;
            assert(e.msgstr[i].1.value.len() > 0);
        } else {
            assert forall|i: int| 0 <= i < e.msgstr.len() implies (
            #[trigger] e.msgstr[i]).1.value.len() == 0 by {
                assert(entry.msgstr.entries()[i].1.value@.len() == 0);
            }
        }
    }
    stats.entries.total = stats.entries.total.saturating_add(1);
    stats.words.id_total = stats.words.id_total.saturating_add(words_id);
    stats.chars.id_total = stats.chars.id_total.saturating_add(chars_id);
    if entry.fuzzy {
        stats.entries.fuzzy = stats.entries.fuzzy.saturating_add(1);
        stats.words.id_fuzzy = stats.words.id_fuzzy.saturating_add(words_id);
        stats.chars.id_fuzzy = stats.chars.id_fuzzy.saturating_add(chars_id);
        stats.words.str_fuzzy = stats.words.str_fuzzy.saturating_add(words_str);
        stats.chars.str_fuzzy = stats.chars.str_fuzzy.saturating_add(chars_str);
    } else if entry.obsolete {
        stats.entries.obsolete = stats.entries.obsolete.saturating_add(1);
        stats.words.id_obsolete = stats.words.id_obsolete.saturating_add(words_id);
        stats.chars.id_obsolete = stats.chars.id_obsolete.saturating_add(chars_id);
        stats.words.str_obsolete = stats.words.str_obsolete.saturating_add(words_str);
        stats.chars.str_obsolete = stats.chars.str_obsolete.saturating_add(chars_str);
    } else if translated {
        stats.entries.translated = stats.entries.translated.saturating_add(1);
        stats.words.id_translated = stats.words.id_translated.saturating_add(words_id);
        stats.chars.id_translated = stats.chars.id_translated.saturating_add(chars_id);
        stats.words.str_translated = stats.words.str_translated.saturating_add(words_str);
        stats.chars.str_translated = stats.chars.str_translated.saturating_add(chars_str);
    } else {
        stats.entries.untranslated = stats.entries.untranslated.saturating_add(1);
        stats.words.id_untranslated = stats.words.id_untranslated.saturating_add(words_id);
        stats.chars.id_untranslated = stats.chars.id_untranslated.saturating_add(chars_id);
    }
}

/// Computes the statistics of a list of entries.
pub fn stats_entries(entries: &Vec<Entry>, with_words: bool) -> (stats: Stats)
    ensures
        stats == stats_of(crate::po::parser::entries_view(entries@), with_words),
{
    let mut stats = Stats {
        entries: Entries { total: 0, translated: 0, fuzzy: 0, untranslated: 0, obsolete: 0 },
        words: Counts {
            id_total: 0,
            id_translated: 0,
            id_fuzzy: 0,
            id_untranslated: 0,
            id_obsolete: 0,
            str_translated: 0,
            str_fuzzy: 0,
            str_untranslated: 0,
            str_obsolete: 0,
        },
        chars: Counts {
            id_total: 0,
            id_translated: 0,
            id_fuzzy: 0,
            id_untranslated: 0,
            id_obsolete: 0,
            str_translated: 0,
            str_fuzzy: 0,
            str_untranslated: 0,
            str_obsolete: 0,
        },
    };
    let ghost all = crate::po::parser::entries_view(entries@);
    let mut i: usize = 0;
    assert(all.subrange(0, 0) =~= Seq::empty());
    while i < entries.len()
        invariant
            i <= entries@.len(),
            all == crate::po::parser::entries_view(entries@),
            stats == stats_of(all.subrange(0, i as int), with_words),
        decreases entries@.len() - i,
    {
        proof {
            let next = all.subrange(0, i + 1);
            assert(next.drop_last() =~= all.subrange(0, i as int));
            assert(next.last() == entries@[i as int]@);
        }
        add_entry(&mut stats, &entries[i], with_words);
        i += 1;
    }
    assert(all.subrange(0, i as int) =~= all);
    stats
}

} // verus!
