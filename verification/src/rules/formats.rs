//! Implementation of the `formats` rule: check inconsistent format strings.

use vstd::prelude::*;
use vstd::string::*;
use vstd::utf8::*;

use crate::checker::{msg_diagnostic, Checker, Scene};
use crate::diagnostic::{DiagnosticView, Severity};
use crate::po::entry::{Entry, EntryView};
use crate::po::format::format_pos::{formats_of, FormatPos};
use crate::po::format::lang_c::{fmt_sort_index, fmt_strip_index, sort_index, stripped_index};
use crate::po::format::language::Language;
use crate::po::format::MatchStrPos;
use crate::rules::common::concat;
use crate::rules::rule::RuleChecker;
use crate::text::bytes_eq;

verus! {

/// A placeholder of a string: its bytes and its position.
pub struct FormatItem {
    pub text: Seq<u8>,
    pub start: int,
    pub end: int,
}

/// The placeholders that stand at the given spans of `bytes`.
pub open spec fn span_items(bytes: Seq<u8>, spans: Seq<(int, int)>) -> Seq<FormatItem> {
    Seq::new(
        spans.len(),
        |i: int|
            FormatItem {
                text: bytes.subrange(spans[i].0, spans[i].1),
                start: spans[i].0,
                end: spans[i].1,
            },
    )
}

/// The placeholders that matches hold.
pub open spec fn match_items(matches: Seq<MatchStrPos>) -> Seq<FormatItem> {
    Seq::new(
        matches.len(),
        |i: int|
            FormatItem {
                text: matches[i].s.spec_bytes(),
                start: matches[i].start as int,
                end: matches[i].end as int,
            },
    )
}

/// The spans as highlights.
pub open spec fn highlights_of(spans: Seq<(int, int)>) -> Seq<(usize, usize)> {
    Seq::new(spans.len(), |i: int| (spans[i].0 as usize, spans[i].1 as usize))
}

/// True when the placeholder `a` comes before `b`: by the reordering
/// index first, a placeholder without one coming last, then by the start,
/// then by the end.
pub open spec fn comes_before(a: FormatItem, b: FormatItem) -> bool {
    ||| sort_index(a.text) < sort_index(b.text)
    ||| (sort_index(a.text) == sort_index(b.text) && a.start < b.start)
    ||| (sort_index(a.text) == sort_index(b.text) && a.start == b.start && a.end < b.end)
}

/// Placeholders in order, with `x` put before the first that it comes
/// before.
pub open spec fn inserted_in_order(sorted: Seq<FormatItem>, x: FormatItem) -> Seq<FormatItem>
    decreases sorted.len(),
{
    if sorted.len() == 0 {
        seq![x]
    } else if comes_before(x, sorted[0]) {
        seq![x] + sorted
    } else {
        seq![sorted[0]] + inserted_in_order(sorted.drop_first(), x)
    }
}

/// The placeholders put in order, one after the other.
pub open spec fn in_order(items: Seq<FormatItem>) -> Seq<FormatItem>
    decreases items.len(),
{
    if items.len() == 0 {
        Seq::empty()
    } else {
        inserted_in_order(in_order(items.drop_last()), items.last())
    }
}

/// True when no placeholder comes before one that stands before it.
pub open spec fn is_ordered(items: Seq<FormatItem>) -> bool {
    forall|i: int, j: int| 0 <= i < j < items.len() ==> !comes_before(items[j], items[i])
}

/// Putting a placeholder in its place keeps the order, and the number of
/// placeholders grows by one.
pub proof fn lemma_inserted_in_order(sorted: Seq<FormatItem>, x: FormatItem)
    requires
        is_ordered(sorted),
    ensures
        is_ordered(inserted_in_order(sorted, x)),
        inserted_in_order(sorted, x).len() == sorted.len() + 1,
        forall|k: int|
            0 <= k < inserted_in_order(sorted, x).len() ==> #[trigger] inserted_in_order(
                sorted,
                x,
            )[k] == x || exists|m: int|
                0 <= m < sorted.len() && sorted[m] == inserted_in_order(sorted, x)[k],
    decreases sorted.len(),
{
    let r = inserted_in_order(sorted, x);
    if sorted.len() == 0 {
    } else if comes_before(x, sorted[0]) {
        assert forall|i: int, j: int| 0 <= i < j < r.len() implies !comes_before(r[j], r[i]) by {
            if i == 0 {
                assert(r[j] == sorted[j - 1]);
                if j - 1 > 0 {
                    assert(!comes_before(sorted[j - 1], sorted[0]));
                }
            } else {
                assert(r[i] == sorted[i - 1] && r[j] == sorted[j - 1]);
            }
        }
        assert forall|k: int| 0 <= k < r.len() implies #[trigger] r[k] == x || exists|m: int|
            0 <= m < sorted.len() && sorted[m] == r[k] by {
            if k > 0 {
                assert(sorted[k - 1] == r[k]);
            }
        }
    } else {
        let rest = sorted.drop_first();
        assert(is_ordered(rest)) by {
            assert forall|i: int, j: int| 0 <= i < j < rest.len() implies !comes_before(
                rest[j],
                rest[i],
            ) by {
                assert(rest[i] == sorted[i + 1] && rest[j] == sorted[j + 1]);
            }
        }
        lemma_inserted_in_order(rest, x);
        let tail = inserted_in_order(rest, x);
        assert forall|k: int| 0 <= k < r.len() implies #[trigger] r[k] == x || exists|m: int|
            0 <= m < sorted.len() && sorted[m] == r[k] by {
            if k == 0 {
                assert(sorted[0] == r[0]);
            } else {
                assert(r[k] == tail[k - 1]);
                if tail[k - 1] != x {
                    let m = choose|m: int| 0 <= m < rest.len() && rest[m] == tail[k - 1];
                    assert(sorted[m + 1] == r[k]);
                }
            }
        }
        assert forall|i: int, j: int| 0 <= i < j < r.len() implies !comes_before(r[j], r[i]) by {
            if i == 0 {
                assert(r[j] == tail[j - 1]);
                if tail[j - 1] != x {
                    let m = choose|m: int| 0 <= m < rest.len() && rest[m] == tail[j - 1];
                    assert(!comes_before(sorted[m + 1], sorted[0]));
                }
            } else {
                assert(r[i] == tail[i - 1] && r[j] == tail[j - 1]);
            }
        }
    }
}

/// The placeholders put in order are in order, and as many as before.
pub proof fn lemma_in_order(items: Seq<FormatItem>)
    ensures
        is_ordered(in_order(items)),
        in_order(items).len() == items.len(),
    decreases items.len(),
{
    if items.len() > 0 {
        lemma_in_order(items.drop_last());
        lemma_inserted_in_order(in_order(items.drop_last()), items.last());
    }
}

/// The placeholders without their reordering indexes, in their order:
/// what is compared between a source and its translation.
pub open spec fn stripped_formats(items: Seq<FormatItem>) -> Seq<Seq<u8>> {
    Seq::new(items.len(), |i: int| stripped_index(in_order(items)[i].text))
}

/// The bytes of the strings of a list.
pub open spec fn bytes_of(strings: Seq<String>) -> Seq<Seq<u8>> {
    Seq::new(strings.len(), |i: int| encode_utf8(strings[i]@))
}

/// Tells whether a placeholder comes before another.
fn is_before(a: &MatchStrPos, b: &MatchStrPos) -> (r: bool)
    ensures
        r == comes_before(
            (FormatItem { text: a.s.spec_bytes(), start: a.start as int, end: a.end as int }),
            (FormatItem { text: b.s.spec_bytes(), start: b.start as int, end: b.end as int }),
        ),
{
    let ka = fmt_sort_index(a.s);
    let kb = fmt_sort_index(b.s);
    ka < kb || (ka == kb && a.start < b.start) || (ka == kb && a.start == b.start && a.end < b.end)
}

/// Returns the placeholders in their order: by reordering index, then by
/// position.
pub fn sort_formats<'a>(matches: &Vec<MatchStrPos<'a>>) -> (sorted: Vec<MatchStrPos<'a>>)
    ensures
        match_items(sorted@) == in_order(match_items(matches@)),
{
    let mut sorted: Vec<MatchStrPos<'a>> = Vec::new();
    let mut i: usize = 0;
    assert(match_items(matches@).subrange(0, 0) =~= Seq::empty());
    assert(match_items(sorted@) =~= Seq::empty());
    while i < matches.len()
        invariant
            i <= matches@.len(),
            match_items(sorted@) == in_order(match_items(matches@).subrange(0, i as int)),
        decreases matches@.len() - i,
    {
        let x = matches[i];
        let ghost item = match_items(matches@)[i as int];
        let ghost before = match_items(sorted@);
        let mut at: usize = 0;
        assert(before.subrange(0, 0) + inserted_in_order(
            before.subrange(0, before.len() as int),
            item,
        ) =~= inserted_in_order(before, item)) by {
            assert(before.subrange(0, before.len() as int) =~= before);
        }
        while at < sorted.len() && !is_before(&x, &sorted[at])
            invariant
                at <= sorted@.len(),
                before == match_items(sorted@),
                item == (FormatItem {
                    text: x.s.spec_bytes(),
                    start: x.start as int,
                    end: x.end as int,
                }),
                inserted_in_order(before, item) == before.subrange(0, at as int)
                    + inserted_in_order(before.subrange(at as int, before.len() as int), item),
            decreases sorted@.len() - at,
        {
            proof {
                let rest = before.subrange(at as int, before.len() as int);
                assert(rest[0] == before[at as int]);
                assert(rest.drop_first() =~= before.subrange(at + 1, before.len() as int));
                assert(before.subrange(0, at + 1) =~= before.subrange(0, at as int).push(
                    before[at as int],
                ));
                assert(inserted_in_order(before, item) =~= before.subrange(0, at + 1)
                    + inserted_in_order(before.subrange(at + 1, before.len() as int), item));
            }
            at += 1;
        }
        proof {
            let rest = before.subrange(at as int, before.len() as int);
            if at < before.len() {
                assert(rest[0] == before[at as int]);
                assert(inserted_in_order(rest, item) =~= seq![item] + rest);
            } else {
                assert(inserted_in_order(rest, item) =~= seq![item]);
            }
        }
        sorted.insert(at, x);
        proof {
            let whole = match_items(matches@);
            assert(match_items(sorted@) =~= inserted_in_order(before, item));
            assert(whole.subrange(0, i + 1).drop_last() =~= whole.subrange(0, i as int));
            assert(whole.subrange(0, i + 1).last() == item);
        }
        i += 1;
    }
    assert(match_items(matches@).subrange(0, i as int) =~= match_items(matches@));
    sorted
}

/// Returns the placeholders without their reordering indexes, in their
/// order.
pub fn sorted_stripped(matches: &Vec<MatchStrPos>) -> (r: Vec<String>)
    ensures
        bytes_of(r@) == stripped_formats(match_items(matches@)),
{
    let sorted = sort_formats(matches);
    let ghost items = match_items(matches@);
    proof {
        lemma_in_order(items);
    }
    let mut r: Vec<String> = Vec::new();
    let mut i: usize = 0;
    while i < sorted.len()
        invariant
            i <= sorted@.len(),
            match_items(sorted@) == in_order(items),
            in_order(items).len() == items.len(),
            bytes_of(r@) == stripped_formats(items).subrange(0, i as int),
        decreases sorted@.len() - i,
    {
        let ghost before = bytes_of(r@);
        assert(match_items(sorted@)[i as int].text == sorted@[i as int].s.spec_bytes());
        r.push(fmt_strip_index(sorted[i].s));
        assert(bytes_of(r@) =~= before.push(stripped_index(in_order(items)[i as int].text)));
        assert(bytes_of(r@) =~= stripped_formats(items).subrange(0, i + 1));
        i += 1;
    }
    assert(stripped_formats(items).subrange(0, i as int) =~= stripped_formats(items));
    r
}

/// Tells whether two lists hold the same strings in the same order.
pub fn same_strings(a: &Vec<String>, b: &Vec<String>) -> (r: bool)
    ensures
        r == (bytes_of(a@) == bytes_of(b@)),
{
    if a.len() != b.len() {
        assert(bytes_of(a@).len() != bytes_of(b@).len());
        return false;
    }
    let mut i: usize = 0;
    while i < a.len()
        invariant
            a@.len() == b@.len(),
            i <= a@.len(),
            forall|k: int| 0 <= k < i ==> bytes_of(a@)[k] == bytes_of(b@)[k],
        decreases a@.len() - i,
    {
        if !bytes_eq(a[i].as_str().as_bytes(), b[i].as_str().as_bytes()) {
            assert(bytes_of(a@)[i as int] != bytes_of(b@)[i as int]);
            return false;
        }
        i += 1;
    }
    assert(bytes_of(a@) =~= bytes_of(b@));
    true
}

/// True when the text `t` is the text of a placeholder of `b`.
pub open spec fn text_among(t: Seq<u8>, b: Seq<FormatItem>) -> bool {
    exists|j: int| 0 <= j < b.len() && (#[trigger] b[j]).text == t
}

/// True when every text of `a` is among the texts of `b`.
pub open spec fn all_among(a: Seq<FormatItem>, b: Seq<FormatItem>) -> bool {
    forall|i: int| 0 <= i < a.len() ==> text_among((#[trigger] a[i]).text, b)
}

/// True when the two lists of placeholders hold the same texts, whatever
/// their order and their number.
pub open spec fn same_texts(a: Seq<FormatItem>, b: Seq<FormatItem>) -> bool {
    all_among(a, b) && all_among(b, a)
}

/// Tells whether every placeholder of `a` is among those of `b`.
fn is_among(a: &Vec<MatchStrPos>, b: &Vec<MatchStrPos>) -> (r: bool)
    ensures
        r == all_among(match_items(a@), match_items(b@)),
{
    let ghost id_items = match_items(a@);
    let ghost str_items = match_items(b@);
    let mut i: usize = 0;
    while i < a.len()
        invariant
            i <= a@.len(),
            id_items == match_items(a@),
            str_items == match_items(b@),
            forall|k: int| 0 <= k < i ==> text_among((#[trigger] id_items[k]).text, str_items),
        decreases a@.len() - i,
    {
        let mut found = false;
        let mut j: usize = 0;
        while j < b.len() && !found
            invariant
                i < a@.len(),
                j <= b@.len(),
                id_items == match_items(a@),
                str_items == match_items(b@),
                found ==> text_among(id_items[i as int].text, str_items),
                !found ==> forall|m: int|
                    0 <= m < j ==> (#[trigger] str_items[m]).text != id_items[i as int].text,
            decreases b@.len() - j + if found { 0int } else { 1int },
        {
            if bytes_eq(a[i].s.as_bytes(), b[j].s.as_bytes()) {
                assert(str_items[j as int].text == id_items[i as int].text);
                found = true;
            } else {
                j += 1;
            }
        }
        if !found {
            assert(!text_among(id_items[i as int].text, str_items));
            return false;
        }
        i += 1;
    }
    true
}

/// True when the placeholders of a source and of its translation do not
/// agree: for the C language, the placeholders without their reordering
/// indexes differ once they are put in order; for the other languages,
/// they are not the same set.
pub open spec fn formats_differ(
    language: Language,
    id_items: Seq<FormatItem>,
    str_items: Seq<FormatItem>,
) -> bool {
    if language == Language::C {
        stripped_formats(id_items) != stripped_formats(str_items)
    } else {
        !same_texts(id_items, str_items)
    }
}

/// Returns the positions of matches.
pub fn positions_of(matches: &Vec<MatchStrPos>) -> (v: Vec<(usize, usize)>)
    ensures
        v@ == Seq::new(matches@.len(), |i: int| (matches@[i].start, matches@[i].end)),
{
    let mut v: Vec<(usize, usize)> = Vec::new();
    let mut i: usize = 0;
    while i < matches.len()
        invariant
            i <= matches@.len(),
            v@ == Seq::new(i as nat, |k: int| (matches@[k].start, matches@[k].end)),
        decreases matches@.len() - i,
    {
        v.push((matches[i].start, matches[i].end));
        assert(v@ =~= Seq::new((i + 1) as nat, |k: int| (matches@[k].start, matches@[k].end)));
        i += 1;
    }
    v
}

/// The rule `formats`: placeholders of the translation that are not those
/// of the source.
#[derive(Clone, Copy, Debug)]
pub struct FormatsRule;

impl RuleChecker for FormatsRule {
    open spec fn label(&self) -> Seq<char> {
        "formats"@
    }

    open spec fn default_on(&self) -> bool {
        true
    }

    open spec fn checks(&self) -> bool {
        true
    }

    open spec fn level(&self) -> Severity {
        Severity::Error
    }

    open spec fn entry_findings(&self, scene: Scene, entry: EntryView) -> Seq<DiagnosticView> {
        Seq::empty()
    }

    open spec fn ctxt_findings(&self, scene: Scene, entry: EntryView, msgctxt: Seq<char>) -> Seq<
        DiagnosticView,
    > {
        Seq::empty()
    }

    /// In an entry with a format language, placeholders of the source and
    /// of the translation that do not agree are reported as `inconsistent
    /// format strings (...)`, with the name of the language, every
    /// placeholder highlighted.
    open spec fn msg_findings(
        &self,
        scene: Scene,
        entry: EntryView,
        msgid: Seq<char>,
        msgstr: Seq<char>,
    ) -> Seq<DiagnosticView> {
        let language = entry.format_language;
        let id_spans = formats_of(language, encode_utf8(msgid));
        let str_spans = formats_of(language, encode_utf8(msgstr));
        if language != Language::Null && formats_differ(
            language,
            span_items(encode_utf8(msgid), id_spans),
            span_items(encode_utf8(msgstr), str_spans),
        ) {
            seq![
                msg_diagnostic(
                    scene.stamp,
                    "inconsistent format strings ("@ + language.display() + ")"@,
                    msgid,
                    highlights_of(id_spans),
                    msgstr,
                    highlights_of(str_spans),
                ),
            ]
        } else {
            Seq::empty()
        }
    }

    fn name(&self) -> (r: &'static str) {
        "formats"
    }

    fn is_default(&self) -> (r: bool) {
        true
    }

    fn is_check(&self) -> (r: bool) {
        true
    }

    fn severity(&self) -> (r: Severity) {
        Severity::Error
    }

    fn check_entry(&self, checker: &mut Checker, entry: &Entry) {
    }

    fn check_ctxt(&self, checker: &mut Checker, entry: &Entry, msgctxt: &str) {
    }

    fn check_msg(&self, checker: &mut Checker, entry: &Entry, msgid: &str, msgstr: &str) {
        let language = entry.format_language;
        if language == Language::Null {
            return;
        }
        let id_fmt = FormatPos::new(msgid, &language).collect();
        let str_fmt = FormatPos::new(msgstr, &language).collect();
        let ghost id_spans = formats_of(language, encode_utf8(msgid@));
        let ghost str_spans = formats_of(language, encode_utf8(msgstr@));
        proof {
            assert(match_items(id_fmt@) =~= span_items(encode_utf8(msgid@), id_spans));
            assert(match_items(str_fmt@) =~= span_items(encode_utf8(msgstr@), str_spans));
        }
        let error = if language == Language::C {
            // C format strings can hold a reordering index: they are put in
            // order and compared without it.
            !same_strings(&sorted_stripped(&id_fmt), &sorted_stripped(&str_fmt))
        } else {
            // Other languages: the format strings must be the same, in any
            // order.
            !(is_among(&id_fmt, &str_fmt) && is_among(&str_fmt, &id_fmt))
        };
        if error {
            let pos_id = positions_of(&id_fmt);
            let pos_str = positions_of(&str_fmt);
            proof {
                assert(pos_id@ =~= highlights_of(id_spans));
                assert(pos_str@ =~= highlights_of(str_spans));
            }
            let mut message = concat("inconsistent format strings (", language.name());
            message.append(")");
            checker.report_msg(
                entry,
                message,
                msgid,
                pos_id.as_slice(),
                msgstr,
                pos_str.as_slice(),
            );
        }
    }
}

} // verus!
