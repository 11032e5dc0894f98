//! PO file entry.

use vstd::prelude::*;
use vstd::string::*;

use crate::po::escape::{escaped, unescaped, EscapePoExt};
use crate::po::format::language::Language;
use crate::po::message::{Message, MessageView};
use crate::po::translations::{position_of, translations_view, Translations};
use crate::text::{decimal_text, push_decimal, texts};

verus! {

/// One record of a catalog: source strings, optional context, translations
/// and the flags read from its comments.
#[derive(Debug, PartialEq, Eq)]
pub struct Entry {
    pub line_number: usize,
    pub keywords: Vec<String>,
    pub fuzzy: bool,
    pub obsolete: bool,
    pub noqa: bool,
    pub noqa_rules: Vec<String>,
    pub nowrap: bool,
    pub format_language: Language,
    pub encoding_error: bool,
    pub msgctxt: Option<Message>,
    pub msgid: Option<Message>,
    pub msgid_plural: Option<Message>,
    pub msgstr: Translations,
}

/// What an entry holds.
pub struct EntryView {
    pub line_number: usize,
    pub keywords: Seq<Seq<char>>,
    pub fuzzy: bool,
    pub obsolete: bool,
    pub noqa: bool,
    pub noqa_rules: Seq<Seq<char>>,
    pub nowrap: bool,
    pub format_language: Language,
    pub encoding_error: bool,
    pub msgctxt: Option<MessageView>,
    pub msgid: Option<MessageView>,
    pub msgid_plural: Option<MessageView>,
    pub msgstr: Seq<(u32, MessageView)>,
}

/// What an optional message holds.
pub open spec fn field_view(field: Option<Message>) -> Option<MessageView> {
    match field {
        Some(m) => Some(m@),
        None => None,
    }
}

impl View for Entry {
    type V = EntryView;

    open spec fn view(&self) -> EntryView {
        EntryView {
            line_number: self.line_number,
            keywords: texts(self.keywords@),
            fuzzy: self.fuzzy,
            obsolete: self.obsolete,
            noqa: self.noqa,
            noqa_rules: texts(self.noqa_rules@),
            nowrap: self.nowrap,
            format_language: self.format_language,
            encoding_error: self.encoding_error,
            msgctxt: field_view(self.msgctxt),
            msgid: field_view(self.msgid),
            msgid_plural: field_view(self.msgid_plural),
            msgstr: translations_view(self.msgstr.entries()),
        }
    }
}

/// True when `after` is `before` with `text` added at the end of its value,
/// or both are absent.
pub open spec fn appended(
    before: Option<Message>,
    after: Option<Message>,
    text: Seq<char>,
) -> bool {
    match before {
        Some(m) => after is Some && after->0.line_number == m.line_number && after->0.value@
            == m.value@ + text,
        None => after is None,
    }
}

/// True when `after` is `before` with its value replaced by what `change`
/// makes of it, or both are absent.
pub open spec fn value_mapped(
    before: Option<Message>,
    after: Option<Message>,
    change: spec_fn(Seq<char>) -> Seq<char>,
) -> bool {
    match before {
        Some(m) => after is Some && after->0.line_number == m.line_number && after->0.value@
            == change(m.value@),
        None => after is None,
    }
}

/// True when `after` holds the translations of `before`, under the same
/// indexes and lines, each value replaced by what `change` makes of it.
pub open spec fn values_mapped(
    before: Seq<(u32, Message)>,
    after: Seq<(u32, Message)>,
    change: spec_fn(Seq<char>) -> Seq<char>,
) -> bool {
    &&& after.len() == before.len()
    &&& forall|i: int|
        0 <= i < before.len() ==> (#[trigger] after[i]).0 == before[i].0
            && after[i].1.line_number == before[i].1.line_number && after[i].1.value@ == change(
            before[i].1.value@,
        )
}

/// The line of a PO file that gives `value` to the field `keyword`.
pub open spec fn po_line(prefix: Seq<char>, keyword: Seq<char>, value: Seq<char>) -> Seq<char> {
    prefix + keyword + seq![' ', '"'] + escaped(value) + seq!['"']
}

/// The lines of the text of a list of numbered lines.
pub open spec fn lines_view(lines: Seq<(usize, String)>) -> Seq<(usize, Seq<char>)> {
    Seq::new(lines.len(), |i: int| (lines[i].0, lines[i].1@))
}

/// What every line of an obsolete entry starts with.
pub open spec fn line_prefix(obsolete: bool) -> Seq<char> {
    if obsolete {
        "#~ "@
    } else {
        ""@
    }
}

/// The keyword of the translation with the given index: with the index
/// where the entry has a plural form or more than one translation.
pub open spec fn msgstr_keyword(e: EntryView, index: u32) -> Seq<char> {
    if e.msgid_plural is Some || e.msgstr.len() > 1 {
        "msgstr["@ + decimal_text(index as nat) + "]"@
    } else {
        "msgstr"@
    }
}

/// The line of a field, if the field is set.
pub open spec fn field_line(e: EntryView, field: Option<MessageView>, keyword: Seq<char>) -> Seq<
    (usize, Seq<char>),
> {
    match field {
        Some(m) => seq![(m.line_number, po_line(line_prefix(e.obsolete), keyword, m.value))],
        None => Seq::empty(),
    }
}

/// The lines of the translations, in the order of the indexes.
pub open spec fn msgstr_lines(e: EntryView) -> Seq<(usize, Seq<char>)> {
    Seq::new(
        e.msgstr.len(),
        |i: int|
            (
                e.msgstr[i].1.line_number,
                po_line(
                    line_prefix(e.obsolete),
                    msgstr_keyword(e, e.msgstr[i].0),
                    e.msgstr[i].1.value,
                ),
            ),
    )
}

/// The lines that write an entry in a PO file, each with the number of the
/// line that the field came from.
pub open spec fn po_lines(e: EntryView) -> Seq<(usize, Seq<char>)> {
    field_line(e, e.msgctxt, "msgctxt"@) + field_line(e, e.msgid, "msgid"@) + field_line(
        e,
        e.msgid_plural,
        "msgid_plural"@,
    ) + msgstr_lines(e)
}

impl Default for Entry {
    fn default() -> (r: Self)
        ensures
            r.line_number == 0,
            r.is_blank(),
            r.msgstr.in_order(),
    {
        Entry::new(0)
    }
}

impl Entry {
    /// True when this entry holds no field, keyword or flag.
    pub open spec fn is_blank(&self) -> bool {
        &&& self.keywords@.len() == 0
        &&& !self.fuzzy
        &&& !self.obsolete
        &&& !self.noqa
        &&& self.noqa_rules@.len() == 0
        &&& !self.nowrap
        &&& self.format_language == Language::Null
        &&& !self.encoding_error
        &&& self.msgctxt is None
        &&& self.msgid is None
        &&& self.msgid_plural is None
        &&& self.msgstr.entries().len() == 0
    }

    /// Creates an entry that starts at the given line and holds nothing yet.
    #[must_use]
    pub fn new(line_number: usize) -> (r: Self)
        ensures
            r.line_number == line_number,
            r.is_blank(),
            r.msgstr.in_order(),
    {
        Entry {
            line_number,
            keywords: Vec::new(),
            fuzzy: false,
            obsolete: false,
            noqa: false,
            noqa_rules: Vec::new(),
            nowrap: false,
            format_language: Language::Null,
            encoding_error: false,
            msgctxt: None,
            msgid: None,
            msgid_plural: None,
            msgstr: Translations::new(),
        }
    }

    /// Appends text to the message context, if there is one.
    pub fn append_msgctxt(&mut self, additional: &str)
        ensures
            appended(old(self).msgctxt, final(self).msgctxt, additional@),
            *final(self) == (Entry { msgctxt: final(self).msgctxt, ..*old(self) }),
    {
        match self.msgctxt.take() {
            Some(m) => {
                let mut m = m;
                m.value.append(additional);
                self.msgctxt = Some(m);
            },
            None => {},
        }
    }

    /// Appends text to the message id, if there is one.
    pub fn append_msgid(&mut self, additional: &str)
        ensures
            appended(old(self).msgid, final(self).msgid, additional@),
            *final(self) == (Entry { msgid: final(self).msgid, ..*old(self) }),
    {
        match self.msgid.take() {
            Some(m) => {
                let mut m = m;
                m.value.append(additional);
                self.msgid = Some(m);
            },
            None => {},
        }
    }

    /// Appends text to the plural message id, if there is one.
    pub fn append_msgid_plural(&mut self, additional: &str)
        ensures
            appended(old(self).msgid_plural, final(self).msgid_plural, additional@),
            *final(self) == (Entry { msgid_plural: final(self).msgid_plural, ..*old(self) }),
    {
        match self.msgid_plural.take() {
            Some(m) => {
                let mut m = m;
                m.value.append(additional);
                self.msgid_plural = Some(m);
            },
            None => {},
        }
    }

    /// Appends text to the translation with the given index, if there is
    /// one.
    pub fn append_msgstr(&mut self, index: u32, additional: &str)
        ensures
            *final(self) == (Entry { msgstr: final(self).msgstr, ..*old(self) }),
            old(self).msgstr.in_order() ==> final(self).msgstr.in_order(),
            final(self).msgstr.entries().len() == old(self).msgstr.entries().len(),
            forall|i: int|
                0 <= i < old(self).msgstr.entries().len() ==> {
                    let before = old(self).msgstr.entries()[i];
                    let after = #[trigger] final(self).msgstr.entries()[i];
                    &&& after.0 == before.0
                    &&& after.1.line_number == before.1.line_number
                    &&& after.1.value@ == if position_of(
                        old(self).msgstr.entries(),
                        index,
                    ) == Some(i) {
                        before.1.value@ + additional@
                    } else {
                        before.1.value@
                    }
                },
    {
        match self.msgstr.find(index) {
            Some(i) => {
                let mut text = self.msgstr.value_at(i).value.clone();
                text.append(additional);
                self.msgstr.set_text(i, text);
            },
            None => {},
        }
    }

    /// Returns `true` if this entry is the header entry: `msgid` is set and
    /// is an empty string.
    #[must_use]
    pub fn is_header(&self) -> (r: bool)
        ensures
            r == (self.msgid is Some && self.msgid->0.value@.len() == 0),
    {
        match &self.msgid {
            Some(msg) => msg.value.as_str().is_empty(),
            None => false,
        }
    }

    /// Returns `true` if this entry has a plural form: `msgid_plural` is
    /// set.
    #[must_use]
    pub fn has_plural_form(&self) -> (r: bool)
        ensures
            r == (self.msgid_plural is Some),
    {
        self.msgid_plural.is_some()
    }

    /// Returns `true` if this entry has at least one translation that is not
    /// empty, even if the entry is marked as fuzzy.
    #[must_use]
    pub fn is_translated(&self) -> (r: bool)
        ensures
            r == (exists|i: int|
                0 <= i < self.msgstr.entries().len() && (
                #[trigger] self.msgstr.entries()[i]).1.value@.len() > 0),
    {
        let n = self.msgstr.len();
        let mut i: usize = 0;
        while i < n
            invariant
                n == self.msgstr.entries().len(),
                i <= n,
                forall|k: int|
                    0 <= k < i ==> (#[trigger] self.msgstr.entries()[k]).1.value@.len() == 0,
            decreases n - i,
        {
            if !self.msgstr.value_at(i).value.as_str().is_empty() {
                return true;
            }
            i += 1;
        }
        false
    }

    /// The source strings of an entry: `msgid`, then `msgid_plural`, each if
    /// it is set.
    pub open spec fn ids(&self) -> Seq<Message> {
        (match self.msgid {
            Some(m) => seq![m],
            None => Seq::empty(),
        }) + (match self.msgid_plural {
            Some(m) => seq![m],
            None => Seq::empty(),
        })
    }

    /// Returns the source strings of this entry: `msgid` if present, then
    /// `msgid_plural` if present.
    pub fn iter_ids(&self) -> (v: Vec<&Message>)
        ensures
            v@.len() == self.ids().len(),
            forall|i: int| 0 <= i < v@.len() ==> *(#[trigger] v@[i]) == self.ids()[i],
    {
        let mut v: Vec<&Message> = Vec::new();
        match &self.msgid {
            Some(m) => {
                v.push(m);
            },
            None => {},
        }
        match &self.msgid_plural {
            Some(m) => {
                v.push(m);
            },
            None => {},
        }
        v
    }

    /// Returns the translations of this entry with their indexes, in the
    /// order of the indexes.
    pub fn iter_strs(&self) -> (v: Vec<(u32, &Message)>)
        ensures
            v@.len() == self.msgstr.entries().len(),
            forall|i: int|
                0 <= i < v@.len() ==> (#[trigger] v@[i]).0 == self.msgstr.entries()[i].0
                    && *v@[i].1 == self.msgstr.entries()[i].1,
    {
        let mut v: Vec<(u32, &Message)> = Vec::new();
        let n = self.msgstr.len();
        let mut i: usize = 0;
        while i < n
            invariant
                n == self.msgstr.entries().len(),
                i <= n,
                v@.len() == i,
                forall|k: int|
                    0 <= k < i ==> (#[trigger] v@[k]).0 == self.msgstr.entries()[k].0 && *v@[k].1
                        == self.msgstr.entries()[k].1,
            decreases n - i,
        {
            v.push((self.msgstr.key_at(i), self.msgstr.value_at(i)));
            i += 1;
        }
        v
    }

    /// Escapes every string field of this entry.
    pub fn escape_strings(&mut self)
        ensures
            value_mapped(old(self).msgctxt, final(self).msgctxt, |s: Seq<char>| escaped(s)),
            value_mapped(old(self).msgid, final(self).msgid, |s: Seq<char>| escaped(s)),
            value_mapped(
                old(self).msgid_plural,
                final(self).msgid_plural,
                |s: Seq<char>| escaped(s),
            ),
            values_mapped(
                old(self).msgstr.entries(),
                final(self).msgstr.entries(),
                |s: Seq<char>| escaped(s),
            ),
            old(self).msgstr.in_order() ==> final(self).msgstr.in_order(),
            *final(self) == (Entry {
                msgctxt: final(self).msgctxt,
                msgid: final(self).msgid,
                msgid_plural: final(self).msgid_plural,
                msgstr: final(self).msgstr,
                ..*old(self)
            }),
    {
        match self.msgctxt.take() {
            Some(m) => {
                let mut m = m;
                m.escape();
                self.msgctxt = Some(m);
            },
            None => {},
        }
        match self.msgid.take() {
            Some(m) => {
                let mut m = m;
                m.escape();
                self.msgid = Some(m);
            },
            None => {},
        }
        match self.msgid_plural.take() {
            Some(m) => {
                let mut m = m;
                m.escape();
                self.msgid_plural = Some(m);
            },
            None => {},
        }
        let ghost fields = *self;
        let n = self.msgstr.len();
        let mut i: usize = 0;
        while i < n
            invariant
                n == old(self).msgstr.entries().len(),
                n == self.msgstr.entries().len(),
                i <= n,
                old(self).msgstr.in_order() ==> self.msgstr.in_order(),
                *self == (Entry { msgstr: self.msgstr, ..fields }),
                forall|k: int|
                    0 <= k < n ==> (#[trigger] self.msgstr.entries()[k]).0
                        == old(self).msgstr.entries()[k].0 && self.msgstr.entries()[k].1.line_number
                        == old(self).msgstr.entries()[k].1.line_number,
                forall|k: int|
                    0 <= k < i ==> (#[trigger] self.msgstr.entries()[k]).1.value@ == escaped(
                        old(self).msgstr.entries()[k].1.value@,
                    ),
                forall|k: int|
                    i <= k < n ==> (#[trigger] self.msgstr.entries()[k]).1.value@
                        == old(self).msgstr.entries()[k].1.value@,
            decreases n - i,
        {
            let text = self.msgstr.value_at(i).value.as_str().escape_po();
            self.msgstr.set_text(i, text);
            i += 1;
        }
    }

    /// Replaces the escape sequences of every string field of this entry.
    pub fn unescape_strings(&mut self)
        ensures
            value_mapped(old(self).msgctxt, final(self).msgctxt, |s: Seq<char>| unescaped(s)),
            value_mapped(old(self).msgid, final(self).msgid, |s: Seq<char>| unescaped(s)),
            value_mapped(
                old(self).msgid_plural,
                final(self).msgid_plural,
                |s: Seq<char>| unescaped(s),
            ),
            values_mapped(
                old(self).msgstr.entries(),
                final(self).msgstr.entries(),
                |s: Seq<char>| unescaped(s),
            ),
            old(self).msgstr.in_order() ==> final(self).msgstr.in_order(),
            *final(self) == (Entry {
                msgctxt: final(self).msgctxt,
                msgid: final(self).msgid,
                msgid_plural: final(self).msgid_plural,
                msgstr: final(self).msgstr,
                ..*old(self)
            }),
    {
        match self.msgctxt.take() {
            Some(m) => {
                let mut m = m;
                m.unescape();
                self.msgctxt = Some(m);
            },
            None => {},
        }
        match self.msgid.take() {
            Some(m) => {
                let mut m = m;
                m.unescape();
                self.msgid = Some(m);
            },
            None => {},
        }
        match self.msgid_plural.take() {
            Some(m) => {
                let mut m = m;
                m.unescape();
                self.msgid_plural = Some(m);
            },
            None => {},
        }
        let ghost fields = *self;
        let n = self.msgstr.len();
        let mut i: usize = 0;
        while i < n
            invariant
                n == old(self).msgstr.entries().len(),
                n == self.msgstr.entries().len(),
                i <= n,
                old(self).msgstr.in_order() ==> self.msgstr.in_order(),
                *self == (Entry { msgstr: self.msgstr, ..fields }),
                forall|k: int|
                    0 <= k < n ==> (#[trigger] self.msgstr.entries()[k]).0
                        == old(self).msgstr.entries()[k].0 && self.msgstr.entries()[k].1.line_number
                        == old(self).msgstr.entries()[k].1.line_number,
                forall|k: int|
                    0 <= k < i ==> (#[trigger] self.msgstr.entries()[k]).1.value@ == unescaped(
                        old(self).msgstr.entries()[k].1.value@,
                    ),
                forall|k: int|
                    i <= k < n ==> (#[trigger] self.msgstr.entries()[k]).1.value@
                        == old(self).msgstr.entries()[k].1.value@,
            decreases n - i,
        {
            let text = self.msgstr.value_at(i).value.as_str().unescape_po();
            self.msgstr.set_text(i, text);
            i += 1;
        }
    }

    /// Writes one line of a field.
    fn format_line(&self, keyword: &str, index: Option<u32>, value: &str) -> (r: String)
        ensures
            r@ == po_line(
                line_prefix(self.obsolete),
                match index {
                    Some(i) => keyword@ + seq!['['] + decimal_text(i as nat) + seq![']'],
                    None => keyword@,
                },
                value@,
            ),
    {
        let mut line = String::new();
        if self.obsolete {
            line.append("#~ ");
        } else {
            proof {
                reveal_strlit("");
            }
        }
        line.append(keyword);
        match index {
            Some(i) => {
                line.push('[');
                push_decimal(&mut line, i as u64);
                line.push(']');
            },
            None => {},
        }
        line.push(' ');
        line.push('"');
        let escaped_value = value.escape_po();
        line.append(escaped_value.as_str());
        line.push('"');
        proof {
            let k = match index {
                Some(i) => keyword@ + seq!['['] + decimal_text(i as nat) + seq![']'],
                None => keyword@,
            };
            assert(line@ =~= line_prefix(self.obsolete) + k + seq![' ', '"'] + escaped(value@)
                + seq!['"']);
        }
        line
    }

    /// Converts this entry back to the lines of a PO file.
    #[must_use]
    pub fn to_po_lines(&self) -> (lines: Vec<(usize, String)>)
        ensures
            lines_view(lines@) == po_lines(self@),
    {
        let mut lines: Vec<(usize, String)> = Vec::with_capacity(5);
        match &self.msgctxt {
            Some(msg) => {
                lines.push(
                    (msg.line_number, self.format_line("msgctxt", None, msg.value.as_str())),
                );
            },
            None => {},
        }
        match &self.msgid {
            Some(msg) => {
                lines.push((msg.line_number, self.format_line("msgid", None, msg.value.as_str())));
            },
            None => {},
        }
        match &self.msgid_plural {
            Some(msg) => {
                lines.push(
                    (msg.line_number, self.format_line("msgid_plural", None, msg.value.as_str())),
                );
            },
            None => {},
        }
        let ghost e = self@;
        let ghost head = field_line(e, e.msgctxt, "msgctxt"@) + field_line(e, e.msgid, "msgid"@)
            + field_line(e, e.msgid_plural, "msgid_plural"@);
        assert(lines_view(lines@) =~= head);
        let with_index = self.has_plural_form() || self.msgstr.len() > 1;
        let n = self.msgstr.len();
        let mut i: usize = 0;
        while i < n
            invariant
                n == self.msgstr.entries().len(),
                i <= n,
                with_index == (self.msgid_plural is Some || self.msgstr.entries().len() > 1),
                e == self@,
                lines_view(lines@) == head + msgstr_lines(e).subrange(0, i as int),
            decreases n - i,
        {
            let ghost before = lines_view(lines@);
            let msg = self.msgstr.value_at(i);
            let idx = self.msgstr.key_at(i);
            let line = if with_index {
                self.format_line("msgstr", Some(idx), msg.value.as_str())
            } else {
                self.format_line("msgstr", None, msg.value.as_str())
            };
            proof {
                reveal_strlit("msgstr[");
                reveal_strlit("msgstr");
                reveal_strlit("]");
                assert("msgstr["@ =~= "msgstr"@ + seq!['[']);
                assert("]"@ =~= seq![']']);
            }
            lines.push((msg.line_number, line));
            proof {
                assert(lines_view(lines@) =~= before.push((msg.line_number, line@)));
                assert(e.msgstr[i as int] == (idx, msg@));
                assert(msgstr_lines(e).subrange(0, i + 1) =~= msgstr_lines(e).subrange(
                    0,
                    i as int,
                ).push(msgstr_lines(e)[i as int]));
            }
            i += 1;
        }
        assert(msgstr_lines(e).subrange(0, i as int) =~= msgstr_lines(e));
        lines
    }
}

} // verus!
