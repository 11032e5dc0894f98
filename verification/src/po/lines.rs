//! Line fidelity of the parser: the messages of an entry bear the numbers
//! of the lines of the catalog on which they start.

use vstd::prelude::*;
use vstd::string::*;
use vstd::utf8::*;

use encoding_rs::Encoding;

use crate::ascii;
use crate::po::entry::EntryView;
use crate::po::message::MessageView;
use crate::po::parser::{
    blank_entry, extended_at, keyword_applied, keyword_text, keywords_applied, line_applied,
    line_text, message_applied, next_entry, plural_index, scanned, unescaped_entry, Cursor, Field,
    HeaderView, Scan,
};
use crate::po::translations::{inserted, lemma_lower_bound, position_of};
use crate::text::{find_byte, has_prefix, left, lemma_find_byte};

verus! {

/// The number of the line that holds the byte at `offset`: one more than
/// the number of line feeds before it.
pub open spec fn line_number_at(data: Seq<u8>, offset: int) -> int
    decreases offset,
{
    if offset <= 0 {
        1
    } else if offset - 1 < data.len() && data[offset - 1] == ascii::LF {
        line_number_at(data, offset - 1) + 1
    } else {
        line_number_at(data, offset - 1)
    }
}

/// True when a line starts at `offset`.
pub open spec fn is_line_start(data: Seq<u8>, offset: int) -> bool {
    0 <= offset < data.len() && (offset == 0 || data[offset - 1] == ascii::LF)
}

/// The line that starts at `offset`, without its line feed.
pub open spec fn line_at(data: Seq<u8>, offset: int) -> Seq<u8> {
    data.subrange(offset, find_byte(data, offset, ascii::LF))
}

/// The part of a line that is read as a message line: the line without the
/// mark of an obsolete entry.
pub open spec fn message_part(line: Seq<u8>) -> Seq<u8> {
    let obsolete = encode_utf8("#~ "@);
    if has_prefix(line, obsolete) {
        line.subrange(obsolete.len() as int, line.len() as int)
    } else {
        line
    }
}

/// The field that a message line starts, if its keyword starts one.
pub open spec fn field_started(line: Seq<u8>) -> Option<Field> {
    if has_prefix(line, encode_utf8("msgctxt"@)) {
        Some(Field::Ctxt)
    } else if has_prefix(line, encode_utf8("msgid_plural"@)) {
        Some(Field::IdPlural)
    } else if has_prefix(line, encode_utf8("msgid"@)) {
        Some(Field::Id)
    } else if has_prefix(line, encode_utf8("msgstr["@)) {
        match plural_index(line) {
            Some(index) => Some(Field::Str(index)),
            None => None,
        }
    } else if has_prefix(line, encode_utf8("msgstr"@)) {
        Some(Field::Str(0))
    } else {
        None
    }
}

/// True when a line with the keyword of `field` starts at `offset`, and
/// `number` is the number of that line.
pub open spec fn starts_at(data: Seq<u8>, field: Field, number: usize, offset: int) -> bool {
    &&& is_line_start(data, offset)
    &&& number == line_number_at(data, offset)
    &&& field_started(message_part(line_at(data, offset))) == Some(field)
}

/// True when the message of `field` bears the number of a line between
/// `lo` and `hi` that starts this field.
pub open spec fn on_its_line(
    data: Seq<u8>,
    field: Field,
    m: MessageView,
    lo: int,
    hi: int,
) -> bool {
    exists|offset: int|
        lo <= offset < hi && #[trigger] starts_at(data, field, m.line_number, offset)
}

/// True when every message of the entry bears the number of a line between
/// `lo` and `hi` that starts its field.
pub open spec fn messages_on_lines(data: Seq<u8>, e: EntryView, lo: int, hi: int) -> bool {
    &&& e.msgctxt is Some ==> on_its_line(data, Field::Ctxt, e.msgctxt->0, lo, hi)
    &&& e.msgid is Some ==> on_its_line(data, Field::Id, e.msgid->0, lo, hi)
    &&& e.msgid_plural is Some ==> on_its_line(data, Field::IdPlural, e.msgid_plural->0, lo, hi)
    &&& translations_on_lines(data, e.msgstr, lo, hi)
}

/// True when a cursor stands at the start of a line whose number it bears,
/// or at the end of the catalog.
pub open spec fn at_a_line(data: Seq<u8>, cursor: Cursor) -> bool {
    &&& 0 <= cursor.offset <= data.len()
    &&& cursor.offset < data.len() ==> is_line_start(data, cursor.offset)
        && cursor.next_line_number == line_number_at(data, cursor.offset)
}

/// The number of a line is at least 1 and at most one more than the offset
/// of the line.
pub proof fn lemma_line_number_bounds(data: Seq<u8>, offset: int)
    requires
        0 <= offset,
    ensures
        1 <= line_number_at(data, offset) <= offset + 1,
    decreases offset,
{
    if offset > 0 {
        lemma_line_number_bounds(data, offset - 1);
    }
}

/// The bytes of a line bear the number of the line, and the byte after its
/// line feed bears the next number.
pub proof fn lemma_line_number_next(data: Seq<u8>, start: int, end: int)
    requires
        0 <= start <= end <= data.len(),
        forall|k: int| start <= k < end ==> #[trigger] data[k] != ascii::LF,
    ensures
        line_number_at(data, end) == line_number_at(data, start),
        end < data.len() && data[end] == ascii::LF ==> line_number_at(data, end + 1)
            == line_number_at(data, start) + 1,
    decreases end - start,
{
    if start < end {
        lemma_line_number_next(data, start, end - 1);
        assert(data[end - 1] != ascii::LF);
    }
    assert(line_number_at(data, end) == line_number_at(data, start));
    if end < data.len() && data[end] == ascii::LF {
        assert(line_number_at(data, end + 1) == line_number_at(data, end) + 1);
    }
}

/// The keywords of a comment leave the messages of an entry as they are.
pub proof fn lemma_keywords_keep_messages(line: Seq<u8>, pos: int, e: EntryView)
    ensures
        keywords_applied(line, pos, e).msgctxt == e.msgctxt,
        keywords_applied(line, pos, e).msgid == e.msgid,
        keywords_applied(line, pos, e).msgid_plural == e.msgid_plural,
        keywords_applied(line, pos, e).msgstr == e.msgstr,
    decreases left(line, pos),
{
    let at = find_byte(line, pos, ascii::COMMA);
    let e1 = keyword_applied(keyword_text(line.subrange(pos, at)), e);
    if 0 <= pos && at < line.len() {
        lemma_find_byte(line, pos, ascii::COMMA);
        lemma_keywords_keep_messages(line, at + 1, e1);
    }
}

/// True when every translation bears the number of a line between `lo`
/// and `hi` that starts it.
pub open spec fn translations_on_lines(
    data: Seq<u8>,
    msgstr: Seq<(u32, MessageView)>,
    lo: int,
    hi: int,
) -> bool {
    forall|i: int|
        0 <= i < msgstr.len() ==> on_its_line(
            data,
            Field::Str((#[trigger] msgstr[i]).0),
            msgstr[i].1,
            lo,
            hi,
        )
}

/// Translations on their lines stay on their lines when one that is on its
/// line is inserted.
pub proof fn lemma_inserted_on_lines(
    data: Seq<u8>,
    msgstr: Seq<(u32, MessageView)>,
    index: u32,
    msg: MessageView,
    lo: int,
    hi: int,
)
    requires
        translations_on_lines(data, msgstr, lo, hi),
        on_its_line(data, Field::Str(index), msg, lo, hi),
    ensures
        translations_on_lines(data, inserted(msgstr, index, msg), lo, hi),
{
    lemma_lower_bound(msgstr, index);
    let p = crate::po::translations::lower_bound(msgstr, index);
    let after = inserted(msgstr, index, msg);
    let skip = if position_of(msgstr, index) is Some {
        p + 1
    } else {
        p
    };
    assert(after =~= msgstr.subrange(0, p).push((index, msg)) + msgstr.subrange(
        skip,
        msgstr.len() as int,
    ));
    assert forall|i: int| 0 <= i < after.len() implies on_its_line(
        data,
        Field::Str((#[trigger] after[i]).0),
        after[i].1,
        lo,
        hi,
    ) by {
        if i < p {
            assert(after[i] == msgstr[i]);
        } else if i == p {
            assert(after[i] == (index, msg));
        } else {
            assert(after[i] == msgstr[skip + (i - p - 1)]);
        }
    }
}

/// Translations on their lines stay on their lines when text is added to
/// one of them.
pub proof fn lemma_extended_on_lines(
    data: Seq<u8>,
    msgstr: Seq<(u32, MessageView)>,
    index: u32,
    text: Seq<char>,
    lo: int,
    hi: int,
)
    requires
        translations_on_lines(data, msgstr, lo, hi),
    ensures
        translations_on_lines(data, extended_at(msgstr, index, text), lo, hi),
{
    lemma_lower_bound(msgstr, index);
    let after = extended_at(msgstr, index, text);
    assert(after.len() == msgstr.len());
    assert forall|i: int| 0 <= i < after.len() implies on_its_line(
        data,
        Field::Str((#[trigger] after[i]).0),
        after[i].1,
        lo,
        hi,
    ) by {
        let before = msgstr[i];
        assert(after[i].0 == before.0);
        assert(after[i].1.line_number == before.1.line_number);
        let o = choose|o: int|
            lo <= o < hi && #[trigger] starts_at(
                data,
                Field::Str(before.0),
                before.1.line_number,
                o,
            );
        assert(starts_at(data, Field::Str(after[i].0), after[i].1.line_number, o));
    }
}

/// A message line keeps the messages of an entry on their lines, where its
/// own line is between the bounds.
pub proof fn lemma_message_line(
    data: Seq<u8>,
    encoding: Option<&'static Encoding>,
    number: usize,
    offset: int,
    line: Seq<u8>,
    field: Field,
    error: bool,
    e: EntryView,
    lo: int,
    hi: int,
)
    requires
        messages_on_lines(data, e, lo, hi),
        lo <= offset < hi,
        is_line_start(data, offset),
        number == line_number_at(data, offset),
        line == message_part(line_at(data, offset)),
    ensures
        messages_on_lines(data, message_applied(encoding, number, line, field, error, e).2, lo, hi),
{
    let after = message_applied(encoding, number, line, field, error, e).2;
    let text = line_text(encoding, line).0;
    let msg = MessageView { line_number: number, value: text };
    match field_started(line) {
        Some(started) => {
            assert(starts_at(data, started, number, offset));
            match started {
                Field::Str(index) => {
                    assert(starts_at(data, Field::Str(index), msg.line_number, offset));
                    assert(on_its_line(data, Field::Str(index), msg, lo, hi));
                    lemma_inserted_on_lines(data, e.msgstr, index, msg, lo, hi);
                    assert(after.msgstr == inserted(e.msgstr, index, msg));
                    assert(messages_on_lines(data, after, lo, hi));
                },
                Field::Ctxt => {
                    assert(starts_at(data, Field::Ctxt, msg.line_number, offset));
                    assert(after == (EntryView { msgctxt: Some(msg), ..e }));
                    assert(messages_on_lines(data, after, lo, hi));
                },
                Field::Id => {
                    assert(starts_at(data, Field::Id, msg.line_number, offset));
                    assert(after == (EntryView { msgid: Some(msg), ..e }));
                    assert(messages_on_lines(data, after, lo, hi));
                },
                Field::IdPlural => {
                    assert(starts_at(data, Field::IdPlural, msg.line_number, offset));
                    assert(after == (EntryView { msgid_plural: Some(msg), ..e }));
                    assert(messages_on_lines(data, after, lo, hi));
                },
                Field::Comment => {},
            }
        },
        None => {
            if has_prefix(line, encode_utf8("\""@)) && !has_prefix(
                line,
                encode_utf8("msgstr["@),
            ) {
                match field {
                    Field::Str(index) => {
                        lemma_extended_on_lines(data, e.msgstr, index, text, lo, hi);
                    },
                    Field::Ctxt => {
                        if e.msgctxt is Some {
                            let o = choose|o: int|
                                lo <= o < hi && #[trigger] starts_at(
                                    data,
                                    Field::Ctxt,
                                    e.msgctxt->0.line_number,
                                    o,
                                );
                            assert(starts_at(data, Field::Ctxt, after.msgctxt->0.line_number, o));
                        }
                    },
                    Field::Id => {
                        if e.msgid is Some {
                            let o = choose|o: int|
                                lo <= o < hi && #[trigger] starts_at(
                                    data,
                                    Field::Id,
                                    e.msgid->0.line_number,
                                    o,
                                );
                            assert(starts_at(data, Field::Id, after.msgid->0.line_number, o));
                        }
                    },
                    Field::IdPlural => {
                        if e.msgid_plural is Some {
                            let o = choose|o: int|
                                lo <= o < hi && #[trigger] starts_at(
                                    data,
                                    Field::IdPlural,
                                    e.msgid_plural->0.line_number,
                                    o,
                                );
                            assert(starts_at(
                                data,
                                Field::IdPlural,
                                after.msgid_plural->0.line_number,
                                o,
                            ));
                        }
                    },
                    Field::Comment => {},
                }
            }
        },
    }
}

/// A line of a catalog keeps the messages of an entry on their lines.
pub proof fn lemma_line_keeps_messages(
    data: Seq<u8>,
    encoding: Option<&'static Encoding>,
    number: usize,
    offset: int,
    field: Field,
    error: bool,
    e: EntryView,
    lo: int,
    hi: int,
)
    requires
        messages_on_lines(data, e, lo, hi),
        lo <= offset < hi,
        is_line_start(data, offset),
        number == line_number_at(data, offset),
    ensures
        messages_on_lines(
            data,
            line_applied(encoding, number, line_at(data, offset), field, error, e).2,
            lo,
            hi,
        ),
{
    let line = line_at(data, offset);
    let flags = encode_utf8("#,"@);
    let sticky = encode_utf8("#="@);
    let obsolete = encode_utf8("#~ "@);
    if has_prefix(line, flags) {
        lemma_keywords_keep_messages(line.subrange(flags.len() as int, line.len() as int), 0, e);
    } else if has_prefix(line, sticky) {
        lemma_keywords_keep_messages(line.subrange(sticky.len() as int, line.len() as int), 0, e);
    } else if has_prefix(line, obsolete) {
        let marked = EntryView { obsolete: true, ..e };
        assert(messages_on_lines(data, marked, lo, hi));
        lemma_message_line(
            data,
            encoding,
            number,
            offset,
            message_part(line),
            field,
            error,
            marked,
            lo,
            hi,
        );
    } else if has_prefix(line, encode_utf8("msg"@)) || has_prefix(line, encode_utf8("\""@)) {
        lemma_message_line(data, encoding, number, offset, line, field, error, e, lo, hi);
    }
}

/// Messages on lines between two bounds are on lines between wider bounds.
pub proof fn lemma_widen(data: Seq<u8>, e: EntryView, lo: int, hi: int, wider: int)
    requires
        messages_on_lines(data, e, lo, hi),
        hi <= wider,
    ensures
        messages_on_lines(data, e, lo, wider),
{
    if e.msgctxt is Some {
        let o = choose|o: int|
            lo <= o < hi && #[trigger] starts_at(data, Field::Ctxt, e.msgctxt->0.line_number, o);
        assert(starts_at(data, Field::Ctxt, e.msgctxt->0.line_number, o));
    }
    if e.msgid is Some {
        let o = choose|o: int|
            lo <= o < hi && #[trigger] starts_at(data, Field::Id, e.msgid->0.line_number, o);
        assert(starts_at(data, Field::Id, e.msgid->0.line_number, o));
    }
    if e.msgid_plural is Some {
        let o = choose|o: int|
            lo <= o < hi && #[trigger] starts_at(
                data,
                Field::IdPlural,
                e.msgid_plural->0.line_number,
                o,
            );
        assert(starts_at(data, Field::IdPlural, e.msgid_plural->0.line_number, o));
    }
    assert forall|i: int| 0 <= i < e.msgstr.len() implies on_its_line(
        data,
        Field::Str((#[trigger] e.msgstr[i]).0),
        e.msgstr[i].1,
        lo,
        wider,
    ) by {
        let o = choose|o: int|
            lo <= o < hi && #[trigger] starts_at(
                data,
                Field::Str(e.msgstr[i].0),
                e.msgstr[i].1.line_number,
                o,
            );
        assert(starts_at(data, Field::Str(e.msgstr[i].0), e.msgstr[i].1.line_number, o));
    }
}

/// The reading of an entry keeps its messages on their lines, and stops at
/// the start of a line or at the end of the catalog.
pub proof fn lemma_scanned_lines(
    data: Seq<u8>,
    encoding: Option<&'static Encoding>,
    s: Scan,
    lo: int,
)
    requires
        data.len() < usize::MAX,
        0 <= lo <= s.offset,
        at_a_line(data, Cursor { offset: s.offset, next_line_number: s.next_line_number }),
        s.line_number == s.next_line_number,
        messages_on_lines(data, s.entry, lo, s.offset),
    ensures
        ({
            let r = scanned(data, encoding, s);
            &&& s.offset <= r.offset
            &&& messages_on_lines(data, r.entry, lo, r.offset)
            &&& at_a_line(data, Cursor { offset: r.offset, next_line_number: r.next_line_number })
        }),
    decreases left(data, s.offset),
{
    if s.offset < data.len() {
        lemma_find_byte(data, s.offset, ascii::LF);
        let end = find_byte(data, s.offset, ascii::LF);
        let line = data.subrange(s.offset, end);
        let offset = if end < data.len() {
            end + 1
        } else {
            end
        };
        lemma_line_number_next(data, s.offset, end);
        lemma_line_number_bounds(data, s.offset);
        let next_line_number = (s.next_line_number + 1) as usize;
        assert(next_line_number == s.next_line_number + 1);
        lemma_widen(data, s.entry, lo, s.offset, offset);
        if line.len() == 0 {
            if !s.started {
                let entry = EntryView { line_number: next_line_number, ..s.entry };
                assert(messages_on_lines(data, entry, lo, offset));
                lemma_scanned_lines(
                    data,
                    encoding,
                    (Scan {
                        offset,
                        next_line_number,
                        line_number: next_line_number,
                        entry,
                        ..s
                    }),
                    lo,
                );
            }
        } else {
            lemma_line_keeps_messages(
                data,
                encoding,
                s.line_number,
                s.offset,
                s.field,
                s.error,
                s.entry,
                lo,
                offset,
            );
            let (field, error, entry) = line_applied(
                encoding,
                s.line_number,
                line,
                s.field,
                s.error,
                s.entry,
            );
            lemma_scanned_lines(
                data,
                encoding,
                (Scan {
                    offset,
                    next_line_number,
                    line_number: next_line_number,
                    field,
                    error,
                    entry,
                    started: true,
                }),
                lo,
            );
        }
    }
}

/// Line fidelity: every message of an entry that the parser gives bears
/// the number of the line that starts its field, counted from 1 by the
/// line feeds before it, and that line lies between the places at which
/// the parser stood before and after. The parser then stands at the start
/// of a line again, or at the end of the catalog.
pub proof fn lemma_messages_bear_their_lines(data: Seq<u8>, header: HeaderView, cursor: Cursor)
    requires
        data.len() < usize::MAX,
        at_a_line(data, cursor),
    ensures
        ({
            let (entry, header1, cursor1) = next_entry(data, header, cursor);
            &&& at_a_line(data, cursor1)
            &&& cursor.offset <= cursor1.offset
            &&& entry is Some ==> messages_on_lines(data, entry->0, cursor.offset, cursor1.offset)
        }),
{
    let start = Scan {
        offset: cursor.offset,
        next_line_number: cursor.next_line_number,
        line_number: cursor.next_line_number,
        field: Field::Comment,
        error: false,
        entry: blank_entry(cursor.next_line_number),
        started: false,
    };
    lemma_scanned_lines(data, header.encoding, start, cursor.offset);
    let s = scanned(data, header.encoding, start);
    if s.started {
        let raw = EntryView { encoding_error: s.error, ..s.entry };
        let e = unescaped_entry(raw);
        let lo = cursor.offset;
        let hi = s.offset;
        if e.msgctxt is Some {
            let o = choose|o: int|
                lo <= o < hi && #[trigger] starts_at(
                    data,
                    Field::Ctxt,
                    raw.msgctxt->0.line_number,
                    o,
                );
            assert(starts_at(data, Field::Ctxt, e.msgctxt->0.line_number, o));
        }
        if e.msgid is Some {
            let o = choose|o: int|
                lo <= o < hi && #[trigger] starts_at(data, Field::Id, raw.msgid->0.line_number, o);
            assert(starts_at(data, Field::Id, e.msgid->0.line_number, o));
        }
        if e.msgid_plural is Some {
            let o = choose|o: int|
                lo <= o < hi && #[trigger] starts_at(
                    data,
                    Field::IdPlural,
                    raw.msgid_plural->0.line_number,
                    o,
                );
            assert(starts_at(data, Field::IdPlural, e.msgid_plural->0.line_number, o));
        }
        assert forall|i: int| 0 <= i < e.msgstr.len() implies on_its_line(
            data,
            Field::Str((#[trigger] e.msgstr[i]).0),
            e.msgstr[i].1,
            lo,
            hi,
        ) by {
            let before = raw.msgstr[i];
            let o = choose|o: int|
                lo <= o < hi && #[trigger] starts_at(
                    data,
                    Field::Str(before.0),
                    before.1.line_number,
                    o,
                );
            assert(starts_at(data, Field::Str(e.msgstr[i].0), e.msgstr[i].1.line_number, o));
        }
    }
}

} // verus!
