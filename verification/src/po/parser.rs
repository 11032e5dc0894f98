//! PO file parser.

use vstd::prelude::*;
use vstd::slice::*;
use vstd::string::*;
use vstd::utf8::*;

use encoding_rs::Encoding;

use crate::ascii;
use crate::po::charset::{
    decode_with, decoded_text, encoding_for_label, encoding_is_utf8, encoding_label, is_utf8,
    label_encoding, name_of, DECODE_LIMIT,
};
use crate::po::entry::{Entry, EntryView};
use crate::po::escape::unescaped;
use crate::po::format::language::{language_of, Language};
use crate::po::format::{is_ascii_digit, lemma_skip_while, skip_while};
use crate::po::message::{Message, MessageView};
use crate::po::translations::{
    inserted, lemma_inserted_view, lemma_lower_bound_view, position_of, translations_view,
};
use crate::text::{
    all_digits, char_at, char_width, decimal_value, ends_with, find_byte, find_bytes, find_first,
    find_last, find_sub, has_prefix, has_suffix, left, lemma_ascii_boundary, lemma_boundary_step,
    lemma_encode_ascii, lemma_find_byte, lemma_find_sub, lemma_rfind_byte, lemma_width_at,
    lossy_text, lowercased, parse_decimal, read_char, rfind_byte, split_trimmed, starts_with,
    str_eq, substr, texts, trimmed, trimmed_parts, unicode_whitespace, utf8_lossy, utf8_str,
    width_at,
};

verus! {

/// The field that a continuation line goes on.
#[derive(Clone, Copy, Debug, Default, PartialEq, Eq, Structural)]
pub enum Field {
    #[default]
    Comment,
    Ctxt,
    Id,
    IdPlural,
    Str(u32),
}

/// The text of a keyword: a part of a comment line decoded, without the
/// white space around it.
pub open spec fn keyword_text(piece: Seq<u8>) -> Seq<char> {
    trimmed(lossy_text(piece))
}

/// What an entry holds after the keyword `kw` of a comment: `fuzzy`, `noqa`
/// and `no-wrap` set their flag, `noqa:a;b` sets the rules that are
/// suppressed, `xxx-format` sets the format language, and every keyword is
/// recorded.
pub open spec fn keyword_applied(kw: Seq<char>, e: EntryView) -> EntryView {
    let bytes = encode_utf8(kw);
    let noqa_prefix = encode_utf8("noqa:"@);
    let format_suffix = encode_utf8("-format"@);
    let e1 = if kw == "fuzzy"@ {
        EntryView { fuzzy: true, ..e }
    } else if kw == "noqa"@ {
        EntryView { noqa: true, ..e }
    } else if has_prefix(bytes, noqa_prefix) {
        EntryView {
            noqa_rules: trimmed_parts(bytes, noqa_prefix.len() as int, ascii::SEMICOLON),
            ..e
        }
    } else if kw == "no-wrap"@ {
        EntryView { nowrap: true, ..e }
    } else if has_suffix(bytes, format_suffix) {
        EntryView {
            format_language: language_of(
                decode_utf8(bytes.subrange(0, bytes.len() - format_suffix.len())),
            ),
            ..e
        }
    } else {
        e
    };
    EntryView { keywords: e1.keywords.push(kw), ..e1 }
}

/// What an entry holds after the keywords of a comment line, which are
/// separated by commas and read from `pos` on.
pub open spec fn keywords_applied(line: Seq<u8>, pos: int, e: EntryView) -> EntryView
    decreases left(line, pos),
    via keywords_applied_decreases
{
    let at = find_byte(line, pos, ascii::COMMA);
    let e1 = keyword_applied(keyword_text(line.subrange(pos, at)), e);
    if pos < 0 || at >= line.len() {
        e1
    } else {
        keywords_applied(line, at + 1, e1)
    }
}

#[via_fn]
proof fn keywords_applied_decreases(line: Seq<u8>, pos: int, e: EntryView) {
    if 0 <= pos <= line.len() {
        lemma_find_byte(line, pos, ascii::COMMA);
    }
}

/// The bytes between the first and the last double quote of a line, if the
/// line holds two of them.
pub open spec fn quoted(line: Seq<u8>) -> Option<Seq<u8>> {
    let first = find_byte(line, 0, ascii::QUOTE);
    let last = rfind_byte(line, line.len() as int, ascii::QUOTE);
    if first < line.len() && first != last {
        Some(line.subrange(first + 1, last))
    } else {
        None
    }
}

/// The text of bytes read as UTF-8, and whether they were malformed.
pub open spec fn utf8_text(content: Seq<u8>) -> (Seq<char>, bool) {
    if valid_utf8(content) {
        (decode_utf8(content), false)
    } else {
        (lossy_text(content), true)
    }
}

/// The text of the string that a line holds between quotes, and whether
/// its bytes were malformed. The bytes are decoded with the encoding of the
/// catalog, or as UTF-8 where it has none; what is too long for the decoder
/// is read as UTF-8 and counts as malformed.
pub open spec fn line_text(encoding: Option<&'static Encoding>, line: Seq<u8>) -> (
    Seq<char>,
    bool,
) {
    match quoted(line) {
        Some(content) => match encoding {
            Some(e) => if content.len() <= DECODE_LIMIT {
                decoded_text(e, content)
            } else {
                (lossy_text(content), true)
            },
            None => utf8_text(content),
        },
        None => (Seq::empty(), false),
    }
}

/// The number that the bytes write, as `str::parse::<u32>` reads it: digits
/// after an optional `+`.
pub open spec fn parsed_u32(s: Seq<u8>) -> Option<u32> {
    let digits = if s.len() > 0 && s[0] == ascii::PLUS {
        s.drop_first()
    } else {
        s
    };
    if digits.len() > 0 && all_digits(digits) && decimal_value(digits) <= u32::MAX {
        Some(decimal_value(digits) as u32)
    } else {
        None
    }
}

/// The plural index of a line that starts with `msgstr[`: the number
/// written between the prefix and the first `]` of the line.
pub open spec fn plural_index(line: Seq<u8>) -> Option<u32> {
    let open = encode_utf8("msgstr["@).len() as int;
    let close = find_byte(line, 0, ascii::SQUARE_CLOSE);
    if open <= close < line.len() {
        parsed_u32(line.subrange(open, close))
    } else {
        None
    }
}

/// A message with `text` added at the end of its value.
pub open spec fn extended(m: Option<MessageView>, text: Seq<char>) -> Option<MessageView> {
    match m {
        Some(m) => Some(MessageView { value: m.value + text, ..m }),
        None => None,
    }
}

/// The translations with `text` added at the end of the one with the index
/// `index`, if there is one.
pub open spec fn extended_at(msgstr: Seq<(u32, MessageView)>, index: u32, text: Seq<char>) -> Seq<
    (u32, MessageView),
> {
    match position_of(msgstr, index) {
        Some(i) => msgstr.update(
            i,
            (msgstr[i].0, (MessageView { value: msgstr[i].1.value + text, ..msgstr[i].1 })),
        ),
        None => msgstr,
    }
}

/// What a message line does to the field that is being read, to the flag of
/// malformed bytes and to the entry: a line with a keyword starts that
/// field with the string of the line, and a line that starts with a quote
/// adds its string to the field that is being read.
pub open spec fn message_applied(
    encoding: Option<&'static Encoding>,
    line_number: usize,
    line: Seq<u8>,
    field: Field,
    error: bool,
    e: EntryView,
) -> (Field, bool, EntryView) {
    let (text, malformed) = line_text(encoding, line);
    let msg = MessageView { line_number, value: text };
    let error1 = error || malformed;
    if has_prefix(line, encode_utf8("msgctxt"@)) {
        (Field::Ctxt, error1, (EntryView { msgctxt: Some(msg), ..e }))
    } else if has_prefix(line, encode_utf8("msgid_plural"@)) {
        (Field::IdPlural, error1, (EntryView { msgid_plural: Some(msg), ..e }))
    } else if has_prefix(line, encode_utf8("msgid"@)) {
        (Field::Id, error1, (EntryView { msgid: Some(msg), ..e }))
    } else if has_prefix(line, encode_utf8("msgstr["@)) {
        match plural_index(line) {
            Some(idx) => (
                Field::Str(idx),
                error1,
                (EntryView { msgstr: inserted(e.msgstr, idx, msg), ..e }),
            ),
            None => (field, error, e),
        }
    } else if has_prefix(line, encode_utf8("msgstr"@)) {
        (Field::Str(0), error1, (EntryView { msgstr: inserted(e.msgstr, 0, msg), ..e }))
    } else if has_prefix(line, encode_utf8("\""@)) {
        match field {
            Field::Comment => (field, error, e),
            Field::Ctxt => (field, error1, (EntryView { msgctxt: extended(e.msgctxt, text), ..e })),
            Field::Id => (field, error1, (EntryView { msgid: extended(e.msgid, text), ..e })),
            Field::IdPlural => (
                field,
                error1,
                (EntryView { msgid_plural: extended(e.msgid_plural, text), ..e }),
            ),
            Field::Str(idx) => (
                field,
                error1,
                (EntryView { msgstr: extended_at(e.msgstr, idx, text), ..e }),
            ),
        }
    } else {
        (field, error, e)
    }
}

/// What a line of a catalog does to the field that is being read, to the
/// flag of malformed bytes and to the entry: `#,` and `#=` give keywords,
/// `#~ ` marks the entry as obsolete before a message line, and `msg` or a
/// quote start a message line. Other lines are passed over.
pub open spec fn line_applied(
    encoding: Option<&'static Encoding>,
    line_number: usize,
    line: Seq<u8>,
    field: Field,
    error: bool,
    e: EntryView,
) -> (Field, bool, EntryView) {
    let flags = encode_utf8("#,"@);
    let sticky = encode_utf8("#="@);
    let obsolete = encode_utf8("#~ "@);
    if has_prefix(line, flags) {
        (field, error, keywords_applied(line.subrange(flags.len() as int, line.len() as int), 0, e))
    } else if has_prefix(line, sticky) {
        (
            field,
            error,
            keywords_applied(line.subrange(sticky.len() as int, line.len() as int), 0, e),
        )
    } else if has_prefix(line, obsolete) {
        message_applied(
            encoding,
            line_number,
            line.subrange(obsolete.len() as int, line.len() as int),
            field,
            error,
            (EntryView { obsolete: true, ..e }),
        )
    } else if has_prefix(line, encode_utf8("msg"@)) || has_prefix(line, encode_utf8("\""@)) {
        message_applied(encoding, line_number, line, field, error, e)
    } else {
        (field, error, e)
    }
}

/// The end of the name of a character set that starts at `pos`: the
/// position of the first white space or `;`, or the end of the value.
pub open spec fn charset_end(value: Seq<u8>, pos: int) -> int
    decreases left(value, pos),
    via charset_end_decreases
{
    if pos < 0 || pos >= value.len() {
        pos
    } else if unicode_whitespace(char_at(value, pos)) || char_at(value, pos) == ';' {
        pos
    } else {
        charset_end(value, pos + width_at(value, pos))
    }
}

#[via_fn]
proof fn charset_end_decreases(value: Seq<u8>, pos: int) {
    lemma_width_at(value, pos);
}

/// What the header says after a `Language` line with the given value: the
/// language, and its code and country where an underscore parts them.
pub open spec fn language_applied(value: Seq<u8>, h: HeaderView) -> HeaderView {
    let language = trimmed(decode_utf8(value));
    let at = find_byte(value, 0, ascii::UNDERSCORE);
    if at < value.len() {
        HeaderView {
            language,
            language_code: trimmed(decode_utf8(value.subrange(0, at))),
            country: trimmed(decode_utf8(value.subrange(at + 1, value.len() as int))),
            ..h
        }
    } else {
        HeaderView { language, language_code: language, ..h }
    }
}

/// What the header says after a `Content-Type` line with the given value:
/// the encoding that `charset=` names, where it is known and is not UTF-8.
pub open spec fn charset_applied(value: Seq<u8>, h: HeaderView) -> HeaderView {
    let needle = encode_utf8("charset="@);
    let at = find_sub(value, needle, 0);
    if at >= value.len() {
        h
    } else {
        let start = at + needle.len();
        match label_encoding(value.subrange(start, charset_end(value, start))) {
            Some(e) => if encoding_is_utf8(e) {
                h
            } else {
                HeaderView { encoding: Some(e), ..h }
            },
            None => h,
        }
    }
}

/// What the header says after a `Plural-Forms` line with the given value:
/// the number that follows `nplurals=`, where it fits.
pub open spec fn nplurals_applied(value: Seq<u8>, h: HeaderView) -> HeaderView {
    let needle = encode_utf8("nplurals="@);
    let at = find_sub(value, needle, 0);
    if at >= value.len() {
        h
    } else {
        let start = at + needle.len();
        let end = skip_while(value, start, value.len() as int, |b: u8| is_ascii_digit(b));
        match parsed_u32(value.subrange(start, end)) {
            Some(n) => HeaderView { nplurals: n, ..h },
            None => h,
        }
    }
}

/// What the header says after one line `Key: value` of the header entry.
/// The key is compared without regard to case.
pub open spec fn header_line_applied(line: Seq<u8>, h: HeaderView) -> HeaderView {
    let colon = find_byte(line, 0, ascii::COLON);
    if colon >= line.len() {
        h
    } else {
        let keyword = lowercased(trimmed(decode_utf8(line.subrange(0, colon))));
        let value = line.subrange(colon + 1, line.len() as int);
        if keyword == "language"@ {
            language_applied(value, h)
        } else if keyword == "content-type"@ {
            charset_applied(value, h)
        } else if keyword == "plural-forms"@ {
            nplurals_applied(value, h)
        } else {
            h
        }
    }
}

/// What the header says after the lines of `value` from `pos` on.
pub open spec fn header_lines_applied(value: Seq<u8>, pos: int, h: HeaderView) -> HeaderView
    decreases left(value, pos),
    via header_lines_applied_decreases
{
    let at = find_byte(value, pos, ascii::LF);
    let h1 = header_line_applied(value.subrange(pos, at), h);
    if pos < 0 || at >= value.len() {
        h1
    } else {
        header_lines_applied(value, at + 1, h1)
    }
}

#[via_fn]
proof fn header_lines_applied_decreases(value: Seq<u8>, pos: int, h: HeaderView) {
    if 0 <= pos <= value.len() {
        lemma_find_byte(value, pos, ascii::LF);
    }
}

/// The translation of the header entry that holds the metadata: the value
/// under the index 0 of an entry whose `msgid` is empty, where it is not
/// empty itself.
pub open spec fn header_text(e: EntryView) -> Option<Seq<char>> {
    if e.msgid is Some && e.msgid->0.value.len() == 0 {
        match position_of(e.msgstr, 0) {
            Some(i) => if e.msgstr[i].1.value.len() > 0 {
                Some(e.msgstr[i].1.value)
            } else {
                None
            },
            None => None,
        }
    } else {
        None
    }
}

/// What the header says after the entry `e`: an entry that is no header
/// changes nothing.
pub open spec fn header_applied(e: EntryView, h: HeaderView) -> HeaderView {
    match header_text(e) {
        Some(text) => header_lines_applied(encode_utf8(text), 0, h),
        None => h,
    }
}

/// A message with its escape sequences replaced.
pub open spec fn unescaped_field(m: Option<MessageView>) -> Option<MessageView> {
    match m {
        Some(m) => Some(MessageView { value: unescaped(m.value), ..m }),
        None => None,
    }
}

/// An entry with the escape sequences of all its strings replaced.
pub open spec fn unescaped_entry(e: EntryView) -> EntryView {
    EntryView {
        msgctxt: unescaped_field(e.msgctxt),
        msgid: unescaped_field(e.msgid),
        msgid_plural: unescaped_field(e.msgid_plural),
        msgstr: Seq::new(
            e.msgstr.len(),
            |i: int|
                (
                    e.msgstr[i].0,
                    (MessageView { value: unescaped(e.msgstr[i].1.value), ..e.msgstr[i].1 }),
                ),
        ),
        ..e
    }
}

/// An entry that starts at `line_number` and holds nothing yet.
pub open spec fn blank_entry(line_number: usize) -> EntryView {
    EntryView {
        line_number,
        keywords: Seq::empty(),
        fuzzy: false,
        obsolete: false,
        noqa: false,
        noqa_rules: Seq::empty(),
        nowrap: false,
        format_language: Language::Null,
        encoding_error: false,
        msgctxt: None,
        msgid: None,
        msgid_plural: None,
        msgstr: Seq::empty(),
    }
}

/// The state of the reading of one entry.
pub struct Scan {
    pub offset: int,
    pub next_line_number: usize,
    pub line_number: usize,
    pub field: Field,
    pub error: bool,
    pub entry: EntryView,
    pub started: bool,
}

/// The state in which the reading of an entry stops: after the blank line
/// that closes an entry that was started, or at the end of the data. Blank
/// lines before the entry move its first line.
pub open spec fn scanned(data: Seq<u8>, encoding: Option<&'static Encoding>, s: Scan) -> Scan
    decreases left(data, s.offset),
    via scanned_decreases
{
    if s.offset < 0 || s.offset >= data.len() {
        s
    } else {
        let end = find_byte(data, s.offset, ascii::LF);
        let line = data.subrange(s.offset, end);
        let offset = if end < data.len() {
            end + 1
        } else {
            end
        };
        let next_line_number = (s.next_line_number + 1) as usize;
        if line.len() == 0 {
            if s.started {
                Scan { offset, next_line_number, ..s }
            } else {
                scanned(
                    data,
                    encoding,
                    (Scan {
                        offset,
                        next_line_number,
                        line_number: next_line_number,
                        entry: (EntryView { line_number: next_line_number, ..s.entry }),
                        ..s
                    }),
                )
            }
        } else {
            let (field, error, entry) = line_applied(
                encoding,
                s.line_number,
                line,
                s.field,
                s.error,
                s.entry,
            );
            scanned(
                data,
                encoding,
                (Scan {
                    offset,
                    next_line_number,
                    line_number: next_line_number,
                    field,
                    error,
                    entry,
                    started: true,
                }),
            )
        }
    }
}

#[via_fn]
proof fn scanned_decreases(data: Seq<u8>, encoding: Option<&'static Encoding>, s: Scan) {
    if 0 <= s.offset < data.len() {
        lemma_find_byte(data, s.offset, ascii::LF);
    }
}

/// The reading of an entry goes forward: it stops at or after the position
/// at which it starts, and after it where it finds an entry that was not
/// started before.
pub proof fn lemma_scanned(data: Seq<u8>, encoding: Option<&'static Encoding>, s: Scan)
    requires
        0 <= s.offset <= data.len(),
    ensures
        s.offset <= scanned(data, encoding, s).offset <= data.len(),
        s.started ==> scanned(data, encoding, s).started,
        !s.started && scanned(data, encoding, s).started ==> s.offset < scanned(
            data,
            encoding,
            s,
        ).offset,
    decreases left(data, s.offset),
{
    if s.offset < data.len() {
        lemma_find_byte(data, s.offset, ascii::LF);
        let end = find_byte(data, s.offset, ascii::LF);
        let line = data.subrange(s.offset, end);
        let offset = if end < data.len() {
            end + 1
        } else {
            end
        };
        let next_line_number = (s.next_line_number + 1) as usize;
        if line.len() == 0 {
            if !s.started {
                lemma_scanned(
                    data,
                    encoding,
                    (Scan {
                        offset,
                        next_line_number,
                        line_number: next_line_number,
                        entry: (EntryView { line_number: next_line_number, ..s.entry }),
                        ..s
                    }),
                );
            }
        } else {
            let (field, error, entry) = line_applied(
                encoding,
                s.line_number,
                line,
                s.field,
                s.error,
                s.entry,
            );
            lemma_scanned(
                data,
                encoding,
                (Scan {
                    offset,
                    next_line_number,
                    line_number: next_line_number,
                    field,
                    error,
                    entry,
                    started: true,
                }),
            );
        }
    }
}

/// What a parser gives next, what the header says afterwards, and where
/// the parser then stands: the entry read from the cursor on, with its
/// escape sequences replaced, or nothing where only blank lines are left.
pub open spec fn next_entry(data: Seq<u8>, header: HeaderView, cursor: Cursor) -> (
    Option<EntryView>,
    HeaderView,
    Cursor,
) {
    let s = scanned(
        data,
        header.encoding,
        (Scan {
            offset: cursor.offset,
            next_line_number: cursor.next_line_number,
            line_number: cursor.next_line_number,
            field: Field::Comment,
            error: false,
            entry: blank_entry(cursor.next_line_number),
            started: false,
        }),
    );
    let end = Cursor { offset: s.offset, next_line_number: s.next_line_number };
    if s.started {
        let e = unescaped_entry(EntryView { encoding_error: s.error, ..s.entry });
        (Some(e), header_applied(e, header), end)
    } else {
        (None, header, end)
    }
}

/// What the entries of a list hold.
pub open spec fn entries_view(entries: Seq<Entry>) -> Seq<EntryView> {
    Seq::new(entries.len(), |i: int| entries[i]@)
}

/// The entries that a parser gives from the cursor on, in order.
pub open spec fn entries_from(data: Seq<u8>, header: HeaderView, cursor: Cursor) -> Seq<EntryView>
    decreases left(data, cursor.offset),
{
    let (entry, header1, cursor1) = next_entry(data, header, cursor);
    match entry {
        Some(e) => if cursor.offset < cursor1.offset <= data.len() {
            seq![e] + entries_from(data, header1, cursor1)
        } else {
            seq![e]
        },
        None => Seq::empty(),
    }
}

/// What the header says once a parser has given all its entries.
pub open spec fn header_from(data: Seq<u8>, header: HeaderView, cursor: Cursor) -> HeaderView
    decreases left(data, cursor.offset),
{
    let (entry, header1, cursor1) = next_entry(data, header, cursor);
    match entry {
        Some(e) => if cursor.offset < cursor1.offset <= data.len() {
            header_from(data, header1, cursor1)
        } else {
            header1
        },
        None => header1,
    }
}

/// Records one keyword of a comment in an entry.
fn apply_keyword(piece: &[u8], entry: &mut Entry)
    ensures
        final(entry)@ == keyword_applied(keyword_text(piece@), old(entry)@),
        final(entry).msgstr == old(entry).msgstr,
{
    let text = utf8_lossy(piece);
    let kw = text.as_str().trim();
    let bytes = kw.as_bytes();
    let noqa_prefix = "noqa:".as_bytes();
    let format_suffix = "-format".as_bytes();
    proof {
        encode_utf8_valid_utf8(kw@);
    }
    if str_eq(kw, "fuzzy") {
        entry.fuzzy = true;
    } else if str_eq(kw, "noqa") {
        entry.noqa = true;
    } else if starts_with(bytes, noqa_prefix) {
        proof {
            reveal_strlit("noqa:");
            lemma_encode_ascii("noqa:"@);
            assert(bytes@[4] == bytes@.subrange(0, 5)[4]);
            lemma_ascii_boundary(bytes@, 4);
        }
        entry.noqa_rules = split_trimmed(kw, noqa_prefix.len(), ascii::SEMICOLON);
    } else if str_eq(kw, "no-wrap") {
        entry.nowrap = true;
    } else if ends_with(bytes, format_suffix) {
        proof {
            reveal_strlit("-format");
            lemma_encode_ascii("-format"@);
            let n = bytes@.len() as int;
            assert(bytes@[n - 7] == bytes@.subrange(n - 7, n)[0]);
            lemma_ascii_boundary(bytes@, n - 7);
        }
        let stem = substr(kw, 0, bytes.len() - format_suffix.len());
        proof {
            encode_utf8_decode_utf8(stem@);
        }
        entry.format_language = Language::from(stem);
    }
    let ghost before = texts(entry.keywords@);
    entry.keywords.push(kw.to_owned());
    assert(texts(entry.keywords@) =~= before.push(kw@));
}

/// Reads a number as `str::parse::<u32>` does: digits after an optional
/// `+`.
fn parse_u32(bytes: &[u8], start: usize, end: usize) -> (r: Option<u32>)
    requires
        start <= end <= bytes@.len(),
    ensures
        r == parsed_u32(bytes@.subrange(start as int, end as int)),
{
    let ghost s = bytes@.subrange(start as int, end as int);
    let first = if start < end && bytes[start] == ascii::PLUS {
        start + 1
    } else {
        start
    };
    let ghost digits = bytes@.subrange(first as int, end as int);
    proof {
        assert(s.len() > 0 ==> s[0] == bytes@[start as int]);
        if first != start {
            assert(digits =~= s.drop_first());
        }
    }
    if first >= end {
        return None;
    }
    let mut i = first;
    while i < end
        invariant
            first <= i <= end <= bytes@.len(),
            digits == bytes@.subrange(first as int, end as int),
            s == bytes@.subrange(start as int, end as int),
            digits == if s.len() > 0 && s[0] == ascii::PLUS {
                s.drop_first()
            } else {
                s
            },
            forall|k: int|
                0 <= k < i - first ==> ascii::DIGIT_0 <= #[trigger] digits[k] <= ascii::DIGIT_9,
        decreases end - i,
    {
        if bytes[i] < ascii::DIGIT_0 || bytes[i] > ascii::DIGIT_9 {
            assert(digits[i - first] == bytes@[i as int]);
            return None;
        }
        assert(digits[i - first] == bytes@[i as int]);
        i += 1;
    }
    match parse_decimal(bytes, first, end) {
        Some(v) => if v > u32::MAX as u64 {
            None
        } else {
            Some(v as u32)
        },
        None => None,
    }
}

/// What the header of a catalog says.
pub struct HeaderView {
    pub language: Seq<char>,
    pub language_code: Seq<char>,
    pub country: Seq<char>,
    pub encoding: Option<&'static Encoding>,
    pub nplurals: u32,
}

/// Where a parser stands in its catalog.
pub struct Cursor {
    pub offset: int,
    pub next_line_number: usize,
}

/// Parser of a PO catalog: gives its entries one at a time, and keeps what
/// the header says.
pub struct Parser<'a> {
    /// Language of the catalog, as the header gives it (`pt_BR`).
    pub language: String,
    /// Language without the country (`pt`).
    pub language_code: String,
    /// Country of the language (`BR`).
    pub country: String,
    /// Encoding of the catalog where it is not UTF-8.
    pub encoding: Option<&'static Encoding>,
    /// Number of plural forms.
    pub nplurals: u32,
    data: &'a [u8],
    offset: usize,
    line_number: usize,
    next_line_number: usize,
    field: Field,
    encoding_error: bool,
}

impl<'d> Parser<'d> {
    #[verifier::type_invariant]
    spec fn inv(self) -> bool {
        &&& self.data@.len() < usize::MAX
        &&& self.offset <= self.data@.len()
        &&& 1 <= self.next_line_number <= self.offset + 1
    }

    /// The bytes of the catalog.
    pub closed spec fn data(&self) -> Seq<u8> {
        self.data@
    }

    /// The position and the number of the next line to read.
    pub closed spec fn cursor(&self) -> Cursor {
        Cursor { offset: self.offset as int, next_line_number: self.next_line_number }
    }

    /// What the header entries read so far have said.
    pub closed spec fn header(&self) -> HeaderView {
        HeaderView {
            language: self.language@,
            language_code: self.language_code@,
            country: self.country@,
            encoding: self.encoding,
            nplurals: self.nplurals,
        }
    }

    /// Creates a parser at the start of `data`.
    #[must_use]
    pub fn new(data: &'d [u8]) -> (r: Self)
        requires
            data@.len() < usize::MAX,
        ensures
            r.data() == data@,
            r.cursor() == (Cursor { offset: 0, next_line_number: 1 }),
            r.header() == (HeaderView {
                language: Seq::empty(),
                language_code: Seq::empty(),
                country: Seq::empty(),
                encoding: None,
                nplurals: 0,
            }),
    {
        Self {
            language: String::new(),
            language_code: String::new(),
            country: String::new(),
            encoding: None,
            nplurals: 0,
            data,
            offset: 0,
            line_number: 1,
            next_line_number: 1,
            field: Field::Comment,
            encoding_error: false,
        }
    }

    /// The name of the encoding of a catalog.
    pub open spec fn encoding_name_of(encoding: Option<&'static Encoding>) -> Seq<char> {
        match encoding {
            Some(e) => encoding_label(e),
            None => "UTF-8"@,
        }
    }

    /// Returns the name of the encoding of the catalog.
    #[must_use]
    pub fn encoding_name(&self) -> (r: &'static str)
        ensures
            r@ == Self::encoding_name_of(self.header().encoding),
    {
        match self.encoding {
            Some(enc) => name_of(enc),
            None => "UTF-8",
        }
    }

    /// Returns the language of the catalog (`pt_BR`).
    pub fn language(&self) -> (r: &str)
        ensures
            r@ == self.header().language,
    {
        self.language.as_str()
    }

    /// Returns the language of the catalog without the country (`pt`).
    pub fn language_code(&self) -> (r: &str)
        ensures
            r@ == self.header().language_code,
    {
        self.language_code.as_str()
    }

    /// Returns the country of the language of the catalog (`BR`).
    pub fn country(&self) -> (r: &str)
        ensures
            r@ == self.header().country,
    {
        self.country.as_str()
    }

    /// Returns the number of plural forms that the header gives.
    #[must_use]
    pub fn nplurals(&self) -> (r: u32)
        ensures
            r == self.header().nplurals,
    {
        self.nplurals
    }

    /// Returns the next line of the catalog, without its line feed.
    fn next_line(&mut self) -> (r: Option<&'d [u8]>)
        ensures
            final(self).data == old(self).data,
            final(self).language == old(self).language,
            final(self).language_code == old(self).language_code,
            final(self).country == old(self).country,
            final(self).encoding == old(self).encoding,
            final(self).nplurals == old(self).nplurals,
            final(self).line_number == old(self).line_number,
            final(self).field == old(self).field,
            final(self).encoding_error == old(self).encoding_error,
            match r {
                Some(line) => {
                    let end = find_byte(old(self).data@, old(self).offset as int, ascii::LF);
                    &&& old(self).offset < old(self).data@.len()
                    &&& line@ == old(self).data@.subrange(old(self).offset as int, end)
                    &&& final(self).offset == if end < old(self).data@.len() {
                        end + 1
                    } else {
                        end
                    }
                    &&& final(self).next_line_number == old(self).next_line_number + 1
                },
                None => old(self).offset >= old(self).data@.len() && final(self).offset == old(
                    self,
                ).offset && final(self).next_line_number == old(self).next_line_number,
            },
    {
        proof {
            use_type_invariant(&*self);
        }
        if self.offset >= self.data.len() {
            return None;
        }
        let start = self.offset;
        let end = find_first(self.data, start, ascii::LF);
        self.offset = if end < self.data.len() {
            end + 1
        } else {
            end
        };
        self.next_line_number += 1;
        Some(slice_subrange(self.data, start, end))
    }

    /// Records the keywords of a comment line in an entry.
    fn parse_keywords(line: &[u8], entry: &mut Entry)
        ensures
            final(entry)@ == keywords_applied(line@, 0, old(entry)@),
            final(entry).msgstr == old(entry).msgstr,
    {
        let mut pos: usize = 0;
        loop
            invariant_except_break
                pos <= line@.len(),
                keywords_applied(line@, 0, old(entry)@) == keywords_applied(
                    line@,
                    pos as int,
                    entry@,
                ),
                entry.msgstr == old(entry).msgstr,
            ensures
                entry@ == keywords_applied(line@, 0, old(entry)@),
                entry.msgstr == old(entry).msgstr,
            decreases line@.len() - pos,
        {
            let at = find_first(line, pos, ascii::COMMA);
            apply_keyword(slice_subrange(line, pos, at), entry);
            if at >= line.len() {
                break;
            }
            pos = at + 1;
        }
    }

    /// Reads the string that a line holds between quotes, decoded.
    fn extract_string(&mut self, line: &[u8]) -> (r: String)
        ensures
            r@ == line_text(old(self).encoding, line@).0,
            final(self).encoding_error == (old(self).encoding_error || line_text(
                old(self).encoding,
                line@,
            ).1),
            final(self).data == old(self).data,
            final(self).language == old(self).language,
            final(self).language_code == old(self).language_code,
            final(self).country == old(self).country,
            final(self).encoding == old(self).encoding,
            final(self).nplurals == old(self).nplurals,
            final(self).offset == old(self).offset,
            final(self).line_number == old(self).line_number,
            final(self).next_line_number == old(self).next_line_number,
            final(self).field == old(self).field,
    {
        proof {
            use_type_invariant(&*self);
            lemma_find_byte(line@, 0, ascii::QUOTE);
            lemma_rfind_byte(line@, line@.len() as int, ascii::QUOTE);
        }
        let first = find_first(line, 0, ascii::QUOTE);
        if first >= line.len() {
            return String::new();
        }
        let last = match find_last(line, ascii::QUOTE) {
            Some(last) => last,
            None => {
                return String::new();
            },
        };
        if first == last {
            return String::new();
        }
        let content = slice_subrange(line, first + 1, last);
        match self.encoding {
            Some(encoding) => {
                if content.len() <= DECODE_LIMIT {
                    let (text, errors) = decode_with(encoding, content);
                    if errors {
                        self.encoding_error = true;
                    }
                    text
                } else {
                    self.encoding_error = true;
                    utf8_lossy(content)
                }
            },
            None => match utf8_str(content) {
                Some(s) => {
                    proof {
                        encode_utf8_decode_utf8(s@);
                    }
                    s.to_owned()
                },
                None => {
                    self.encoding_error = true;
                    utf8_lossy(content)
                },
            },
        }
    }
    /// Updates a field of an entry from a message line: `msgctxt`, `msgid`,
    /// `msgid_plural`, `msgstr`, `msgstr[N]`, or the continuation of a
    /// string.
    fn parse_message(&mut self, line: &[u8], entry: &mut Entry)
        ensures
            (final(self).field, final(self).encoding_error, final(entry)@) == message_applied(
                old(self).encoding,
                old(self).line_number,
                line@,
                old(self).field,
                old(self).encoding_error,
                old(entry)@,
            ),
            final(self).data == old(self).data,
            final(self).language == old(self).language,
            final(self).language_code == old(self).language_code,
            final(self).country == old(self).country,
            final(self).encoding == old(self).encoding,
            final(self).nplurals == old(self).nplurals,
            final(self).offset == old(self).offset,
            final(self).line_number == old(self).line_number,
            final(self).next_line_number == old(self).next_line_number,
            old(entry).msgstr.in_order() ==> final(entry).msgstr.in_order(),
    {
        proof {
            use_type_invariant(&*self);
        }
        let ghost before = entry@;
        if starts_with(line, "msgctxt".as_bytes()) {
            let text = self.extract_string(line);
            self.field = Field::Ctxt;
            entry.msgctxt = Some(Message { line_number: self.line_number, value: text });
        } else if starts_with(line, "msgid_plural".as_bytes()) {
            let text = self.extract_string(line);
            self.field = Field::IdPlural;
            entry.msgid_plural = Some(Message { line_number: self.line_number, value: text });
        } else if starts_with(line, "msgid".as_bytes()) {
            let text = self.extract_string(line);
            self.field = Field::Id;
            entry.msgid = Some(Message { line_number: self.line_number, value: text });
        } else if starts_with(line, "msgstr[".as_bytes()) {
            let open = "msgstr[".as_bytes().len();
            let close = find_first(line, 0, ascii::SQUARE_CLOSE);
            if open <= close && close < line.len() {
                match parse_u32(line, open, close) {
                    Some(idx) => {
                        let text = self.extract_string(line);
                        self.field = Field::Str(idx);
                        let msg = Message { line_number: self.line_number, value: text };
                        proof {
                            lemma_inserted_view(entry.msgstr.entries(), idx, msg);
                        }
                        entry.msgstr.insert(idx, msg);
                    },
                    None => {},
                }
            }
        } else if starts_with(line, "msgstr".as_bytes()) {
            let text = self.extract_string(line);
            self.field = Field::Str(0);
            let msg = Message { line_number: self.line_number, value: text };
            proof {
                lemma_inserted_view(entry.msgstr.entries(), 0, msg);
            }
            entry.msgstr.insert(0, msg);
        } else if starts_with(line, "\"".as_bytes()) {
            match self.field {
                Field::Comment => {},
                Field::Ctxt => {
                    let text = self.extract_string(line);
                    entry.append_msgctxt(text.as_str());
                },
                Field::Id => {
                    let text = self.extract_string(line);
                    entry.append_msgid(text.as_str());
                },
                Field::IdPlural => {
                    let text = self.extract_string(line);
                    entry.append_msgid_plural(text.as_str());
                },
                Field::Str(idx) => {
                    let text = self.extract_string(line);
                    let ghost entries = entry.msgstr.entries();
                    entry.append_msgstr(idx, text.as_str());
                    proof {
                        lemma_lower_bound_view(entries, idx);
                        crate::po::translations::lemma_lower_bound(entries, idx);
                        let after = entry.msgstr.entries();
                        let want = extended_at(translations_view(entries), idx, text@);
                        assert(translations_view(entries) == before.msgstr);
                        assert(want.len() == after.len());
                        assert forall|i: int| 0 <= i < after.len() implies translations_view(
                            after,
                        )[i] == want[i] by {
                            let a = after[i];
                            assert(a.0 == entries[i].0);
                            assert(translations_view(entries)[i] == (entries[i].0, entries[i].1@));
                        }
                        assert(entry@.msgstr =~= want);
                    }
                },
            }
        }
    }

    /// Reads the language of a `Language` line of the header.
    fn apply_language(&mut self, value: &str)
        ensures
            final(self).header() == language_applied(value.spec_bytes(), old(self).header()),
            final(self).data == old(self).data,
            final(self).offset == old(self).offset,
            final(self).line_number == old(self).line_number,
            final(self).next_line_number == old(self).next_line_number,
            final(self).field == old(self).field,
            final(self).encoding_error == old(self).encoding_error,
    {
        proof {
            use_type_invariant(&*self);
            encode_utf8_valid_utf8(value@);
            encode_utf8_decode_utf8(value@);
            is_char_boundary_start_end_of_seq(value.spec_bytes());
        }
        let bytes = value.as_bytes();
        self.language = value.trim().to_owned();
        let at = find_first(bytes, 0, ascii::UNDERSCORE);
        if at < bytes.len() {
            proof {
                lemma_find_byte(bytes@, 0, ascii::UNDERSCORE);
                lemma_ascii_boundary(bytes@, at as int);
            }
            let code = substr(value, 0, at);
            let country = substr(value, at + 1, bytes.len());
            proof {
                encode_utf8_decode_utf8(code@);
                encode_utf8_decode_utf8(country@);
            }
            self.language_code = code.trim().to_owned();
            self.country = country.trim().to_owned();
        } else {
            self.language_code = self.language.clone();
        }
    }

    /// Reads the encoding of a `Content-Type` line of the header.
    fn apply_charset(&mut self, value: &str)
        ensures
            final(self).header() == charset_applied(value.spec_bytes(), old(self).header()),
            final(self).data == old(self).data,
            final(self).offset == old(self).offset,
            final(self).line_number == old(self).line_number,
            final(self).next_line_number == old(self).next_line_number,
            final(self).field == old(self).field,
            final(self).encoding_error == old(self).encoding_error,
    {
        proof {
            use_type_invariant(&*self);
            encode_utf8_valid_utf8(value@);
        }
        let bytes = value.as_bytes();
        let needle = "charset=".as_bytes();
        let at = find_bytes(bytes, needle);
        if at >= bytes.len() {
            return;
        }
        proof {
            lemma_find_sub(bytes@, needle@, 0);
            reveal_strlit("charset=");
            lemma_encode_ascii("charset="@);
            assert(bytes@[at + 7] == bytes@.subrange(at as int, at + 8)[7]);
            lemma_ascii_boundary(bytes@, at + 7);
        }
        let start = at + needle.len();
        let mut end = start;
        while end < bytes.len()
            invariant
                bytes@ == value.spec_bytes(),
                valid_utf8(bytes@),
                start <= end <= bytes@.len(),
                is_char_boundary(bytes@, end as int),
                charset_end(bytes@, start as int) == charset_end(bytes@, end as int),
            ensures
                start <= end <= bytes@.len(),
                end == charset_end(bytes@, start as int),
            decreases bytes@.len() - end,
        {
            let c = read_char(value, end);
            proof {
                lemma_boundary_step(bytes@, end as int);
            }
            if c.is_whitespace() || c == ';' {
                break;
            }
            end += char_width(c);
        }
        match encoding_for_label(slice_subrange(bytes, start, end)) {
            Some(encoding) => {
                // UTF-8 needs no decoder: strings are read as they are.
                if !is_utf8(encoding) {
                    self.encoding = Some(encoding);
                }
            },
            None => {},
        }
    }

    /// Reads the number of plural forms of a `Plural-Forms` line of the
    /// header.
    fn apply_nplurals(&mut self, value: &str)
        ensures
            final(self).header() == nplurals_applied(value.spec_bytes(), old(self).header()),
            final(self).data == old(self).data,
            final(self).offset == old(self).offset,
            final(self).line_number == old(self).line_number,
            final(self).next_line_number == old(self).next_line_number,
            final(self).field == old(self).field,
            final(self).encoding_error == old(self).encoding_error,
    {
        proof {
            use_type_invariant(&*self);
        }
        let bytes = value.as_bytes();
        let needle = "nplurals=".as_bytes();
        let at = find_bytes(bytes, needle);
        if at >= bytes.len() {
            return;
        }
        proof {
            lemma_find_sub(bytes@, needle@, 0);
        }
        let start = at + needle.len();
        let mut end = start;
        proof {
            lemma_skip_while(bytes@, start as int, bytes@.len() as int, |b: u8| is_ascii_digit(b));
        }
        while end < bytes.len() && bytes[end] >= ascii::DIGIT_0 && bytes[end] <= ascii::DIGIT_9
            invariant
                start <= end <= bytes@.len(),
                skip_while(bytes@, start as int, bytes@.len() as int, |b: u8| is_ascii_digit(b))
                    == skip_while(
                    bytes@,
                    end as int,
                    bytes@.len() as int,
                    |b: u8| is_ascii_digit(b),
                ),
            decreases bytes@.len() - end,
        {
            end += 1;
        }
        match parse_u32(bytes, start, end) {
            Some(nplurals) => {
                self.nplurals = nplurals;
            },
            None => {},
        }
    }

    /// Reads one line `Key: value` of the header.
    fn apply_header_line(&mut self, line: &str)
        ensures
            final(self).header() == header_line_applied(line.spec_bytes(), old(self).header()),
            final(self).data == old(self).data,
            final(self).offset == old(self).offset,
            final(self).line_number == old(self).line_number,
            final(self).next_line_number == old(self).next_line_number,
            final(self).field == old(self).field,
            final(self).encoding_error == old(self).encoding_error,
    {
        proof {
            encode_utf8_valid_utf8(line@);
            is_char_boundary_start_end_of_seq(line.spec_bytes());
        }
        let bytes = line.as_bytes();
        let colon = find_first(bytes, 0, ascii::COLON);
        if colon >= bytes.len() {
            return;
        }
        proof {
            lemma_find_byte(bytes@, 0, ascii::COLON);
            lemma_ascii_boundary(bytes@, colon as int);
        }
        let keyword = substr(line, 0, colon);
        let value = substr(line, colon + 1, bytes.len());
        proof {
            encode_utf8_decode_utf8(keyword@);
        }
        let kw_lower = keyword.trim().to_lowercase();
        if str_eq(kw_lower.as_str(), "language") {
            self.apply_language(value);
        } else if str_eq(kw_lower.as_str(), "content-type") {
            self.apply_charset(value);
        } else if str_eq(kw_lower.as_str(), "plural-forms") {
            self.apply_nplurals(value);
        }
    }

    /// Reads the header entry: language, encoding and number of plural
    /// forms. An entry that is no header changes nothing.
    fn parse_header(&mut self, entry: &Entry)
        ensures
            final(self).header() == header_applied(entry@, old(self).header()),
            final(self).data == old(self).data,
            final(self).offset == old(self).offset,
            final(self).line_number == old(self).line_number,
            final(self).next_line_number == old(self).next_line_number,
            final(self).field == old(self).field,
            final(self).encoding_error == old(self).encoding_error,
    {
        match &entry.msgid {
            Some(id) => {
                if !id.value.as_str().is_empty() {
                    return;
                }
            },
            None => {
                return;
            },
        }
        proof {
            lemma_lower_bound_view(entry.msgstr.entries(), 0);
        }
        let value: &str = match entry.msgstr.get(&0) {
            Some(msg) => {
                if msg.value.as_str().is_empty() {
                    return;
                }
                msg.value.as_str()
            },
            None => {
                return;
            },
        };
        let bytes = value.as_bytes();
        proof {
            encode_utf8_valid_utf8(value@);
            is_char_boundary_start_end_of_seq(bytes@);
        }
        let mut pos: usize = 0;
        loop
            invariant_except_break
                bytes@ == value.spec_bytes(),
                valid_utf8(bytes@),
                pos <= bytes@.len(),
                is_char_boundary(bytes@, pos as int),
                is_char_boundary(bytes@, bytes@.len() as int),
                header_lines_applied(bytes@, 0, old(self).header()) == header_lines_applied(
                    bytes@,
                    pos as int,
                    self.header(),
                ),
                self.data == old(self).data,
                self.offset == old(self).offset,
                self.line_number == old(self).line_number,
                self.next_line_number == old(self).next_line_number,
                self.field == old(self).field,
                self.encoding_error == old(self).encoding_error,
            ensures
                self.header() == header_lines_applied(bytes@, 0, old(self).header()),
                self.data == old(self).data,
                self.offset == old(self).offset,
                self.line_number == old(self).line_number,
                self.next_line_number == old(self).next_line_number,
                self.field == old(self).field,
                self.encoding_error == old(self).encoding_error,
            decreases bytes@.len() - pos,
        {
            let at = find_first(bytes, pos, ascii::LF);
            proof {
                lemma_find_byte(bytes@, pos as int, ascii::LF);
                if at < bytes@.len() {
                    lemma_ascii_boundary(bytes@, at as int);
                }
            }
            self.apply_header_line(substr(value, pos, at));
            if at >= bytes.len() {
                break;
            }
            pos = at + 1;
        }
    }

    /// Reads one line of an entry that is not blank.
    fn apply_line(&mut self, line: &[u8], entry: &mut Entry)
        ensures
            (final(self).field, final(self).encoding_error, final(entry)@) == line_applied(
                old(self).encoding,
                old(self).line_number,
                line@,
                old(self).field,
                old(self).encoding_error,
                old(entry)@,
            ),
            final(self).data == old(self).data,
            final(self).language == old(self).language,
            final(self).language_code == old(self).language_code,
            final(self).country == old(self).country,
            final(self).encoding == old(self).encoding,
            final(self).nplurals == old(self).nplurals,
            final(self).offset == old(self).offset,
            final(self).line_number == old(self).line_number,
            final(self).next_line_number == old(self).next_line_number,
            old(entry).msgstr.in_order() ==> final(entry).msgstr.in_order(),
    {
        if starts_with(line, "#,".as_bytes()) {
            // Workflow and sticky flags.
            Parser::parse_keywords(
                slice_subrange(line, "#,".as_bytes().len(), line.len()),
                entry,
            );
        } else if starts_with(line, "#=".as_bytes()) {
            Parser::parse_keywords(
                slice_subrange(line, "#=".as_bytes().len(), line.len()),
                entry,
            );
        } else if starts_with(line, "#~ ".as_bytes()) {
            // Obsolete entry with a message (start or continued).
            entry.obsolete = true;
            self.parse_message(slice_subrange(line, "#~ ".as_bytes().len(), line.len()), entry);
        } else if starts_with(line, "msg".as_bytes()) || starts_with(line, "\"".as_bytes()) {
            // Message line (start or continued).
            self.parse_message(line, entry);
        }
    }

    /// Returns the next entry of the catalog, or nothing where only blank
    /// lines are left.
    pub fn next(&mut self) -> (r: Option<Entry>)
        ensures
            final(self).data() == old(self).data(),
            (match r {
                Some(e) => Some(e@),
                None => None,
            }, final(self).header(), final(self).cursor()) == next_entry(
                old(self).data(),
                old(self).header(),
                old(self).cursor(),
            ),
            r is Some ==> r->0.msgstr.in_order(),
            r is Some ==> old(self).cursor().offset < final(self).cursor().offset,
            final(self).cursor().offset <= old(self).data().len(),
    {
        proof {
            use_type_invariant(&*self);
        }
        let mut entry = Entry::new(self.next_line_number);
        self.line_number = self.next_line_number;
        self.field = Field::Comment;
        self.encoding_error = false;
        let mut started = false;
        let ghost data = self.data@;
        let ghost header = self.header();
        let ghost init = Scan {
            offset: self.offset as int,
            next_line_number: self.next_line_number,
            line_number: self.next_line_number,
            field: Field::Comment,
            error: false,
            entry: blank_entry(self.next_line_number),
            started: false,
        };
        let ghost mut closed = false;
        proof {
            assert(entry@.keywords =~= Seq::empty());
            assert(entry@.noqa_rules =~= Seq::empty());
            assert(entry@.msgstr =~= Seq::empty());
            lemma_scanned(data, header.encoding, init);
        }
        loop
            invariant_except_break
                self.data@ == data,
                self.header() == header,
                data.len() < usize::MAX,
                self.offset <= data.len(),
                1 <= self.next_line_number <= self.offset + 1,
                entry.msgstr.in_order(),
                init.offset <= self.offset,
                started ==> init.offset < self.offset,
                scanned(data, header.encoding, init) == scanned(
                    data,
                    header.encoding,
                    (Scan {
                        offset: self.offset as int,
                        next_line_number: self.next_line_number,
                        line_number: self.line_number,
                        field: self.field,
                        error: self.encoding_error,
                        entry: entry@,
                        started,
                    }),
                ),
            ensures
                self.data@ == data,
                self.header() == header,
                data.len() < usize::MAX,
                self.offset <= data.len(),
                1 <= self.next_line_number <= self.offset + 1,
                entry.msgstr.in_order(),
                started ==> init.offset < self.offset,
                scanned(data, header.encoding, init) == (Scan {
                    offset: self.offset as int,
                    next_line_number: self.next_line_number,
                    line_number: self.line_number,
                    field: self.field,
                    error: self.encoding_error,
                    entry: entry@,
                    started,
                }),
            decreases data.len() - self.offset,
        {
            proof {
                lemma_find_byte(data, self.offset as int, ascii::LF);
            }
            let line = match self.next_line() {
                Some(line) => line,
                None => {
                    break;
                },
            };
            if line.len() == 0 {
                if started {
                    break;
                }
                entry.line_number = self.next_line_number;
                self.line_number = self.next_line_number;
                continue;
            }
            started = true;
            self.apply_line(line, &mut entry);
            self.line_number = self.next_line_number;
        }
        if started {
            entry.encoding_error = self.encoding_error;
            let ghost raw = entry@;
            entry.unescape_strings();
            proof {
                assert(entry@.msgstr =~= unescaped_entry(raw).msgstr);
                assert(entry@ == unescaped_entry(raw));
            }
            self.parse_header(&entry);
            Some(entry)
        } else {
            None
        }
    }

    /// Returns the entries that are left, in order.
    pub fn collect(&mut self) -> (v: Vec<Entry>)
        ensures
            final(self).data() == old(self).data(),
            entries_view(v@) == entries_from(
                old(self).data(),
                old(self).header(),
                old(self).cursor(),
            ),
            final(self).header() == header_from(
                old(self).data(),
                old(self).header(),
                old(self).cursor(),
            ),
    {
        proof {
            use_type_invariant(&*self);
        }
        let mut v: Vec<Entry> = Vec::new();
        let ghost data = self.data();
        loop
            invariant_except_break
                self.data() == data,
                self.cursor().offset <= data.len(),
                entries_from(old(self).data(), old(self).header(), old(self).cursor())
                    == entries_view(v@) + entries_from(data, self.header(), self.cursor()),
                header_from(old(self).data(), old(self).header(), old(self).cursor())
                    == header_from(data, self.header(), self.cursor()),
            ensures
                self.data() == data,
                entries_view(v@) == entries_from(
                    old(self).data(),
                    old(self).header(),
                    old(self).cursor(),
                ),
                self.header() == header_from(
                    old(self).data(),
                    old(self).header(),
                    old(self).cursor(),
                ),
            decreases data.len() - self.cursor().offset,
        {
            let ghost before = entries_view(v@);
            match self.next() {
                Some(entry) => {
                    v.push(entry);
                    proof {
                        assert(entries_view(v@) =~= before.push(entry@));
                        assert(entries_from(
                            old(self).data(),
                            old(self).header(),
                            old(self).cursor(),
                        ) =~= entries_view(v@) + entries_from(data, self.header(), self.cursor()));
                    }
                },
                None => {
                    proof {
                        assert(entries_view(v@) =~= entries_from(
                            old(self).data(),
                            old(self).header(),
                            old(self).cursor(),
                        ));
                    }
                    break;
                },
            }
        }
        v
    }
}

} // verus!
