use poexam::po::entry::Entry;
use poexam::po::format::language::Language;
use poexam::po::message::Message;
use poexam::po::parser::Parser;
use poexam::po::translations::Translations;

fn parse(content: &[u8]) -> (Vec<Entry>, Parser<'_>) {
    let mut parser = Parser::new(content);
    let entries = parser.collect();
    (entries, parser)
}

#[test]
fn line_numbers_of_two_entries_match_their_lines() {
    let (entries, _) = parse(b"msgid \"a\"\nmsgstr \"b\"\n\nmsgid \"c\"\nmsgstr \"d\"\n");
    assert_eq!(entries.len(), 2);
    assert_eq!(entries[0].line_number, 1);
    assert_eq!(entries[0].msgid.as_ref().unwrap().line_number, 1);
    assert_eq!(entries[0].msgstr.get(&0).unwrap().line_number, 2);
    assert_eq!(entries[1].line_number, 4);
    assert_eq!(entries[1].msgid.as_ref().unwrap().line_number, 4);
    assert_eq!(entries[1].msgstr.get(&0).unwrap().line_number, 5);
}

#[test]
fn line_numbers_count_comments_continuations_and_blank_lines() {
    let content = b"\n\n# comment\n#, fuzzy\nmsgctxt \"c\"\nmsgid \"\"\n\"a\"\nmsgid_plural \"as\"\nmsgstr[0] \"b\"\n\"b\"\nmsgstr[1] \"bs\"\n\n\n\nmsgid \"z\"\nmsgstr \"y\"";
    let (entries, _) = parse(content);
    assert_eq!(entries.len(), 2);
    assert_eq!(entries[0].line_number, 3);
    assert_eq!(entries[0].msgctxt, Some(Message::new(5, "c")));
    assert_eq!(entries[0].msgid, Some(Message::new(6, "a")));
    assert_eq!(entries[0].msgid_plural, Some(Message::new(8, "as")));
    assert_eq!(entries[0].msgstr.get(&0), Some(&Message::new(9, "bb")));
    assert_eq!(entries[0].msgstr.get(&1), Some(&Message::new(11, "bs")));
    // The last entry is given though no blank line closes it.
    assert_eq!(entries[1].line_number, 15);
    assert_eq!(entries[1].msgid, Some(Message::new(15, "z")));
    assert_eq!(entries[1].msgstr.get(&0), Some(&Message::new(16, "y")));
}

#[test]
fn header_gives_language_code_and_country() {
    let (_, parser) = parse(b"msgid \"\"\nmsgstr \"Language: pt_BR\\n\"\n");
    assert_eq!(parser.language, "pt_BR");
    assert_eq!(parser.language_code, "pt");
    assert_eq!(parser.country, "BR");
    assert_eq!(parser.language(), "pt_BR");
    assert_eq!(parser.language_code(), "pt");
    assert_eq!(parser.country(), "BR");
}

#[test]
fn header_keys_are_read_without_regard_to_case() {
    let content = b"msgid \"\"\nmsgstr \"\"\n\"  LANGUAGE :  fr \\n\"\n\"plural-FORMS: nplurals=3; plural=n>1;\\n\"\n\"CONTENT-TYPE: text/plain; charset=ISO-8859-1\\n\"\n";
    let (entries, parser) = parse(content);
    assert_eq!(entries.len(), 1);
    assert!(entries[0].is_header());
    assert_eq!(parser.language, "fr");
    assert_eq!(parser.language_code, "fr");
    assert_eq!(parser.country, "");
    assert_eq!(parser.nplurals(), 3);
    // The label `ISO-8859-1` stands for the encoding `windows-1252`.
    assert_eq!(parser.encoding, Some(encoding_rs::WINDOWS_1252));
    assert_eq!(parser.encoding_name(), "windows-1252");
}

#[test]
fn header_charset_ends_at_white_space_or_semicolon() {
    let (_, parser) = parse(b"msgid \"\"\nmsgstr \"Content-Type: text/plain; charset=koi8-r; x=y\\n\"\n");
    assert_eq!(parser.encoding, Some(encoding_rs::KOI8_R));
    assert_eq!(parser.encoding_name(), "KOI8-R");
    let (_, parser) = parse(b"msgid \"\"\nmsgstr \"Content-Type: charset=utf8 \\n\"\n");
    assert!(parser.encoding.is_none());
    assert_eq!(parser.encoding_name(), "UTF-8");
    let (_, parser) = parse(b"msgid \"\"\nmsgstr \"Content-Type: charset=no-such-charset\\n\"\n");
    assert!(parser.encoding.is_none());
}

#[test]
fn header_is_read_only_from_an_entry_with_an_empty_msgid() {
    let (_, parser) = parse(b"msgid \"x\"\nmsgstr \"Language: de\\nPlural-Forms: nplurals=2;\\n\"\n");
    assert_eq!(parser.language, "");
    assert_eq!(parser.nplurals(), 0);
    // A number of plural forms that does not fit, or that is missing, changes nothing.
    let (_, parser) = parse(b"msgid \"\"\nmsgstr \"Plural-Forms: nplurals=4294967296;\\n\"\n");
    assert_eq!(parser.nplurals(), 0);
    let (_, parser) = parse(b"msgid \"\"\nmsgstr \"Plural-Forms: nplurals=;\\n\"\n");
    assert_eq!(parser.nplurals(), 0);
    let (_, parser) = parse(b"msgid \"\"\nmsgstr \"Plural-Forms: nplurals=4294967295;\\n\"\n");
    assert_eq!(parser.nplurals(), u32::MAX);
}

#[test]
fn strings_are_decoded_with_the_encoding_of_the_header() {
    let mut content = b"msgid \"\"\nmsgstr \"Content-Type: text/plain; charset=ISO-8859-15\\n\"\n\nmsgid \"euro\"\nmsgstr \"".to_vec();
    content.push(0xA4);
    content.extend_from_slice(b"\"\n");
    let (entries, parser) = parse(&content);
    assert_eq!(parser.encoding, Some(encoding_rs::ISO_8859_15));
    assert_eq!(entries[1].msgstr.get(&0).unwrap().value, "€");
    assert!(!entries[1].encoding_error);
}

#[test]
fn invalid_utf8_is_replaced_and_flagged() {
    let (entries, _) = parse(b"msgid \"a\xffb\"\nmsgstr \"ok\"\n\nmsgid \"fine\"\nmsgstr \"ok\"\n");
    assert!(entries[0].encoding_error);
    assert_eq!(entries[0].msgid.as_ref().unwrap().value, "a\u{FFFD}b");
    // The flag is of the entry: the next entry starts without it.
    assert!(!entries[1].encoding_error);
}

#[test]
fn keywords_set_flags_rules_and_format_language() {
    let (entries, _) = parse(b"#, fuzzy, no-wrap\n#= c-format\n#, noqa: a ;b;\n#,\nmsgid \"x\"\nmsgstr \"y\"\n");
    let e = &entries[0];
    assert!(e.fuzzy);
    assert!(e.nowrap);
    assert!(!e.noqa);
    assert_eq!(e.format_language, Language::C);
    assert_eq!(e.noqa_rules, vec!["a", "b", ""]);
    assert_eq!(e.keywords, vec!["fuzzy", "no-wrap", "c-format", "noqa: a ;b;", ""]);
    let (entries, _) = parse(b"#, python-brace-format, noqa\nmsgid \"x\"\nmsgstr \"y\"\n");
    assert_eq!(entries[0].format_language, Language::PythonBrace);
    assert!(entries[0].noqa);
    let (entries, _) = parse(b"#, java-format\nmsgid \"x\"\nmsgstr \"y\"\n");
    assert_eq!(entries[0].format_language, Language::Null);
    let (entries, _) = parse(b"#, c-format, fuzzy-format\nmsgid \"x\"\nmsgstr \"y\"\n");
    assert_eq!(entries[0].format_language, Language::Null);
}

#[test]
fn obsolete_entries_are_marked_and_read() {
    let (entries, _) = parse(b"#~ msgid \"old\"\n#~ \" text\"\n#~ msgstr \"ancien\"\n");
    let e = &entries[0];
    assert!(e.obsolete);
    assert_eq!(e.msgid, Some(Message::new(1, "old text")));
    assert_eq!(e.msgstr.get(&0), Some(&Message::new(3, "ancien")));
    assert_eq!(
        e.to_po_lines(),
        vec![
            (1, "#~ msgid \"old text\"".to_string()),
            (3, "#~ msgstr \"ancien\"".to_string()),
        ]
    );
}

#[test]
fn plural_indexes_are_read_as_numbers() {
    let (entries, _) = parse(b"msgid \"a\"\nmsgid_plural \"b\"\nmsgstr[2] \"two\"\nmsgstr[+1] \"one\"\nmsgstr[x] \"bad\"\nmsgstr[] \"bad\"\nmsgstr[007] \"seven\"\nmsgstr[4294967296] \"big\"\nmsgstr[0 \"bad\"\n");
    let e = &entries[0];
    assert_eq!(e.msgstr.len(), 3);
    let found: Vec<(u32, &str, usize)> = e
        .iter_strs()
        .iter()
        .map(|(k, m)| (*k, m.value.as_str(), m.line_number))
        .collect();
    assert_eq!(found, vec![(1, "one", 4), (2, "two", 3), (7, "seven", 7)]);
    assert!(e.has_plural_form());
    assert!(e.is_translated());
}

#[test]
fn a_string_lies_between_the_first_and_the_last_quote() {
    let (entries, _) = parse(b"msgid \"a \"quoted\" word\" # tail\nmsgstr \"\nmsgctxt no quotes\n");
    let e = &entries[0];
    assert_eq!(e.msgid.as_ref().unwrap().value, "a \"quoted\" word");
    assert_eq!(e.msgstr.get(&0).unwrap().value, "");
    assert_eq!(e.msgctxt.as_ref().unwrap().value, "");
}

#[test]
fn continuation_goes_to_the_field_that_is_read() {
    let (entries, _) = parse(b"\"lost\"\nmsgid \"a\"\nmsgstr[1] \"b\"\nmsgstr[0] \"c\"\n\"d\"\nfoo\n\"e\"\n");
    let e = &entries[0];
    assert_eq!(e.msgid.as_ref().unwrap().value, "a");
    assert_eq!(e.msgstr.get(&1).unwrap().value, "b");
    assert_eq!(e.msgstr.get(&0).unwrap().value, "cde");
}

#[test]
fn entries_are_unescaped_and_written_back_escaped() {
    let (entries, _) = parse(b"msgctxt \"tab\\t\"\nmsgid \"a\\nb \\\"q\\\" \\\\ \\x\"\nmsgstr \"\"\n");
    let e = &entries[0];
    assert_eq!(e.msgctxt.as_ref().unwrap().value, "tab\t");
    assert_eq!(e.msgid.as_ref().unwrap().value, "a\nb \"q\" \\ \\x");
    assert!(!e.is_translated());
    assert_eq!(
        e.to_po_lines(),
        vec![
            (1, "msgctxt \"tab\\t\"".to_string()),
            (2, "msgid \"a\\nb \\\"q\\\" \\\\ \\\\x\"".to_string()),
            (3, "msgstr \"\"".to_string()),
        ]
    );
}

#[test]
fn translations_are_kept_in_the_order_of_their_indexes() {
    let mut t = Translations::new();
    assert!(t.is_empty());
    assert_eq!(t.insert(5, Message::new(1, "five")), None);
    assert_eq!(t.insert(0, Message::new(2, "zero")), None);
    assert_eq!(t.insert(3, Message::new(3, "three")), None);
    assert_eq!(t.insert(5, Message::new(4, "FIVE")), Some(Message::new(1, "five")));
    assert_eq!(t.len(), 3);
    assert_eq!(t.key_at(0), 0);
    assert_eq!(t.key_at(1), 3);
    assert_eq!(t.key_at(2), 5);
    assert_eq!(t.value_at(2), &Message::new(4, "FIVE"));
    assert_eq!(t.find(3), Some(1));
    assert_eq!(t.find(4), None);
    assert!(t.contains_key(&0));
    assert!(!t.contains_key(&1));
    assert_eq!(t.get(&9), None);
    t.set_text(1, "drei".to_string());
    assert_eq!(t.get(&3), Some(&Message::new(3, "drei")));
    assert!(!t.is_contiguous());
    t.insert(1, Message::new(5, "one"));
    t.insert(2, Message::new(6, "two"));
    assert!(!t.is_contiguous());
    let mut plural = Translations::default();
    assert!(plural.is_contiguous());
    plural.insert(1, Message::new(2, "b"));
    assert!(!plural.is_contiguous());
    plural.insert(0, Message::new(1, "a"));
    assert!(plural.is_contiguous());
}

#[test]
fn entry_methods_change_only_their_field() {
    let mut e = Entry::new(7);
    assert_eq!(e, Entry { line_number: 7, ..Default::default() });
    e.append_msgid("nothing to append to");
    e.append_msgstr(0, "nothing");
    assert_eq!(e, Entry::new(7));
    e.msgid = Some(Message::new(7, "a"));
    e.msgstr.insert(1, Message::new(9, "b\n"));
    e.append_msgid("\t");
    e.append_msgstr(1, "c");
    e.append_msgstr(0, "none");
    assert_eq!(e.msgid, Some(Message::new(7, "a\t")));
    assert_eq!(e.msgstr.get(&1), Some(&Message::new(9, "b\nc")));
    e.escape_strings();
    assert_eq!(e.msgid, Some(Message::new(7, "a\\t")));
    assert_eq!(e.msgstr.get(&1), Some(&Message::new(9, "b\\nc")));
    assert_eq!(e.iter_ids(), vec![&Message::new(7, "a\\t")]);
    assert_eq!(Message::default(), Message::new(0, ""));
    assert_eq!(Message::new(3, "x").duplicate(), Message::new(3, "x"));
}

#[test]
fn a_catalog_without_entries_gives_none() {
    for content in [&b""[..], b"\n", b"\n\n\n"] {
        let mut parser = Parser::new(content);
        assert!(parser.next().is_none());
        assert!(parser.next().is_none());
    }
    let mut parser = Parser::new(b"# only a comment");
    let entry = parser.next().unwrap();
    assert_eq!(entry, Entry::new(1));
    assert!(parser.next().is_none());
}
