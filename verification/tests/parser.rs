use poexam::po::entry::Entry;
use poexam::po::format::language::Language;
use poexam::po::message::Message;
use poexam::po::parser::Parser;

#[test]
fn parse_empty_string() {
    let mut parser = Parser::new(b"");
    let entries: Vec<Entry> = parser.collect();
    assert!(entries.is_empty());
}

#[test]
fn parse_header() {
    let content = r#"# Main comment
msgid ""
msgstr "test\n"
"Project-Id-Version: my_project\n"
"Report-Msgid-Bugs-To: someone@example.com\n"
"Language: fr\n"
"Plural-Forms: nplurals=2; plural=(n > 1);\n"
"#;
    let mut parser = Parser::new(content.as_bytes());
    let entries = parser.collect();
    assert_eq!(entries[0].line_number, 1);
    assert!(entries[0].keywords.is_empty());
    assert!(!entries[0].fuzzy);
    assert!(!entries[0].noqa);
    assert!(!entries[0].nowrap);
    assert_eq!(entries[0].format_language, Language::Null);
    assert!(!entries[0].encoding_error);
    assert_eq!(parser.nplurals, 2);
    assert!(entries[0].msgctxt.is_none());
    assert_eq!(entries[0].msgid, Some(Message::new(2, "")));
    assert!(entries[0].msgid_plural.is_none());
    assert_eq!(
        entries[0].msgstr.get(&0),
        Some(Message::new(
            3,
            "test\n\
            Project-Id-Version: my_project\n\
            Report-Msgid-Bugs-To: someone@example.com\n\
            Language: fr\n\
            Plural-Forms: nplurals=2; plural=(n > 1);\n"
        ))
        .as_ref()
    );
    assert_eq!(parser.language, "fr");
    assert_eq!(parser.language_code, "fr");
    assert_eq!(parser.country, "");
    assert!(parser.encoding.is_none());

    let content = r#"# Main comment
msgid ""
msgstr "Language: pt_BR\n"
"#;
    let mut parser = Parser::new(content.as_bytes());
    let _ = parser.collect();
    assert_eq!(parser.language, "pt_BR");
    assert_eq!(parser.language_code, "pt");
    assert_eq!(parser.country, "BR");
}

#[test]
fn parse_simple_entry() {
    let content = r#"
msgid "hello"
msgstr "bonjour"
"#;
    let mut parser = Parser::new(content.as_bytes());
    let entries = parser.collect();
    assert_eq!(entries[0].line_number, 2);
    assert!(entries[0].keywords.is_empty());
    assert!(!entries[0].fuzzy);
    assert!(!entries[0].noqa);
    assert!(!entries[0].nowrap);
    assert_eq!(entries[0].format_language, Language::Null);
    assert!(!entries[0].encoding_error);
    assert!(entries[0].msgctxt.is_none());
    assert_eq!(entries[0].msgid, Some(Message::new(2, "hello")));
    assert!(entries[0].msgid_plural.is_none());
    assert_eq!(
        entries[0].msgstr.get(&0),
        Some(Message::new(3, "bonjour")).as_ref()
    );
}

#[test]
fn parse_simple_entry_iso8859() {
    let content = r#"
msgid ""
msgstr "Content-Type: text/plain; charset=ISO-8859-15\n"

msgid "tested"
msgstr "testé"
"#;
    let content_iso = encoding_rs::ISO_8859_15.encode(content).0;
    let mut parser = Parser::new(content_iso.as_ref());
    let entries = parser.collect();
    assert_eq!(parser.encoding, Some(encoding_rs::ISO_8859_15));
    assert_eq!(entries[0].line_number, 2);
    assert!(entries[0].keywords.is_empty());
    assert!(!entries[0].fuzzy);
    assert!(!entries[0].noqa);
    assert!(!entries[0].nowrap);
    assert_eq!(entries[0].format_language, Language::Null);
    assert!(!entries[0].encoding_error);
    assert!(entries[0].msgctxt.is_none());
    assert_eq!(entries[0].msgid, Some(Message::new(2, "")));
    assert!(entries[0].msgid_plural.is_none());
    assert_eq!(
        entries[0].msgstr.get(&0),
        Some(Message::new(
            3,
            "Content-Type: text/plain; charset=ISO-8859-15\n"
        ))
        .as_ref()
    );
    assert!(entries[1].keywords.is_empty());
    assert!(!entries[1].fuzzy);
    assert!(!entries[1].noqa);
    assert!(!entries[1].nowrap);
    assert_eq!(entries[1].format_language, Language::Null);
    assert!(!entries[1].encoding_error);
    assert!(entries[1].msgctxt.is_none());
    assert_eq!(entries[1].msgid, Some(Message::new(5, "tested")));
    assert!(entries[1].msgid_plural.is_none());
    assert_eq!(
        entries[1].msgstr.get(&0),
        Some(Message::new(6, "testé")).as_ref()
    );
}

#[test]
fn parse_simple_entry_encoding_error() {
    let content = r#"
msgid ""
msgstr "Content-Type: text/plain; charset=UTF-8\n"

msgid "tested"
msgstr "testé"
"#;
    let content_iso = encoding_rs::ISO_8859_15.encode(content).0;
    let mut parser = Parser::new(content_iso.as_ref());
    let entries = parser.collect();
    assert!(parser.encoding.is_none());
    assert_eq!(entries[0].line_number, 2);
    assert!(entries[0].keywords.is_empty());
    assert!(!entries[0].noqa);
    assert!(!entries[0].nowrap);
    assert_eq!(entries[0].format_language, Language::Null);
    assert!(!entries[0].encoding_error);
    assert!(entries[0].msgctxt.is_none());
    assert_eq!(entries[0].msgid, Some(Message::new(2, "")));
    assert!(entries[0].msgid_plural.is_none());
    assert_eq!(
        entries[0].msgstr.get(&0),
        Some(Message::new(3, "Content-Type: text/plain; charset=UTF-8\n",)).as_ref()
    );
    assert!(entries[1].keywords.is_empty());
    assert!(!entries[1].fuzzy);
    assert!(!entries[1].noqa);
    assert!(!entries[1].nowrap);
    assert_eq!(entries[1].format_language, Language::Null);
    assert!(entries[1].encoding_error);
    assert!(entries[1].msgctxt.is_none());
    assert_eq!(entries[1].msgid, Some(Message::new(5, "tested")));
    assert!(entries[1].msgid_plural.is_none());
    assert_eq!(
        entries[1].msgstr.get(&0),
        Some(Message::new(6, "test�")).as_ref()
    );
}

#[test]
fn parse_entry_with_context() {
    let content = r#"
msgctxt "month of the year"
msgid "may"
msgstr "mai"
"#;
    let mut parser = Parser::new(content.as_bytes());
    let entries = parser.collect();
    assert_eq!(entries[0].line_number, 2);
    assert!(entries[0].keywords.is_empty());
    assert!(!entries[0].fuzzy);
    assert!(!entries[0].noqa);
    assert!(!entries[0].nowrap);
    assert_eq!(entries[0].format_language, Language::Null);
    assert!(!entries[0].encoding_error);
    assert_eq!(
        entries[0].msgctxt,
        Some(Message::new(2, "month of the year"))
    );
    assert_eq!(entries[0].msgid, Some(Message::new(3, "may")));
    assert!(entries[0].msgid_plural.is_none());
    assert_eq!(
        entries[0].msgstr.get(&0),
        Some(Message::new(4, "mai")).as_ref()
    );
}

#[test]
fn parse_two_entries() {
    let content = r#"
msgid "hello"
msgstr "bonjour"

msgid "hello 2"
msgstr ""
"#;
    let mut parser = Parser::new(content.as_bytes());
    let entries = parser.collect();
    assert_eq!(entries[0].line_number, 2);
    assert!(entries[0].keywords.is_empty());
    assert!(!entries[0].fuzzy);
    assert!(!entries[0].noqa);
    assert!(!entries[0].nowrap);
    assert_eq!(entries[0].format_language, Language::Null);
    assert!(!entries[0].encoding_error);
    assert!(entries[0].msgctxt.is_none());
    assert_eq!(entries[0].msgid, Some(Message::new(2, "hello")));
    assert!(entries[0].msgid_plural.is_none());
    assert_eq!(
        entries[0].msgstr.get(&0),
        Some(Message::new(3, "bonjour")).as_ref()
    );
    assert_eq!(entries[1].line_number, 5);
    assert!(entries[1].keywords.is_empty());
    assert!(!entries[1].fuzzy);
    assert!(!entries[1].noqa);
    assert!(!entries[1].nowrap);
    assert_eq!(entries[1].format_language, Language::Null);
    assert!(!entries[1].encoding_error);
    assert!(entries[1].msgctxt.is_none());
    assert_eq!(entries[1].msgid, Some(Message::new(5, "hello 2")));
    assert!(entries[1].msgid_plural.is_none());
    assert_eq!(
        entries[1].msgstr.get(&0),
        Some(Message::new(6, "")).as_ref()
    );
}

#[test]
fn parse_plural_entry() {
    let content = r#"
msgid "file"
msgid_plural "files"
msgstr[0] "fichier"
msgstr[1] "fichiers"
"#;
    let mut parser = Parser::new(content.as_bytes());
    let entries = parser.collect();
    assert_eq!(entries[0].line_number, 2);
    assert!(entries[0].keywords.is_empty());
    assert!(!entries[0].fuzzy);
    assert!(!entries[0].noqa);
    assert!(!entries[0].nowrap);
    assert_eq!(entries[0].format_language, Language::Null);
    assert!(!entries[0].encoding_error);
    assert!(entries[0].msgctxt.is_none());
    assert_eq!(entries[0].msgid, Some(Message::new(2, "file")));
    assert_eq!(entries[0].msgid_plural, Some(Message::new(3, "files")));
    assert_eq!(
        entries[0].msgstr.get(&0),
        Some(Message::new(4, "fichier")).as_ref()
    );
    assert_eq!(
        entries[0].msgstr.get(&1),
        Some(Message::new(5, "fichiers")).as_ref()
    );
}

#[test]
fn parse_comments() {
    let content = r#"
# Translator comment
#, fuzzy, python-format,   noqa, noqa:blank;pipes, no-wrap
#= keyword
#: src/main.rs:42
msgid "hello"
msgstr "bonjour"
"#;
    let mut parser = Parser::new(content.as_bytes());
    let entries = parser.collect();
    assert_eq!(entries[0].line_number, 2);
    assert_eq!(
        entries[0].keywords,
        vec![
            "fuzzy".to_string(),
            "python-format".to_string(),
            "noqa".to_string(),
            "noqa:blank;pipes".to_string(),
            "no-wrap".to_string(),
            "keyword".to_string(),
        ]
    );
    assert!(entries[0].fuzzy);
    assert!(entries[0].noqa);
    assert!(entries[0].nowrap);
    assert_eq!(entries[0].noqa_rules, vec!["blank", "pipes"]);
    assert_eq!(entries[0].format_language, Language::Python);
    assert!(!entries[0].encoding_error);
    assert!(entries[0].msgctxt.is_none());
    assert_eq!(entries[0].msgid, Some(Message::new(6, "hello")));
    assert!(entries[0].msgid_plural.is_none());
    assert_eq!(
        entries[0].msgstr.get(&0),
        Some(Message::new(7, "bonjour")).as_ref()
    );
}

#[test]
fn parse_multiline_strings() {
    let content = r#"
msgid ""
"hello "
"world"
msgstr ""
"bonjour "
"le monde"
"#;
    let mut parser = Parser::new(content.as_bytes());
    let entries = parser.collect();
    assert_eq!(entries[0].line_number, 2);
    assert!(entries[0].keywords.is_empty());
    assert!(!entries[0].fuzzy);
    assert!(!entries[0].noqa);
    assert!(!entries[0].nowrap);
    assert_eq!(entries[0].format_language, Language::Null);
    assert!(!entries[0].encoding_error);
    assert!(entries[0].msgctxt.is_none());
    assert_eq!(entries[0].msgid, Some(Message::new(2, "hello world")));
    assert!(entries[0].msgid_plural.is_none());
    assert_eq!(
        entries[0].msgstr.get(&0),
        Some(Message::new(5, "bonjour le monde")).as_ref()
    );
}
