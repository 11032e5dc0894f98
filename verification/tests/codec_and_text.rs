use poexam::diagnostic::{count_chars_before, Diagnostic, DiagnosticLine, Severity};
use poexam::po::escape::EscapePoExt;
use poexam::po::format::lang_c::{fmt_sort_index, fmt_strip_index, get_index_end_c_format};
use poexam::text::{
    bytes_eq, bytes_less, char_width, ends_with, find_bytes, find_first, find_last, insert_word,
    parse_decimal, push_decimal, read_char, split_trimmed, starts_with, step_back, str_eq, substr,
};

#[test]
fn roundtrip_holds_for_backslashes_and_unknown_sequences() {
    for s in ["\\", "a\\", "\\x", "\\\\n", "\"\\\"", "\r\n\t", "tab\\t", "é\\é"] {
        assert_eq!(s.escape_po().unescape_po(), s);
    }
}

#[test]
fn escape_after_unescape_changes_unknown_sequences() {
    // The reverse direction does not hold: an unknown sequence stays as it is when it is
    // unescaped, and its backslash is doubled when it is escaped again.
    assert_eq!("\\x".unescape_po(), "\\x");
    assert_eq!("\\x".unescape_po().escape_po(), "\\\\x");
    assert_eq!("end\\".unescape_po(), "end\\");
    assert_eq!("end\\".unescape_po().escape_po(), "end\\\\");
}

#[test]
fn unescape_reads_pairs_from_left_to_right() {
    assert_eq!("\\\\n".unescape_po(), "\\n");
    assert_eq!("\\\\\\n".unescape_po(), "\\\n");
    assert_eq!("a\\tb\\rc".unescape_po(), "a\tb\rc");
}

#[test]
fn decimal_digits_are_written_without_leading_zeros() {
    let mut s = String::from("n=");
    push_decimal(&mut s, 0);
    s.push(',');
    push_decimal(&mut s, 7);
    s.push(',');
    push_decimal(&mut s, 10);
    s.push(',');
    push_decimal(&mut s, 1234567890);
    s.push(',');
    push_decimal(&mut s, u64::MAX);
    assert_eq!(s, "n=0,7,10,1234567890,18446744073709551615");
}

#[test]
fn decimal_digits_are_read_or_refused_when_too_large() {
    assert_eq!(parse_decimal(b"x042y", 1, 4), Some(42));
    assert_eq!(parse_decimal(b"", 0, 0), Some(0));
    assert_eq!(parse_decimal(b"18446744073709551615", 0, 20), Some(u64::MAX));
    assert_eq!(parse_decimal(b"18446744073709551616", 0, 20), None);
    assert_eq!(parse_decimal(b"99999999999999999999", 0, 20), None);
}

#[test]
fn sort_index_that_does_not_fit_counts_as_none() {
    assert_eq!(fmt_sort_index("%18446744073709551615$d"), usize::MAX);
    assert_eq!(fmt_sort_index("%99999999999999999999999$d"), usize::MAX);
    assert_eq!(fmt_sort_index("%0$d"), 0);
    assert_eq!(fmt_sort_index("%007$d"), 7);
    assert_eq!(fmt_sort_index("%7"), usize::MAX);
    assert_eq!(fmt_strip_index("%7"), "%7");
    assert_eq!(fmt_strip_index("%12$-5.2lf"), "%-5.2lf");
    assert_eq!(fmt_strip_index("%1$"), "%");
}

#[test]
fn c_format_end_stops_at_the_limit() {
    let bytes = b"%lld and more";
    assert_eq!(get_index_end_c_format(bytes, 1, bytes.len()), 4);
    assert_eq!(get_index_end_c_format(bytes, 1, 3), 3);
    assert_eq!(get_index_end_c_format(bytes, 1, 1), 1);
    assert_eq!(get_index_end_c_format(bytes, 5, 2), 5);
    assert_eq!(get_index_end_c_format(b"%hhd", 1, 4), 4);
    assert_eq!(get_index_end_c_format(b"%hd", 1, 3), 3);
    assert_eq!(get_index_end_c_format(b"%zu", 1, 3), 3);
    assert_eq!(get_index_end_c_format(b"%-+ #.$09Lf!", 1, 12), 11);
    assert_eq!(get_index_end_c_format(b"%5", 1, 2), 2);
}

#[test]
fn bytes_are_compared_and_searched() {
    assert!(bytes_eq(b"abc", b"abc"));
    assert!(!bytes_eq(b"abc", b"abd"));
    assert!(!bytes_eq(b"abc", b"ab"));
    assert!(bytes_less(b"", b"a"));
    assert!(bytes_less(b"ab", b"abc"));
    assert!(bytes_less(b"abc", b"abd"));
    assert!(!bytes_less(b"abc", b"abc"));
    assert!(!bytes_less(b"b", b"abc"));
    assert!(str_eq("é", "é"));
    assert!(!str_eq("é", "e"));
    assert!(starts_with(b"msgid \"a\"", b"msgid"));
    assert!(!starts_with(b"msg", b"msgid"));
    assert!(ends_with(b"c-format", b"-format"));
    assert!(!ends_with(b"format", b"-format"));
    assert_eq!(find_first(b"a,b,c", 0, b','), 1);
    assert_eq!(find_first(b"a,b,c", 2, b','), 3);
    assert_eq!(find_first(b"a,b,c", 4, b','), 5);
    assert_eq!(find_last(b"a\"b\"c", b'"'), Some(3));
    assert_eq!(find_last(b"abc", b'"'), None);
    assert_eq!(find_bytes(b"text/plain; charset=UTF-8", b"charset="), 12);
    assert_eq!(find_bytes(b"text/plain", b"charset="), 10);
    assert_eq!(find_bytes(b"abc", b""), 0);
}

#[test]
fn characters_are_read_at_their_positions() {
    let s = "aé你😀";
    assert_eq!(read_char(s, 0), 'a');
    assert_eq!(read_char(s, 1), 'é');
    assert_eq!(read_char(s, 3), '你');
    assert_eq!(read_char(s, 6), '😀');
    assert_eq!(char_width('a'), 1);
    assert_eq!(char_width('é'), 2);
    assert_eq!(char_width('你'), 3);
    assert_eq!(char_width('😀'), 4);
    assert_eq!(step_back(s.as_bytes(), 10), 6);
    assert_eq!(step_back(s.as_bytes(), 6), 3);
    assert_eq!(step_back(s.as_bytes(), 3), 1);
    assert_eq!(step_back(s.as_bytes(), 1), 0);
    assert_eq!(substr(s, 1, 6), "é你");
    assert_eq!(substr(s, 0, 0), "");
}

#[test]
fn lists_are_split_and_trimmed() {
    assert_eq!(split_trimmed("a, b ,c", 0, b','), vec!["a", "b", "c"]);
    assert_eq!(split_trimmed("", 0, b','), vec![""]);
    assert_eq!(split_trimmed("a,", 0, b','), vec!["a", ""]);
    assert_eq!(split_trimmed("noqa:blank; pipes", 5, b';'), vec!["blank", "pipes"]);
}

#[test]
fn words_are_kept_in_order_and_once() {
    let mut words: Vec<String> = Vec::new();
    for w in ["unz", "fôte", "unz", "abc", "fôte", "zz", "Abc"] {
        insert_word(&mut words, w);
    }
    assert_eq!(words, vec!["Abc", "abc", "fôte", "unz", "zz"]);
}

#[test]
fn highlights_are_given_as_character_indexes() {
    let line = DiagnosticLine {
        line_number: 3,
        message: "testé>}, 你好".to_string(),
        highlights: vec![(0, 4), (4, 6), (6, 7), (10, 13), (13, 16), (16, 99)],
    };
    assert_eq!(
        line.char_highlights(),
        vec![(0, 4), (4, 5), (5, 6), (9, 10), (10, 11), (11, 11)]
    );
    assert_eq!(count_chars_before("é".as_bytes(), 1), 1);
    assert_eq!(count_chars_before("é".as_bytes(), 2), 1);
    assert_eq!(count_chars_before(b"", 5), 0);
}

#[test]
fn diagnostic_keeps_its_lines_in_order() {
    let mut diag = Diagnostic::new("fr.po", "blank", Severity::Warning, "blank translation".to_string());
    assert!(diag.lines.is_empty());
    diag.add_message(2, "tested", &[]);
    diag.add_message(3, "  ", &[(0, 2)]);
    assert_eq!(diag.path, "fr.po");
    assert_eq!(diag.rule, "blank");
    assert_eq!(diag.severity, Severity::Warning);
    assert_eq!(diag.lines.len(), 2);
    assert_eq!(diag.lines[0].line_number, 2);
    assert_eq!(diag.lines[1].message, "  ");
    assert_eq!(diag.lines[1].highlights, vec![(0, 2)]);
    let mut words = Vec::new();
    diag.add_highlighted(&mut words);
    assert_eq!(words, vec!["  "]);
}

#[test]
fn severities_are_ordered() {
    assert!(Severity::Info < Severity::Warning);
    assert!(Severity::Warning < Severity::Error);
    assert!(Severity::Error.at_least(Severity::Info));
    assert!(Severity::Warning.at_least(Severity::Warning));
    assert!(!Severity::Info.at_least(Severity::Warning));
    assert_eq!(Severity::Info.name(), "info");
    assert_eq!(Severity::Warning.name(), "warning");
    assert_eq!(Severity::Error.name(), "error");
}
