use poexam::c_format::CFormat;
use poexam::po::format::char_pos::CharPos;
use poexam::po::format::format_pos::FormatPos;
use poexam::po::format::lang_c::FormatC;
use poexam::po::format::lang_null::FormatNull;
use poexam::po::format::lang_python::{FormatPython, FormatPythonBrace};
use poexam::po::format::language::Language;
use poexam::po::format::word_pos::WordPos;
use poexam::po::format::{FormatParser, MatchStrPos};
use poexam::rules::formats::{same_strings, sort_formats, sorted_stripped};

fn spans(v: Vec<MatchStrPos>) -> Vec<(usize, usize)> {
    v.iter().map(|m| (m.start, m.end)).collect()
}

fn texts<'a>(v: &[MatchStrPos<'a>]) -> Vec<&'a str> {
    v.iter().map(|m| m.s).collect()
}

#[test]
fn brace_placeholders_with_conversions_give_three_spans() {
    let found = FormatPos::new("{0!r:20}{1}{2}", &Language::PythonBrace).collect();
    assert_eq!(texts(&found), vec!["{0!r:20}", "{1}", "{2}"]);
    assert_eq!(spans(found), vec![(0, 8), (8, 11), (11, 14)]);
}

#[test]
fn brace_placeholder_skips_nested_braces() {
    let s = "a {x:{width}.{prec}} b {{lit}} {";
    let found = FormatPos::new(s, &Language::PythonBrace).collect();
    // A doubled brace is a literal, and a brace that ends the text starts nothing.
    assert_eq!(texts(&found), vec!["{x:{width}.{prec}}"]);
    let unterminated = FormatPos::new("a {b{c} d", &Language::PythonBrace).collect();
    assert_eq!(spans(unterminated), vec![(2, 9)]);
}

#[test]
fn recognizers_read_markers_and_ends() {
    let c = FormatC;
    assert_eq!(c.next_char("%d", 0, 2), (1, true));
    assert_eq!(c.next_char("%%", 0, 2), (1, false));
    assert_eq!(c.next_char("a%", 1, 2), (1, false));
    assert_eq!(c.next_char("ab", 0, 2), (0, false));
    assert_eq!(c.next_char("%d", 5, 2), (5, false));
    assert_eq!(c.find_end_format("%3$05.2lld!", 1, 11), 10);
    let null = FormatNull;
    assert_eq!(null.next_char("%d", 0, 2), (0, false));
    assert_eq!(null.find_end_format("%d", 1, 2), 2);
    let python = FormatPython;
    assert_eq!(python.next_char("%(a)s", 0, 5), (1, true));
    assert_eq!(python.find_end_format("%(name)-5.2Lf!", 1, 14), 13);
    assert_eq!(python.find_end_format("%(name", 1, 6), 6);
    // One length modifier only: the second `h` is read as the conversion.
    assert_eq!(python.find_end_format("%hhd", 1, 4), 3);
    assert_eq!(python.find_end_format("%$d", 1, 3), 1);
    let brace = FormatPythonBrace;
    assert_eq!(brace.next_char("{0}", 0, 3), (1, true));
    assert_eq!(brace.next_char("{{", 0, 2), (1, false));
    assert_eq!(brace.find_end_format("{a{b}c}d", 1, 8), 7);
    assert_eq!(brace.find_end_format("{a{b}c", 1, 6), 6);
    let recognizer = Language::PythonBrace.format_parser();
    assert_eq!(recognizer.next_char("{0}", 0, 3), (1, true));
    assert_eq!(recognizer.find_end_format("{0}", 1, 3), 3);
    let recognizer = Language::C.format_parser();
    assert_eq!(recognizer.find_end_format("%ld", 1, 3), 3);
}

#[test]
fn languages_have_names() {
    assert_eq!(Language::from("python"), Language::Python);
    assert_eq!(Language::from("python-brace"), Language::PythonBrace);
    assert_eq!(Language::from("C"), Language::Null);
    assert_eq!(Language::Null.name(), "none");
    assert_eq!(Language::C.name(), "C");
    assert_eq!(Language::Python.name(), "Python");
    assert_eq!(Language::PythonBrace.name(), "Python brace");
    assert_eq!(Language::default(), Language::Null);
}

#[test]
fn reordered_placeholders_strip_to_the_same_list() {
    let reordered = FormatPos::new("%3$d %1$s %2$f", &Language::C).collect();
    let plain = FormatPos::new("%s %f %d", &Language::C).collect();
    let expected = vec!["%s".to_string(), "%f".to_string(), "%d".to_string()];
    assert_eq!(sorted_stripped(&reordered), expected);
    assert_eq!(sorted_stripped(&plain), expected);
    assert!(same_strings(&sorted_stripped(&reordered), &sorted_stripped(&plain)));
    // Another order of the plain placeholders is another list.
    let other = FormatPos::new("%d %s %f", &Language::C).collect();
    assert_eq!(
        sorted_stripped(&other),
        vec!["%d".to_string(), "%s".to_string(), "%f".to_string()]
    );
    assert!(!same_strings(&sorted_stripped(&reordered), &sorted_stripped(&other)));
}

#[test]
fn placeholders_without_index_sort_last_by_position() {
    let found = FormatPos::new("%d %2$s %f %1$c", &Language::C).collect();
    let sorted = sort_formats(&found);
    assert_eq!(texts(&sorted), vec!["%1$c", "%2$s", "%d", "%f"]);
    assert_eq!(spans(sorted), vec![(11, 15), (3, 7), (0, 2), (8, 10)]);
}

#[test]
fn a_percent_that_ends_the_text_is_read_by_the_c_scanner_only() {
    let general = FormatPos::new("100%", &Language::C).collect();
    assert!(general.is_empty());
    let found = CFormat::new("100%").collect();
    assert_eq!(found.len(), 1);
    assert_eq!((found[0].format, found[0].start, found[0].end), ("%", 3, 4));
    assert_eq!(found[0].sort_key(), (usize::MAX, 3, 4));
    let found = CFormat::new("%2$s").collect();
    assert_eq!(found[0].sort_key(), (2, 0, 4));
}

#[test]
fn a_hyphen_goes_on_a_word_but_does_not_start_one() {
    let found = WordPos::new("-abc -d e-f- --g", &Language::Null).collect();
    assert_eq!(texts(&found), vec!["abc", "d", "e-f-", "g"]);
    let found = CharPos::new("-a b-", &Language::Null).collect();
    assert_eq!(texts(&found), vec!["-", "a", "b", "-"]);
}

#[test]
fn scanners_skip_placeholders_of_each_language() {
    let s = "total: %(count)d files, {n} dirs, 100%% sure";
    assert_eq!(
        texts(&WordPos::new(s, &Language::Python).collect()),
        vec!["total", "files", "n", "dirs", "100", "sure"]
    );
    assert_eq!(
        texts(&WordPos::new(s, &Language::PythonBrace).collect()),
        vec!["total", "count", "d", "files", "dirs", "100", "sure"]
    );
    assert_eq!(
        texts(&WordPos::new(s, &Language::Null).collect()),
        vec!["total", "count", "d", "files", "n", "dirs", "100", "sure"]
    );
    assert_eq!(CharPos::new("a%sb", &Language::C).collect().len(), 2);
    assert_eq!(CharPos::new("a%sb", &Language::Null).collect().len(), 3);
}

#[test]
fn a_scan_goes_on_after_each_match_and_stays_at_its_end() {
    let mut scan = FormatPos::new("%d é %s", &Language::C);
    assert_eq!(scan.next().map(|m| (m.s, m.start, m.end)), Some(("%d", 0, 2)));
    assert_eq!(scan.next().map(|m| (m.s, m.start, m.end)), Some(("%s", 6, 8)));
    assert!(scan.next().is_none());
    assert!(scan.next().is_none());
    let mut words = WordPos::new("un deux", &Language::Null);
    assert_eq!(words.next().map(|m| m.s), Some("un"));
    assert_eq!(words.collect().len(), 1);
}
