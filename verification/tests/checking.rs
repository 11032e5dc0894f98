use poexam::result::{
    count_severities, display_order, exit_code, is_shown_before, SeverityCounts,
};
use poexam::args::{CheckArgs, CheckOutputFormat, CheckSort, StatsOutputFormat};
use poexam::checker::{not_found_message, read_error, CheckStep, Checker};
use poexam::diagnostic::{Diagnostic, Severity};
use poexam::po::parser::Parser;
use poexam::rules::blank::BlankRule;
use poexam::rules::brackets::{
    get_closing_bracket_pos, get_opening_bracket_pos, is_excluded_end, is_excluded_start,
    BracketsRule,
};
use poexam::rules::c_formats::CFormatsRule;
use poexam::rules::common::{count_message, find_matches, pair_message};
use poexam::rules::encoding::EncodingRule;
use poexam::rules::formats::FormatsRule;
use poexam::rules::fuzzy::FuzzyRule;
use poexam::rules::long::LongRule;
use poexam::rules::obsolete::ObsoleteRule;
use poexam::rules::pipes::PipesRule;
use poexam::rules::spelling::SpellingStrRule;
use poexam::rules::plurals::PluralsRule;
use poexam::rules::punc::PuncEndRule;
use poexam::rules::rule::{
    get_all_rules, get_selected_rules, get_unknown_rules, Rule, RuleChecker, Rules, SelectionError,
};
use poexam::rules::short::ShortRule;
use poexam::rules::tabs::TabsRule;
use poexam::rules::untranslated::UntranslatedRule;
use poexam::stats::{
    compute_total_stats, count_chars, count_words, stats_entries, Counts, Entries, Stats,
};
use poexam::po::format::language::Language;

fn args(select: Option<&str>, ignore: Option<&str>, severity: Vec<Severity>) -> CheckArgs {
    CheckArgs {
        files: Vec::new(),
        show_settings: false,
        fuzzy: false,
        noqa: false,
        obsolete: false,
        select: select.map(String::from),
        ignore: ignore.map(String::from),
        path_dicts: String::from("/usr/share/hunspell"),
        path_words: None,
        lang_id: String::from("en_US"),
        severity,
        no_errors: false,
        sort: CheckSort::Line,
        rule_stats: false,
        file_stats: false,
        output: CheckOutputFormat::Human,
        quiet: false,
    }
}

fn names(rules: &Rules) -> Vec<&'static str> {
    rules.enabled.iter().map(|r| r.name()).collect()
}

fn check(rules: Vec<Rule>, content: &str) -> Vec<Diagnostic> {
    let rules = Rules::new(rules);
    let mut checker = Checker::new(content.as_bytes(), &rules);
    checker.do_all_checks();
    checker.diagnostics
}

#[test]
fn all_rules_come_in_their_order() {
    let all: Vec<&str> = get_all_rules().iter().map(|r| r.name()).collect();
    assert_eq!(
        all,
        vec![
            "blank",
            "brackets",
            "c-formats",
            "changed",
            "double-quotes",
            "double-spaces",
            "encoding",
            "escapes",
            "formats",
            "fuzzy",
            "long",
            "newlines",
            "obsolete",
            "pipes",
            "plurals",
            "punc-end",
            "punc-start",
            "short",
            "spelling-ctxt",
            "spelling-id",
            "spelling-str",
            "tabs",
            "unchanged",
            "untranslated",
            "whitespace-end",
            "whitespace-start",
        ]
    );
}

#[test]
fn default_selection_takes_the_default_rules() {
    let rules = get_selected_rules(&args(None, None, vec![])).unwrap();
    let expected: Vec<&str> = get_all_rules()
        .iter()
        .filter(|r| r.is_default())
        .map(|r| r.name())
        .collect();
    assert_eq!(names(&rules), expected);
    assert!(!names(&rules).contains(&"fuzzy"));
    assert!(!names(&rules).contains(&"spelling-str"));
    assert!(!rules.fuzzy_rule && !rules.obsolete_rule && !rules.untranslated_rule);
    assert!(!rules.spelling_ctxt_rule && !rules.spelling_id_rule && !rules.spelling_str_rule);
}

#[test]
fn selection_by_name_keeps_the_order_of_the_rules() {
    let rules = get_selected_rules(&args(Some(" tabs , blank,fuzzy"), None, vec![])).unwrap();
    assert_eq!(names(&rules), vec!["blank", "fuzzy", "tabs"]);
    assert!(rules.fuzzy_rule);
    let rules = get_selected_rules(&args(Some("all"), None, vec![])).unwrap();
    assert_eq!(rules.enabled.len(), 26);
    assert!(rules.fuzzy_rule && rules.obsolete_rule && rules.untranslated_rule);
    assert!(rules.spelling_ctxt_rule && rules.spelling_id_rule && rules.spelling_str_rule);
    let rules = get_selected_rules(&args(Some("checks,blank"), None, vec![])).unwrap();
    assert_eq!(rules.enabled.len(), 24);
    assert!(!names(&rules).contains(&"fuzzy"));
    assert!(!names(&rules).contains(&"obsolete"));
    assert!(names(&rules).contains(&"untranslated"));
}

#[test]
fn ignored_rules_leave_after_the_selection() {
    let rules = get_selected_rules(&args(Some("all"), Some("blank, tabs"), vec![])).unwrap();
    assert_eq!(rules.enabled.len(), 24);
    assert!(!names(&rules).contains(&"blank"));
    let rules = get_selected_rules(&args(Some("blank"), Some("blank"), vec![])).unwrap();
    assert!(rules.enabled.is_empty());
    // A special name in the list of ignored rules is known, and removes nothing.
    let rules = get_selected_rules(&args(Some("blank"), Some("all"), vec![])).unwrap();
    assert_eq!(names(&rules), vec!["blank"]);
}

#[test]
fn severities_filter_the_rules_before_the_names_are_resolved() {
    let rules = get_selected_rules(&args(None, None, vec![Severity::Warning])).unwrap();
    assert_eq!(names(&rules), vec!["blank", "long", "short"]);
    let rules = get_selected_rules(&args(Some("all"), None, vec![Severity::Error])).unwrap();
    assert_eq!(
        names(&rules),
        vec!["c-formats", "escapes", "formats", "newlines", "plurals", "tabs"]
    );
    // A rule of another severity is not among the rules: its name is unknown.
    let err = get_selected_rules(&args(Some("blank"), None, vec![Severity::Error])).unwrap_err();
    assert_eq!(err, SelectionError::UnknownSelected(vec!["blank".to_string()]));
}

#[test]
fn unknown_names_are_refused_with_their_sorted_list() {
    let err = get_selected_rules(&args(Some("zzz, blank, nope, zzz,all"), None, vec![])).unwrap_err();
    assert_eq!(
        err,
        SelectionError::UnknownSelected(vec!["nope".to_string(), "zzz".to_string()])
    );
    assert_eq!(err.message(), "unknown selected rules: nope, zzz");
    let err = get_selected_rules(&args(None, Some("what"), vec![])).unwrap_err();
    assert_eq!(err, SelectionError::UnknownIgnored(vec!["what".to_string()]));
    assert_eq!(err.message(), "unknown rules to ignore: what");
    // The selection is resolved first.
    let err = get_selected_rules(&args(Some("x"), Some("y"), vec![])).unwrap_err();
    assert_eq!(err, SelectionError::UnknownSelected(vec!["x".to_string()]));
    let err = get_selected_rules(&args(Some(""), None, vec![])).unwrap_err();
    assert_eq!(err, SelectionError::UnknownSelected(vec!["".to_string()]));
}

#[test]
fn special_names_are_never_unknown() {
    let names: Vec<String> = ["checks", "b", "all", "a", "tabs", "b"]
        .iter()
        .map(|s| s.to_string())
        .collect();
    assert_eq!(get_unknown_rules(&names, &vec!["tabs"]), vec!["a", "b"]);
    assert!(get_unknown_rules(&names, &vec!["a", "b", "tabs"]).is_empty());
    assert!(get_unknown_rules(&Vec::new(), &Vec::new()).is_empty());
}

#[test]
fn rules_have_names_defaults_and_severities() {
    let blank = Rule::Blank(BlankRule);
    assert_eq!((blank.name(), blank.is_default(), blank.is_check()), ("blank", true, true));
    assert_eq!(blank.severity(), Severity::Warning);
    let fuzzy = Rule::Fuzzy(FuzzyRule);
    assert_eq!((fuzzy.name(), fuzzy.is_default(), fuzzy.is_check()), ("fuzzy", false, false));
    assert_eq!(fuzzy.severity(), Severity::Info);
    let tabs = Rule::Tabs(TabsRule);
    assert_eq!(tabs.severity(), Severity::Error);
    let rules = Rules::default();
    assert!(rules.enabled.is_empty() && !rules.fuzzy_rule);
}

#[test]
fn checking_twice_gives_the_same_diagnostics() {
    let content = r#"
msgid ""
msgstr "Language: fr\nPlural-Forms: nplurals=2; plural=(n > 1);\n"

#, c-format
msgid "%d file (%s)|"
msgid_plural "%d files (%s)"
msgstr[0] "%2$d fichier [%1$s]	"
msgstr[1] "  "
msgstr[2] "%d fichiers"

msgid "tested."
msgstr "testé !"
"#;
    let rules = get_selected_rules(&args(Some("all"), None, vec![])).unwrap();
    let mut first = Checker::new(content.as_bytes(), &rules).with_path("fr.po");
    first.do_all_checks();
    let mut second = Checker::new(content.as_bytes(), &rules).with_path("fr.po");
    second.do_all_checks();
    assert!(first.diagnostics.len() > 5);
    assert_eq!(first.diagnostics, second.diagnostics);
    // Checking again a catalog that is read to its end reports nothing more.
    let before = first.diagnostics.len();
    first.do_all_checks();
    assert_eq!(first.diagnostics.len(), before);
    assert_eq!(first.check_next(), CheckStep::Done);
}

#[test]
fn diagnostics_come_in_the_order_of_entries_then_rules() {
    let content = "msgid \"a|\"\nmsgstr \"b\t\"\n\nmsgid \"c\t\"\nmsgstr \"d|\"\n";
    let diags = check(vec![Rule::Pipes(PipesRule), Rule::Tabs(TabsRule)], content);
    let found: Vec<(&str, &str, usize)> = diags
        .iter()
        .map(|d| (d.rule, d.message.as_str(), d.lines[0].line_number))
        .collect();
    assert_eq!(
        found,
        vec![
            ("pipes", "missing pipes '|' (1 / 0)", 1),
            ("tabs", "extra tabs '\\t' (0 / 1)", 1),
            ("pipes", "extra pipes '|' (0 / 1)", 4),
            ("tabs", "missing tabs '\\t' (1 / 0)", 4),
        ]
    );
    // The same rule twice reports twice: nothing is removed.
    let diags = check(vec![Rule::Pipes(PipesRule), Rule::Pipes(PipesRule)], content);
    assert_eq!(diags.len(), 4);
    assert_eq!(diags[0], diags[1]);
}

#[test]
fn a_diagnostic_on_strings_has_two_lines() {
    let diags = check(vec![Rule::Pipes(PipesRule)], "\n\nmsgid \"é|a|\"\nmsgstr \"|\"\n");
    assert_eq!(diags.len(), 1);
    let d = &diags[0];
    assert_eq!(d.path, "");
    assert_eq!(d.severity, Severity::Info);
    assert_eq!(d.message, "missing pipes '|' (2 / 1)");
    assert_eq!(d.lines.len(), 2);
    assert_eq!((d.lines[0].line_number, d.lines[0].message.as_str()), (3, "é|a|"));
    assert_eq!(d.lines[0].highlights, vec![(2, 3), (4, 5)]);
    assert_eq!(d.lines[0].char_highlights(), vec![(1, 2), (3, 4)]);
    assert_eq!((d.lines[1].line_number, d.lines[1].message.as_str()), (4, "|"));
    assert_eq!(d.lines[1].highlights, vec![(0, 1)]);
}

#[test]
fn a_diagnostic_on_an_entry_has_the_lines_of_the_entry() {
    let content = "#, fuzzy\nmsgctxt \"c\"\nmsgid \"a\\n\"\nmsgid_plural \"as\"\nmsgstr[0] \"b\"\nmsgstr[1] \"bs\"\n";
    let rules = Rules::new(vec![Rule::Fuzzy(FuzzyRule)]);
    let mut checker = Checker::new(content.as_bytes(), &rules).with_path("x.po");
    checker.do_all_checks();
    let diags = checker.diagnostics;
    assert_eq!(diags.len(), 1);
    assert_eq!(diags[0].message, "fuzzy entry");
    assert_eq!(diags[0].path, "x.po");
    let lines: Vec<(usize, &str)> = diags[0]
        .lines
        .iter()
        .map(|l| (l.line_number, l.message.as_str()))
        .collect();
    assert_eq!(
        lines,
        vec![
            (2, "msgctxt \"c\""),
            (3, "msgid \"a\\n\""),
            (4, "msgid_plural \"as\""),
            (5, "msgstr[0] \"b\""),
            (6, "msgstr[1] \"bs\""),
        ]
    );
}

#[test]
fn entries_are_passed_over_unless_asked_for() {
    let content = "#, fuzzy\nmsgid \"a|\"\nmsgstr \"b\"\n\n#, noqa\nmsgid \"c|\"\nmsgstr \"d\"\n\n#~ msgid \"e|\"\n#~ msgstr \"f\"\n\nmsgid \"g|\"\nmsgstr \"\"\n";
    let count = |rules: Vec<Rule>, fuzzy: bool, noqa: bool, obsolete: bool| {
        let rules = Rules::new(rules);
        let mut checker = Checker::new(content.as_bytes(), &rules)
            .with_check_fuzzy(fuzzy)
            .with_check_noqa(noqa)
            .with_check_obsolete(obsolete);
        checker.do_all_checks();
        checker
            .diagnostics
            .iter()
            .filter(|d| d.rule == "pipes")
            .map(|d| d.lines[0].line_number)
            .collect::<Vec<usize>>()
    };
    let pipes = || Rule::Pipes(PipesRule);
    assert!(count(vec![pipes()], false, false, false).is_empty());
    assert_eq!(count(vec![pipes()], true, false, false), vec![2]);
    assert_eq!(count(vec![pipes()], false, true, false), vec![6]);
    assert_eq!(count(vec![pipes()], false, false, true), vec![9]);
    assert_eq!(count(vec![pipes()], true, true, true), vec![2, 6, 9]);
    // A rule that reports fuzzy or obsolete entries lets them be checked by all rules.
    assert_eq!(count(vec![pipes(), Rule::Fuzzy(FuzzyRule)], false, false, false), vec![2]);
    assert_eq!(count(vec![pipes(), Rule::Obsolete(ObsoleteRule)], false, false, false), vec![9]);
    // The rule on untranslated entries lets them be read, but other rules do not check
    // an empty translation.
    assert!(count(vec![pipes(), Rule::Untranslated(UntranslatedRule)], false, false, false).is_empty());
    let diags = check(vec![Rule::Pipes(PipesRule), Rule::Untranslated(UntranslatedRule)], content);
    assert_eq!(diags.len(), 1);
    assert_eq!((diags[0].rule, diags[0].lines[0].line_number), ("untranslated", 12));
}

#[test]
fn an_entry_suppresses_the_rules_that_it_names() {
    let content = "#, noqa:pipes;nothing\nmsgid \"a|\t\"\nmsgstr \"b\"\n";
    let diags = check(vec![Rule::Pipes(PipesRule), Rule::Tabs(TabsRule)], content);
    assert_eq!(diags.len(), 1);
    assert_eq!(diags[0].rule, "tabs");
}

#[test]
fn plural_translations_are_checked_against_the_plural_source() {
    let content = "msgid \"one|\"\nmsgid_plural \"many\"\nmsgstr[0] \"un|\"\nmsgstr[1] \"deux|\"\nmsgstr[2] \"\"\nmsgstr[3] \"|trois|\"\n";
    let diags = check(vec![Rule::Pipes(PipesRule)], content);
    let found: Vec<(&str, usize, usize)> = diags
        .iter()
        .map(|d| (d.message.as_str(), d.lines[0].line_number, d.lines[1].line_number))
        .collect();
    assert_eq!(
        found,
        vec![("extra pipes '|' (0 / 1)", 2, 4), ("extra pipes '|' (0 / 2)", 2, 6)]
    );
    assert_eq!(diags[0].lines[0].message, "many");
    let diags = check(vec![Rule::Untranslated(UntranslatedRule)], content);
    assert_eq!(diags.len(), 1);
    assert_eq!(diags[0].lines.len(), 2);
    assert_eq!(diags[0].lines[1].line_number, 5);
}

#[test]
fn the_first_translation_is_checked_against_msgid_only_with_both() {
    assert!(check(vec![Rule::Pipes(PipesRule)], "msgstr \"|\"\n").is_empty());
    assert!(check(vec![Rule::Pipes(PipesRule)], "msgid \"|\"\nmsgstr[1] \"x\"\n").is_empty());
    assert_eq!(check(vec![Rule::Pipes(PipesRule)], "msgid \"|\"\nmsgstr[0] \"x\"\n").len(), 1);
}

#[test]
fn the_header_entry_is_not_checked() {
    let content = "msgid \"\"\nmsgstr \"Language: fr|\\n\"\n\nmsgid \"a\"\nmsgstr \"b|\"\n";
    let diags = check(vec![Rule::Pipes(PipesRule)], content);
    assert_eq!(diags.len(), 1);
    assert_eq!(diags[0].lines[0].line_number, 4);
}

#[test]
fn plural_forms_are_counted_against_the_header() {
    let head = "msgid \"\"\nmsgstr \"Plural-Forms: nplurals=2; plural=(n > 1);\\n\"\n\n";
    let one = format!("{head}msgid \"a\"\nmsgid_plural \"as\"\nmsgstr[0] \"b\"\n");
    let diags = check(vec![Rule::Plurals(PluralsRule)], &one);
    assert_eq!(diags.len(), 1);
    assert_eq!(diags[0].message, "missing translated plural form (found: 1, expected: 2)");
    assert_eq!(diags[0].severity, Severity::Error);
    let three = format!("{head}msgid \"a\"\nmsgid_plural \"as\"\nmsgstr[0] \"b\"\nmsgstr[1] \"c\"\nmsgstr[2] \"d\"\n");
    let diags = check(vec![Rule::Plurals(PluralsRule)], &three);
    assert_eq!(diags[0].message, "extra translated plural form (found: 3, expected: 2)");
    let two = format!("{head}msgid \"a\"\nmsgid_plural \"as\"\nmsgstr[0] \"b\"\nmsgstr[1] \"c\"\n");
    assert!(check(vec![Rule::Plurals(PluralsRule)], &two).is_empty());
    // Without a number of plural forms in the header, nothing is checked.
    assert!(check(vec![Rule::Plurals(PluralsRule)], "msgid \"a\"\nmsgid_plural \"as\"\nmsgstr[0] \"b\"\n").is_empty());
}

#[test]
fn lengths_are_compared_at_ten_times() {
    let long = |id: &str, tr: &str| {
        check(vec![Rule::Long(LongRule)], &format!("msgid \"{id}\"\nmsgstr \"{tr}\"\n"))
    };
    let short = |id: &str, tr: &str| {
        check(vec![Rule::Short(ShortRule)], &format!("msgid \"{id}\"\nmsgstr \"{tr}\"\n"))
    };
    assert!(long("ab", "1234567890123456789").is_empty());
    let diags = long("ab", "12345678901234567890");
    assert_eq!(diags[0].message, "translation too long (2 / 20)");
    assert_eq!(long("a", "bc")[0].message, "translation too long (1 / 2)");
    assert!(long("a", "b").is_empty());
    assert_eq!(long(" é ", " éééééééééé ")[0].message, "translation too long (1 / 10)");
    assert!(short("1234567890123456789", "ab").is_empty());
    assert_eq!(short("12345678901234567890", "ab")[0].message, "translation too short (20 / 2)");
    assert_eq!(short("ab", "c")[0].message, "translation too short (2 / 1)");
    assert!(short("a", " ").is_empty());
}

#[test]
fn messages_with_counts_and_quotes_are_written() {
    assert_eq!(count_message("missing x".to_string(), 12, 0), "missing x (12 / 0)");
    assert_eq!(pair_message("inconsistent y", " ", "\t"), "inconsistent y (' ' / '\t')");
    assert_eq!(find_matches(b"a  b   c    d", b"  "), vec![(1, 3), (4, 6), (8, 10), (10, 12)]);
    assert!(find_matches(b"abc", b"").is_empty());
    assert!(find_matches(b"a", b"ab").is_empty());
}

#[test]
fn brackets_in_optional_plurals_do_not_count() {
    assert_eq!(get_opening_bracket_pos("a(s) (b) (S)(", b'('), vec![(5, 6), (12, 13)]);
    assert_eq!(get_closing_bracket_pos("a(s) (b) (S))", b')'), vec![(7, 8), (12, 13)]);
    assert_eq!(get_opening_bracket_pos("[s] [", b'['), vec![(0, 1), (4, 5)]);
    assert!(is_excluded_start("(s)", 0, b'('));
    assert!(!is_excluded_start("(s", 0, b'('));
    assert!(!is_excluded_start("(s)", 0, b'['));
    assert!(is_excluded_end("(S)", 2, b')'));
    assert!(!is_excluded_end("s)", 1, b')'));
    assert!(!is_excluded_end("(s)", 9, b')'));
    // Extra round brackets in the translation are accepted; extra square ones are not.
    assert!(check(vec![Rule::Brackets(BracketsRule)], "msgid \"top\"\nmsgstr \"top (haut)\"\n").is_empty());
    let diags = check(vec![Rule::Brackets(BracketsRule)], "msgid \"top\"\nmsgstr \"[top]\"\n");
    assert_eq!(diags.len(), 1);
    assert_eq!(
        diags[0].message,
        "extra opening and closing square brackets '[' (0 / 1) and ']' (0 / 1)"
    );
    assert_eq!(diags[0].lines[1].highlights, vec![(0, 1), (4, 5)]);
}

#[test]
fn both_format_rules_report_a_changed_placeholder() {
    let content = "#, c-format\nmsgid \"%d test (%s)\"\nmsgstr \"%2$d test (%1$s)\"\n";
    let diags = check(vec![Rule::CFormats(CFormatsRule), Rule::Formats(FormatsRule)], content);
    let found: Vec<(&str, &str, Severity)> = diags
        .iter()
        .map(|d| (d.rule, d.message.as_str(), d.severity))
        .collect();
    assert_eq!(
        found,
        vec![
            ("c-formats", "inconsistent C format strings", Severity::Error),
            ("formats", "inconsistent format strings (C)", Severity::Error),
        ]
    );
    assert_eq!(diags[0].lines[0].highlights, vec![(0, 2), (9, 11)]);
    assert_eq!(diags[0].lines[1].highlights, vec![(0, 4), (11, 15)]);
    // The same placeholders in another order, with their indexes, are accepted.
    let content = "#, c-format\nmsgid \"%d test (%s)\"\nmsgstr \"(%2$s) test %1$d\"\n";
    assert!(check(vec![Rule::CFormats(CFormatsRule), Rule::Formats(FormatsRule)], content).is_empty());
    // Without the format language, nothing is compared.
    let content = "msgid \"%d\"\nmsgstr \"%s\"\n";
    assert!(check(vec![Rule::CFormats(CFormatsRule), Rule::Formats(FormatsRule)], content).is_empty());
}

#[test]
fn the_encoding_rule_names_the_encoding_of_the_catalog() {
    let mut content = b"msgid \"\"\nmsgstr \"Content-Type: text/plain; charset=shift_jis\\n\"\n\nmsgid \"a\"\nmsgstr \"".to_vec();
    content.extend_from_slice(&[0x81, 0x20]);
    content.extend_from_slice(b"\"\n");
    let rules = Rules::new(vec![Rule::Encoding(EncodingRule)]);
    let mut checker = Checker::new(&content, &rules);
    checker.do_all_checks();
    assert_eq!(checker.encoding_name(), "Shift_JIS");
    assert_eq!(checker.diagnostics.len(), 1);
    assert_eq!(checker.diagnostics[0].message, "invalid characters for encoding Shift_JIS");
}

#[test]
fn greek_question_marks_are_compared_as_semicolons() {
    let content = |lang: &str| {
        format!("msgid \"\"\nmsgstr \"Language: {lang}\\n\"\n\nmsgid \"done?\"\nmsgstr \"ok;\"\n")
    };
    assert!(check(vec![Rule::PuncEnd(PuncEndRule)], &content("el_GR")).is_empty());
    let diags = check(vec![Rule::PuncEnd(PuncEndRule)], &content("fr"));
    assert_eq!(diags.len(), 1);
    assert_eq!(diags[0].message, "inconsistent trailing punctuation ('?' / ';')");
    assert_eq!(diags[0].lines[0].highlights, vec![(4, 5)]);
}

#[test]
fn the_checker_gives_what_the_header_said() {
    let content = "msgid \"\"\nmsgstr \"Language: pt_BR\\nPlural-Forms: nplurals=2;\\n\"\n";
    let rules = Rules::default();
    let mut checker = Checker::new(content.as_bytes(), &rules)
        .with_path_dicts("/dicts")
        .with_path_words(Some(&"/words".to_string()));
    assert_eq!(checker.check_next(), CheckStep::Checked);
    assert_eq!(checker.check_next(), CheckStep::Done);
    assert_eq!(checker.language(), "pt_BR");
    assert_eq!(checker.language_code(), "pt");
    assert_eq!(checker.country(), "BR");
    assert_eq!(checker.nplurals(), 2);
    assert_eq!(checker.encoding_name(), "UTF-8");
    assert_eq!(checker.path_dicts(), "/dicts");
    assert_eq!(checker.words_path(), Some("/words"));
    assert!(checker.source_dictionary().is_none());
    assert!(checker.translation_dictionary().is_none());
    assert!(checker.misspelled_words().is_empty());
    assert_eq!(
        checker.missing_dictionary_reason(),
        "dictionary not found for language 'pt_BR' (path: /dicts), spelling rule ignored"
    );
    checker.report_file("read-error", Severity::Error, "could not open file".to_string());
    assert_eq!(checker.diagnostics.len(), 1);
    assert!(checker.diagnostics[0].lines.is_empty());
}

#[test]
fn statistics_count_entries_words_and_characters() {
    let content = b"msgid \"\"\nmsgstr \"Language: fr\\n\"\n\nmsgid \"two words\"\nmsgstr \"deux mots ici\"\n\n#, fuzzy, c-format\nmsgid \"%d file\"\nmsgstr \"%d fichier\"\n\n#~ msgid \"old\"\n#~ msgstr \"vieux\"\n\nmsgid \"new\"\nmsgstr \"\"\n";
    let mut parser = Parser::new(content);
    let entries = parser.collect();
    let stats = stats_entries(&entries, true);
    assert_eq!(
        stats.entries,
        Entries { total: 4, translated: 1, fuzzy: 1, untranslated: 1, obsolete: 1 }
    );
    assert_eq!(
        stats.words,
        Counts {
            id_total: 5,
            id_translated: 2,
            id_fuzzy: 1,
            id_untranslated: 1,
            id_obsolete: 1,
            str_translated: 3,
            str_fuzzy: 1,
            str_untranslated: 0,
            str_obsolete: 1,
        }
    );
    assert_eq!(stats.chars.id_total, 8 + 4 + 3 + 3);
    assert_eq!(stats.chars.str_translated, 11);
    assert_eq!(stats.entries.pct(), (25, 25, 25, 25));
    assert_eq!(stats.entries.ratio_translated(), 250_000);
    assert_eq!(stats.words.pct_id_translated(), 40);
    assert_eq!(stats.words.pct_id_fuzzy(), 20);
    let without = stats_entries(&entries, false);
    assert_eq!(without.entries, stats.entries);
    assert_eq!(without.words, Counts::default());
    let total = compute_total_stats(&vec![stats, without, stats]);
    assert_eq!(total.entries.total, 12);
    assert_eq!(total.entries.fuzzy, 3);
    assert_eq!(total.words.id_total, 10);
    assert_eq!(total.chars.str_translated, 22);
    assert_eq!(compute_total_stats(&Vec::new()), Stats::default());
}

#[test]
fn shares_are_rounded_down_and_zero_without_a_total() {
    let e = Entries { total: 3, translated: 1, fuzzy: 2, untranslated: 0, obsolete: 0 };
    assert_eq!(e.pct_translated(), 33);
    assert_eq!(e.pct_fuzzy(), 66);
    assert_eq!(e.ratio_fuzzy(), 666_666);
    assert_eq!(e.pct_untranslated(), 0);
    assert_eq!(e.ratio_obsolete(), 0);
    assert_eq!(Entries::default().pct(), (0, 0, 0, 0));
    assert_eq!(Entries::default().ratio_untranslated(), 0);
    let big = Entries { total: u64::MAX, translated: u64::MAX, ..Default::default() };
    assert_eq!(big.pct_translated(), 100);
    let mut sum = e;
    sum.add_assign(big);
    assert_eq!(sum.total, u64::MAX);
    assert_eq!(sum.fuzzy, 2);
    let mut c = Counts { id_total: 4, id_obsolete: 1, id_untranslated: 3, ..Default::default() };
    assert_eq!(c.pct_id_obsolete(), 25);
    assert_eq!(c.pct_id_untranslated(), 75);
    c.add_assign(Counts { id_total: 6, str_fuzzy: 2, ..Default::default() });
    assert_eq!((c.id_total, c.str_fuzzy), (10, 2));
    assert_eq!(count_words("a %s b-c", &Language::C), 2);
    assert_eq!(count_chars("a %s b-c", &Language::C), 4);
    assert_eq!(CheckOutputFormat::Misspelled.name(), "misspelled");
    assert_eq!(CheckOutputFormat::Json.name(), "json");
    assert_eq!(CheckOutputFormat::Human.name(), "human");
    assert_eq!(StatsOutputFormat::Human.name(), "human");
    assert_eq!(StatsOutputFormat::Json.name(), "json");
}

#[test]
fn diagnostics_are_shown_in_the_order_that_is_asked() {
    let diag = |path: &str, rule: &'static str, severity: Severity, lines: &[(usize, &str)]| {
        let mut d = Diagnostic::new(path, rule, severity, "m".to_string());
        for (n, text) in lines {
            d.add_message(*n, text, &[]);
        }
        d
    };
    let list = vec![
        diag("b.po", "tabs", Severity::Error, &[(7, "x"), (8, "y")]),
        diag("a.po", "pipes", Severity::Info, &[(7, "z")]),
        diag("a.po", "blank", Severity::Warning, &[(2, "z"), (3, "  ")]),
        diag("a.po", "tabs", Severity::Error, &[(2, "a")]),
        diag("a.po", "read-error", Severity::Error, &[]),
        diag("a.po", "pipes", Severity::Info, &[(7, "z")]),
    ];
    let refs: Vec<&Diagnostic> = list.iter().collect();
    assert_eq!(display_order(&refs, CheckSort::Line), vec![4, 3, 2, 1, 5, 0]);
    assert_eq!(display_order(&refs, CheckSort::Rule), vec![2, 1, 5, 4, 3, 0]);
    assert_eq!(display_order(&refs, CheckSort::Message), vec![4, 3, 0, 2, 1, 5]);
    assert_eq!(display_order(&Vec::new(), CheckSort::Line), Vec::<usize>::new());
    assert!(is_shown_before(CheckSort::Line, refs[3], refs[2]));
    assert!(!is_shown_before(CheckSort::Line, refs[1], refs[5]));
    assert!(!is_shown_before(CheckSort::Line, refs[5], refs[1]));
    assert_eq!(
        count_severities(&refs),
        SeverityCounts { info: 2, warnings: 1, errors: 3 }
    );
    assert_eq!(count_severities(&Vec::new()), SeverityCounts::default());
    assert_eq!(exit_code(0), 0);
    assert_eq!(exit_code(1), 1);
    assert_eq!(exit_code(usize::MAX), 1);
}

#[test]
fn a_file_that_cannot_be_read_gives_one_error_without_lines() {
    let d = read_error("dir/fr.po", "could not open file".to_string());
    assert_eq!(d.path, "dir/fr.po");
    assert_eq!(d.rule, "read-error");
    assert_eq!(d.severity, Severity::Error);
    assert_eq!(d.message, "could not open file");
    assert!(d.lines.is_empty());
}

#[test]
fn a_missing_dictionary_is_named_with_its_language_and_path() {
    assert_eq!(
        not_found_message("pt_BR", "/usr/share/hunspell"),
        "dictionary not found for language 'pt_BR' (path: /usr/share/hunspell), \
         spelling rule ignored"
    );
    assert_eq!(
        not_found_message("", ""),
        "dictionary not found for language '' (path: ), spelling rule ignored"
    );
    let rules = Rules::new(vec![Rule::SpellingStr(SpellingStrRule)]);
    let content = "msgid \"\"\nmsgstr \"Language: fr\\n\"\n";
    let mut checker = Checker::new(content.as_bytes(), &rules).with_path_dicts("dicts");
    assert_eq!(checker.check_next(), CheckStep::NeedDictionary);
    assert_eq!(checker.missing_dictionary_reason(), not_found_message("fr", "dicts"));
}
