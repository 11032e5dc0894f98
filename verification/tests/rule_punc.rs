use poexam::checker::Checker;
use poexam::diagnostic::{Diagnostic, Severity};
use poexam::rules::punc::{get_punc_end, get_punc_start, is_punc, punc_normalize, PuncEndRule, PuncStartRule};
use poexam::rules::rule::{Rule, Rules};

fn check_punc_start(content: &str) -> Vec<Diagnostic> {
    let rules = Rules::new(vec![Rule::PuncStart(PuncStartRule {})]);
    let mut checker = Checker::new(content.as_bytes(), &rules);
    checker.do_all_checks();
    checker.diagnostics
}

fn check_punc_end(content: &str) -> Vec<Diagnostic> {
    let rules = Rules::new(vec![Rule::PuncEnd(PuncEndRule {})]);
    let mut checker = Checker::new(content.as_bytes(), &rules);
    checker.do_all_checks();
    checker.diagnostics
}

#[test]
fn test_is_punc() {
    // Characters that should be recognized as punctuation
    let punc_chars = [':', ';', '.', ',', '!', '?'];
    for &c in &punc_chars {
        assert!(is_punc(c), "{c} should be punctuation");
    }
    // Characters that should not be recognized as punctuation
    let non_punc_chars = [
        'a', 'Z', ' ', '-', '\'', '"', '0', 'é', '(', ')', '\r', '\n',
    ];
    for &c in &non_punc_chars {
        assert!(!is_punc(c), "{c} should not be punctuation");
    }
}

#[test]
fn test_get_punc_start() {
    assert_eq!(get_punc_start(""), "");
    assert_eq!(get_punc_start("test"), "");
    assert_eq!(get_punc_start(", test"), ",");
    assert_eq!(get_punc_start("...test"), "...");
    assert_eq!(get_punc_start("…test"), "…");
    assert_eq!(get_punc_start("テスト済み"), "");
    assert_eq!(get_punc_start("。テスト済み"), "。");
    assert_eq!(get_punc_start("。。。テスト済み"), "。。。");
}

#[test]
fn test_get_punc_end() {
    assert_eq!(get_punc_end(""), "");
    assert_eq!(get_punc_end("test"), "");
    assert_eq!(get_punc_end("test, "), ", ");
    assert_eq!(get_punc_end("test..."), "...");
    assert_eq!(get_punc_end("test…"), "…");
    assert_eq!(get_punc_end("テスト済み"), "");
    assert_eq!(get_punc_end("テスト済み。"), "。");
    assert_eq!(get_punc_end("テスト済み。。。"), "。。。");
}

#[test]
fn test_punc_normalize() {
    assert_eq!(punc_normalize("", "fr"), "");
    assert_eq!(punc_normalize("test", "fr"), "test");
    assert_eq!(
        punc_normalize("。，！？\u{061F}：；\u{061B}。。。", "zh"),
        ".,!??:;;…"
    );
    assert_eq!(punc_normalize("?", "fr"), "?");
    // Special case for Greek question mark.
    assert_eq!(punc_normalize("?", "el"), ";");
}

#[test]
fn test_no_punc() {
    let diags = check_punc_start(
        r#"
msgid "tested"
msgstr "testé"
"#,
    );
    assert!(diags.is_empty());
    let diags = check_punc_end(
        r#"
msgid "tested"
msgstr "testé"
"#,
    );
    assert!(diags.is_empty());
}

#[test]
fn test_punc_ok() {
    let diags = check_punc_end(
        r#"
msgid "tested, ..."
msgstr "testé…"
"#,
    );
    assert!(diags.is_empty());
    let diags = check_punc_start(
        r#"
msgid "tested."
msgstr "テスト済み。"
"#,
    );
    assert!(diags.is_empty());
    let diags = check_punc_end(
        r#"
msgid "tested."
msgstr "テスト済み。"
"#,
    );
    assert!(diags.is_empty());
    let diags = check_punc_end(
        r#"
msgid "tested,"
msgstr "テスト済み，"
"#,
    );
    assert!(diags.is_empty());
}

#[test]
fn test_punc_error() {
    let diags = check_punc_start(
        r#"
msgid ":tested!"
msgstr ",testé !!!"
"#,
    );
    assert_eq!(diags.len(), 1);
    let diag = &diags[0];
    assert_eq!(diag.severity, Severity::Info);
    assert_eq!(diag.message, "inconsistent leading punctuation (':' / ',')");
    let diags = check_punc_end(
        r#"
msgid ":tested!"
msgstr ",testé !!!"
"#,
    );
    assert_eq!(diags.len(), 1);
    let diag = &diags[0];
    assert_eq!(diag.severity, Severity::Info);
    assert_eq!(
        diag.message,
        "inconsistent trailing punctuation ('!' / '!!!')"
    );
}
