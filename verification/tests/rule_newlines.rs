use poexam::checker::Checker;
use poexam::diagnostic::{Diagnostic, Severity};
use poexam::rules::newlines::NewlinesRule;
use poexam::rules::rule::{Rule, Rules};

fn check_newlines(content: &str) -> Vec<Diagnostic> {
    let rules = Rules::new(vec![Rule::Newlines(NewlinesRule {})]);
    let mut checker = Checker::new(content.as_bytes(), &rules);
    checker.do_all_checks();
    checker.diagnostics
}

#[test]
fn test_no_newlines() {
    let diags = check_newlines(
        r#"
msgid "tested"
msgstr "testé"
"#,
    );
    assert!(diags.is_empty());
}

#[test]
fn test_newlines_ok() {
    let diags = check_newlines(
        r#"
msgid "\ntested\nline 2\n"
msgstr "\ntesté\nligne 2\n"
"#,
    );
    assert!(diags.is_empty());
}

#[test]
fn test_newlines_count_error() {
    let diags = check_newlines(
        r#"
msgid "tested\rline 2"
msgstr "testé ligne 2"

msgid "tested line 2"
msgstr "testé\rligne 2"

msgid "tested\nline 2"
msgstr "testé ligne 2"

msgid "testedline 2"
msgstr "testé\nligne 2"
"#,
    );
    assert_eq!(diags.len(), 4);
    let diag = &diags[0];
    assert_eq!(diag.severity, Severity::Error);
    assert_eq!(diag.message, "missing carriage returns '\\r' (1 / 0)");
    let diag = &diags[1];
    assert_eq!(diag.severity, Severity::Error);
    assert_eq!(diag.message, "extra carriage returns '\\r' (0 / 1)");
    let diag = &diags[2];
    assert_eq!(diag.severity, Severity::Error);
    assert_eq!(diag.message, "missing line feeds '\\n' (1 / 0)");
    let diag = &diags[3];
    assert_eq!(diag.severity, Severity::Error);
    assert_eq!(diag.message, "extra line feeds '\\n' (0 / 1)");
}

#[test]
fn test_newlines_beginning_error() {
    let diags = check_newlines(
        r#"
msgid "\rtested"
msgstr "testé\rligne 2"

msgid "\ntested"
msgstr "testé\nligne 2"

msgid "tested\rline 2"
msgstr "\rtesté"

msgid "tested\nline 2"
msgstr "\ntesté"
"#,
    );
    assert_eq!(diags.len(), 4);
    let diag = &diags[0];
    assert_eq!(diag.severity, Severity::Error);
    assert_eq!(
        diag.message,
        "missing carriage return '\\r' at the beginning"
    );
    let diag = &diags[1];
    assert_eq!(diag.severity, Severity::Error);
    assert_eq!(diag.message, "missing line feed '\\n' at the beginning");
    let diag = &diags[2];
    assert_eq!(diag.severity, Severity::Error);
    assert_eq!(diag.message, "extra carriage return '\\r' at the beginning");
    let diag = &diags[3];
    assert_eq!(diag.severity, Severity::Error);
    assert_eq!(diag.message, "extra line feed '\\n' at the beginning");
}

#[test]
fn test_newlines_end_error() {
    let diags = check_newlines(
        r#"
msgid "tested\r"
msgstr "testé\rligne 2"

msgid "tested\n"
msgstr "testé\nligne 2"

msgid "tested\rline 2"
msgstr "testé\r"

msgid "tested\nline 2"
msgstr "testé\n"
"#,
    );
    assert_eq!(diags.len(), 4);
    let diag = &diags[0];
    assert_eq!(diag.severity, Severity::Error);
    assert_eq!(diag.message, "missing carriage return '\\r' at the end");
    let diag = &diags[1];
    assert_eq!(diag.severity, Severity::Error);
    assert_eq!(diag.message, "missing line feed '\\n' at the end");
    let diag = &diags[2];
    assert_eq!(diag.severity, Severity::Error);
    assert_eq!(diag.message, "extra carriage return '\\r' at the end");
    let diag = &diags[3];
    assert_eq!(diag.severity, Severity::Error);
    assert_eq!(diag.message, "extra line feed '\\n' at the end");
}
