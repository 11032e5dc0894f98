use poexam::checker::Checker;
use poexam::diagnostic::{Diagnostic, Severity};
use poexam::rules::double_spaces::DoubleSpacesRule;
use poexam::rules::rule::{Rule, Rules};

fn check_double_spaces(content: &str) -> Vec<Diagnostic> {
    let rules = Rules::new(vec![Rule::DoubleSpaces(DoubleSpacesRule {})]);
    let mut checker = Checker::new(content.as_bytes(), &rules);
    checker.do_all_checks();
    checker.diagnostics
}

#[test]
fn test_no_double_spaces() {
    let diags = check_double_spaces(
        r#"
msgid "tested"
msgstr "testé"
"#,
    );
    assert!(diags.is_empty());
}

#[test]
fn test_double_spaces_ok() {
    let diags = check_double_spaces(
        r#"
msgid "this  is  a  test"
msgstr "ceci  est  un  test"
"#,
    );
    // Note: leading and trailing and double spaces are ignored here
    // (such errors are reported in the "whitespace" checks).
    assert!(diags.is_empty());
}

#[test]
fn test_double_spaces_error() {
    let diags = check_double_spaces(
        r#"
msgid "this is a  test"
msgstr "ceci est un test"

msgid "this is a test"
msgstr "ceci est un  test"
"#,
    );
    assert_eq!(diags.len(), 2);
    let diag = &diags[0];
    assert_eq!(diag.severity, Severity::Info);
    assert_eq!(diag.message, "missing double spaces '  ' (1 / 0)");
    let diag = &diags[1];
    assert_eq!(diag.severity, Severity::Info);
    assert_eq!(diag.message, "extra double spaces '  ' (0 / 1)");
}
