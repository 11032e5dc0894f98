use poexam::checker::Checker;
use poexam::diagnostic::{Diagnostic, Severity};
use poexam::rules::unchanged::UnchangedRule;
use poexam::rules::rule::{Rule, Rules};

fn check_blank(content: &str) -> Vec<Diagnostic> {
    let rules = Rules::new(vec![Rule::Unchanged(UnchangedRule {})]);
    let mut checker = Checker::new(content.as_bytes(), &rules);
    checker.do_all_checks();
    checker.diagnostics
}

#[test]
fn unchanged_test_not_translated() {
    let diags = check_blank(
        r#"
msgid "tested"
msgstr ""
"#,
    );
    assert!(diags.is_empty());
}

#[test]
fn test_changed() {
    let diags = check_blank(
        r#"
msgid "tested"
msgstr "testé"
"#,
    );
    assert!(diags.is_empty());
}

#[test]
fn test_unchanged_but_ok() {
    // Unchanged but considered ok (only one word).
    let diags = check_blank(
        r#"
msgid "ACRONYM"
msgstr "ACRONYM"
"#,
    );
    assert!(diags.is_empty());
}

#[test]
fn test_unchanged_error() {
    let diags = check_blank(
        r#"
msgid "this is a test"
msgstr "this is a test"
"#,
    );
    assert_eq!(diags.len(), 1);
    let diag = &diags[0];
    assert_eq!(diag.severity, Severity::Info);
    assert_eq!(diag.message, "unchanged translation");
}
