use poexam::checker::Checker;
use poexam::diagnostic::{Diagnostic, Severity};
use poexam::rules::changed::ChangedRule;
use poexam::rules::rule::{Rule, Rules};

fn check_changed(content: &str) -> Vec<Diagnostic> {
    let rules = Rules::new(vec![Rule::Changed(ChangedRule {})]);
    let mut checker = Checker::new(content.as_bytes(), &rules);
    checker.do_all_checks();
    checker.diagnostics
}

#[test]
fn changed_test_not_translated() {
    let diags = check_changed(
        r#"
msgid "tested"
msgstr ""
"#,
    );
    assert!(diags.is_empty());
}

#[test]
fn test_unchanged() {
    let diags = check_changed(
        r#"
msgid "tested"
msgstr "tested"
"#,
    );
    assert!(diags.is_empty());
}

#[test]
fn test_changed_error() {
    let diags = check_changed(
        r#"
msgid "this is a test (example"
msgstr "this is a test (example)"
"#,
    );
    assert_eq!(diags.len(), 1);
    let diag = &diags[0];
    assert_eq!(diag.severity, Severity::Info);
    assert_eq!(diag.message, "changed translation");
}
