use poexam::checker::Checker;
use poexam::diagnostic::{Diagnostic, Severity};
use poexam::rules::fuzzy::FuzzyRule;
use poexam::rules::rule::{Rule, Rules};

fn check_fuzzy(content: &str) -> Vec<Diagnostic> {
    let rules = Rules::new(vec![Rule::Fuzzy(FuzzyRule {})]);
    let mut checker = Checker::new(content.as_bytes(), &rules);
    checker.do_all_checks();
    checker.diagnostics
}

#[test]
fn fuzzy_test_not_fuzzy() {
    let diags = check_fuzzy(
        r#"
msgid "tested"
msgstr "testé"
"#,
    );
    assert!(diags.is_empty());
}

#[test]
fn fuzzy_test_fuzzy_error() {
    let diags = check_fuzzy(
        r#"
#, fuzzy
msgid "tested"
msgstr "mauvaise traduction"
"#,
    );
    assert_eq!(diags.len(), 1);
    let diag = &diags[0];
    assert_eq!(diag.severity, Severity::Info);
    assert_eq!(diag.message, "fuzzy entry");
}
