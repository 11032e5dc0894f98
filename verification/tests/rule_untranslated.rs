use poexam::checker::Checker;
use poexam::diagnostic::{Diagnostic, Severity};
use poexam::rules::untranslated::UntranslatedRule;
use poexam::rules::rule::{Rule, Rules};

fn check_untranslated(content: &str) -> Vec<Diagnostic> {
    let rules = Rules::new(vec![Rule::Untranslated(UntranslatedRule {})]);
    let mut checker = Checker::new(content.as_bytes(), &rules);
    checker.do_all_checks();
    checker.diagnostics
}

#[test]
fn untranslated_test_not_fuzzy() {
    let diags = check_untranslated(
        r#"
msgid "tested"
msgstr "testé"
"#,
    );
    assert!(diags.is_empty());
}

#[test]
fn untranslated_test_fuzzy_error() {
    let diags = check_untranslated(
        r#"
msgid "tested"
msgstr ""
"#,
    );
    assert_eq!(diags.len(), 1);
    let diag = &diags[0];
    assert_eq!(diag.severity, Severity::Info);
    assert_eq!(diag.message, "untranslated message");
}
