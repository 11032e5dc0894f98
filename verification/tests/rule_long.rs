use poexam::checker::Checker;
use poexam::diagnostic::{Diagnostic, Severity};
use poexam::rules::long::LongRule;
use poexam::rules::rule::{Rule, Rules};

fn check_long(content: &str) -> Vec<Diagnostic> {
    let rules = Rules::new(vec![Rule::Long(LongRule {})]);
    let mut checker = Checker::new(content.as_bytes(), &rules);
    checker.do_all_checks();
    checker.diagnostics
}

#[test]
fn test_no_long() {
    let diags = check_long(
        r#"
msgid "tested"
msgstr "testé"
"#,
    );
    assert!(diags.is_empty());
}

#[test]
fn test_long_error() {
    let diags = check_long(
        r#"
msgid " :"
msgstr " ... :"

msgid "ok"
msgstr "ok, ceci est une traduction trop longue pour test"
"#,
    );
    assert_eq!(diags.len(), 2);
    let diag = &diags[0];
    assert_eq!(diag.severity, Severity::Warning);
    assert_eq!(diag.message, "translation too long (1 / 5)");
    let diag = &diags[1];
    assert_eq!(diag.severity, Severity::Warning);
    assert_eq!(diag.message, "translation too long (2 / 49)");
}
