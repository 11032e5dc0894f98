use poexam::checker::Checker;
use poexam::diagnostic::{Diagnostic, Severity};
use poexam::rules::short::ShortRule;
use poexam::rules::rule::{Rule, Rules};

fn check_short(content: &str) -> Vec<Diagnostic> {
    let rules = Rules::new(vec![Rule::Short(ShortRule {})]);
    let mut checker = Checker::new(content.as_bytes(), &rules);
    checker.do_all_checks();
    checker.diagnostics
}

#[test]
fn test_no_short() {
    let diags = check_short(
        r#"
msgid "tested"
msgstr "testé"
"#,
    );
    assert!(diags.is_empty());
}

#[test]
fn test_short_error() {
    let diags = check_short(
        r#"
msgid " ... :"
msgstr " :"

msgid "ok, this is a very long test message"
msgstr "ok"
"#,
    );
    assert_eq!(diags.len(), 2);
    let diag = &diags[0];
    assert_eq!(diag.severity, Severity::Warning);
    assert_eq!(diag.message, "translation too short (5 / 1)");
    let diag = &diags[1];
    assert_eq!(diag.severity, Severity::Warning);
    assert_eq!(diag.message, "translation too short (36 / 2)");
}
