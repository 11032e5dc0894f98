use poexam::checker::Checker;
use poexam::diagnostic::{Diagnostic, Severity};
use poexam::rules::obsolete::ObsoleteRule;
use poexam::rules::rule::{Rule, Rules};

fn check_obsolete(content: &str) -> Vec<Diagnostic> {
    let rules = Rules::new(vec![Rule::Obsolete(ObsoleteRule {})]);
    let mut checker = Checker::new(content.as_bytes(), &rules);
    checker.do_all_checks();
    checker.diagnostics
}

#[test]
fn test_not_obsolete() {
    let diags = check_obsolete(
        r#"
msgid "tested"
msgstr "testé"
"#,
    );
    assert!(diags.is_empty());
}

#[test]
fn test_obsolete_error() {
    let diags = check_obsolete(
        r#"
#~ msgid "tested"
#~ msgstr "testé"
"#,
    );
    assert_eq!(diags.len(), 1);
    let diag = &diags[0];
    assert_eq!(diag.severity, Severity::Info);
    assert_eq!(diag.message, "obsolete entry");
}
