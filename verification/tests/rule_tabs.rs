use poexam::checker::Checker;
use poexam::diagnostic::{Diagnostic, Severity};
use poexam::rules::tabs::TabsRule;
use poexam::rules::rule::{Rule, Rules};

fn check_tabs(content: &str) -> Vec<Diagnostic> {
    let rules = Rules::new(vec![Rule::Tabs(TabsRule {})]);
    let mut checker = Checker::new(content.as_bytes(), &rules);
    checker.do_all_checks();
    checker.diagnostics
}

#[test]
fn test_no_tabs() {
    let diags = check_tabs(
        r#"
msgid "tested"
msgstr "testé"
"#,
    );
    assert!(diags.is_empty());
}

#[test]
fn test_tabs_ok() {
    let diags = check_tabs(
        r#"
msgid "\ttested\tline 2\t"
msgstr "\ttesté\tligne 2\t"
"#,
    );
    assert!(diags.is_empty());
}

#[test]
fn test_tabs_error() {
    let diags = check_tabs(
        r#"
msgid "tested\tline 2"
msgstr "testé ligne 2"

msgid "tested line 2"
msgstr "testé\tligne 2"
"#,
    );
    assert_eq!(diags.len(), 2);
    let diag = &diags[0];
    assert_eq!(diag.severity, Severity::Error);
    assert_eq!(diag.message, "missing tabs '\\t' (1 / 0)");
    let diag = &diags[1];
    assert_eq!(diag.severity, Severity::Error);
    assert_eq!(diag.message, "extra tabs '\\t' (0 / 1)");
}
