use poexam::checker::Checker;
use poexam::diagnostic::{Diagnostic, Severity};
use poexam::rules::c_formats::CFormatsRule;
use poexam::rules::rule::{Rule, Rules};

fn check_formats(content: &str) -> Vec<Diagnostic> {
    let rules = Rules::new(vec![Rule::CFormats(CFormatsRule {})]);
    let mut checker = Checker::new(content.as_bytes(), &rules);
    checker.do_all_checks();
    checker.diagnostics
}

#[test]
fn test_no_c_formats() {
    let diags = check_formats(
        r#"
msgid "tested"
msgstr "testé"
"#,
    );
    assert!(diags.is_empty());
}

#[test]
fn c_formats_test_c_formats_ok() {
    let diags = check_formats(
        r#"
#, c-format
msgid "name: %s, age: %d"
msgstr "nom : %s, âge : %d"
"#,
    );
    assert!(diags.is_empty());
}

#[test]
fn c_formats_test_c_format_error() {
    let diags = check_formats(
        r#"
#, c-format
msgid "name: %s, age: %d"
msgstr "nom : %s, âge : %f"

#, c-format
msgid "%d test (%s)"
msgstr "%2$d test (%1$s)"
"#,
    );
    assert_eq!(diags.len(), 2);
    let diag = &diags[0];
    assert_eq!(diag.severity, Severity::Error);
    assert_eq!(diag.message, "inconsistent C format strings");
    let diag = &diags[1];
    assert_eq!(diag.severity, Severity::Error);
    assert_eq!(diag.message, "inconsistent C format strings");
}
