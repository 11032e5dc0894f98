use poexam::checker::Checker;
use poexam::diagnostic::{Diagnostic, Severity};
use poexam::rules::plurals::PluralsRule;
use poexam::rules::rule::{Rule, Rules};

fn check_plurals(content: &str) -> Vec<Diagnostic> {
    let rules = Rules::new(vec![Rule::Plurals(PluralsRule {})]);
    let mut checker = Checker::new(content.as_bytes(), &rules);
    checker.do_all_checks();
    checker.diagnostics
}

#[test]
fn test_no_plural() {
    let diags = check_plurals(
        r#"
msgid "tested"
msgstr "testé"
"#,
    );
    assert!(diags.is_empty());
}

#[test]
fn test_plural_ok() {
    let diags = check_plurals(
        r#"
msgid "%d file"
msgid_plural "%d files"
msgstr[0] "%d fichier"
msgstr[1] "%d fichiers"
"#,
    );
    assert!(diags.is_empty());
    let diags = check_plurals(
        r#"
msgid ""
msgstr ""
"Project-Id-Version: my_project\n"
"Plural-Forms: nplurals=2; plural=(n > 1);\n"

msgid "%d file"
msgid_plural "%d files"
msgstr[0] "%d fichier"
msgstr[1] "%d fichiers"
"#,
    );
    println!("diags: {diags:?}");
    assert!(diags.is_empty());
}

#[test]
fn test_plural_error() {
    let diags = check_plurals(
        r#"
msgid ""
msgstr ""
"Project-Id-Version: my_project\n"
"Plural-Forms: nplurals=2; plural=(n > 1);\n"

msgid "%d file"
msgid_plural "%d files"
msgstr[0] "%d fichier"
"#,
    );
    assert_eq!(diags.len(), 1);
    let diag = &diags[0];
    assert_eq!(diag.severity, Severity::Error);
    assert_eq!(
        diag.message,
        "missing translated plural form (found: 1, expected: 2)"
    );
    let diags = check_plurals(
        r#"
msgid ""
msgstr ""
"Project-Id-Version: my_project\n"
"Plural-Forms: nplurals=2; plural=(n > 1);\n"

msgid "%d file"
msgid_plural "%d files"
msgstr[0] "%d fichier"
msgstr[1] "%d fichiers"
msgstr[2] "%d fichiers"
"#,
    );
    assert_eq!(diags.len(), 1);
    let diag = &diags[0];
    assert_eq!(diag.severity, Severity::Error);
    assert_eq!(
        diag.message,
        "extra translated plural form (found: 3, expected: 2)"
    );
}
