use poexam::checker::{CheckStep, Checker};
use poexam::diagnostic::{Diagnostic, Severity};
use poexam::rules::rule::{Rule, Rules};
use poexam::rules::spelling::{SpellingCtxtRule, SpellingIdRule, SpellingStrRule};
use spellbook::Dictionary;

const AFF: &str = "SET UTF-8\n";
const DIC_EN: &str = "7\nsome\ncontext\ntested\nthis\nis\na\ntest\n";
const DIC_FR: &str = "4\ntesté\nceci\nest\nun\n";

fn check_spelling(content: &str) -> Vec<Diagnostic> {
    let rules = Rules::new(vec![
        Rule::SpellingCtxt(SpellingCtxtRule {}),
        Rule::SpellingId(SpellingIdRule {}),
        Rule::SpellingStr(SpellingStrRule {}),
    ]);
    let dict_id = Dictionary::new(AFF, DIC_EN).unwrap();
    let mut checker = Checker::new(content.as_bytes(), &rules).with_dict_id(Some(&dict_id));
    loop {
        match checker.check_next() {
            CheckStep::Done => break,
            CheckStep::Checked => {}
            CheckStep::NeedDictionary => {
                assert_eq!(checker.language(), "fr");
                checker.set_dict_str(Dictionary::new(AFF, DIC_FR).unwrap());
            }
        }
    }
    checker.diagnostics
}

#[test]
fn test_spelling_ok() {
    let diags = check_spelling(
        r#"
msgid ""
msgstr "Language: fr\n"

msgctxt "some context"
msgid "tested"
msgstr "testé"
"#,
    );
    assert!(diags.is_empty());
}

#[test]
fn test_spelling_error() {
    let diags = check_spelling(
        r#"
msgid ""
msgstr "Language: fr\n"

msgctxt "some contxet, some contxet"
msgid "this is a tyypo, this is a tyypo"
msgstr "ceci est unz fôte, ceci est unz fôte"
"#,
    );
    assert_eq!(diags.len(), 3);
    let diag = &diags[0];
    assert_eq!(diag.severity, Severity::Info);
    assert_eq!(diag.message, "misspelled words in context: contxet");
    let diag = &diags[1];
    assert_eq!(diag.severity, Severity::Info);
    assert_eq!(diag.message, "misspelled words in source: tyypo");
    let diag = &diags[2];
    assert_eq!(diag.severity, Severity::Info);
    assert_eq!(diag.message, "misspelled words in translation: fôte, unz");
}

#[test]
fn test_spelling_highlights_every_occurrence() {
    let diags = check_spelling(
        r#"
msgid ""
msgstr "Language: fr\n"

msgid "this is a tyypo, this is a tyypo"
msgstr "ceci est un"
"#,
    );
    assert_eq!(diags.len(), 1);
    assert_eq!(diags[0].rule, "spelling-id");
    assert_eq!(diags[0].lines[0].highlights, vec![(10, 15), (27, 32)]);
    assert!(diags[0].lines[1].highlights.is_empty());
}

#[test]
fn test_spelling_dictionary_not_found() {
    let rules = Rules::new(vec![Rule::SpellingStr(SpellingStrRule {})]);
    let content = r#"
msgid ""
msgstr "Language: pt_BR\n"

msgid "tested"
msgstr "testado"

msgid ""
msgstr "Language: pt_BR\n"
"#;
    let mut checker = Checker::new(content.as_bytes(), &rules)
        .with_path("pt.po")
        .with_path_dicts("/usr/share/hunspell");
    checker.do_all_checks();
    let diags = checker.diagnostics;
    // The warning comes once, though two header entries ask for the dictionary.
    assert_eq!(diags.len(), 1);
    assert_eq!(diags[0].rule, "spelling-str");
    assert_eq!(diags[0].severity, Severity::Warning);
    assert_eq!(diags[0].path, "pt.po");
    assert_eq!(
        diags[0].message,
        "dictionary not found for language 'pt_BR' (path: /usr/share/hunspell), spelling rule ignored"
    );
    assert!(diags[0].lines.is_empty());
}

#[test]
fn test_spelling_misspelled_words_are_listed_once_in_order() {
    let rules = Rules::new(vec![
        Rule::SpellingCtxt(SpellingCtxtRule {}),
        Rule::SpellingId(SpellingIdRule {}),
        Rule::SpellingStr(SpellingStrRule {}),
    ]);
    let content = r#"
msgctxt "zome context"
msgid "this is a tyypo, zome tyypo"
msgstr "ignored"

#, c-format
msgid "a %tyypo test, abz"
msgstr "ignored"
"#;
    let dict_id = Dictionary::new(AFF, DIC_EN).unwrap();
    let mut checker = Checker::new(content.as_bytes(), &rules).with_dict_id(Some(&dict_id));
    checker.do_all_checks();
    // No header asks for the dictionary of the translations: they are not spelled.
    // In the second entry `%ty` is a placeholder: the word is what follows it.
    assert_eq!(checker.diagnostics.len(), 3);
    assert_eq!(checker.diagnostics[2].message, "misspelled words in source: abz, ypo");
    assert_eq!(checker.misspelled_words(), vec!["abz", "tyypo", "ypo", "zome"]);
    assert!(checker.source_dictionary().is_some());
}
