use poexam::po::format::language::Language;

#[test]
fn test_language() {
    assert_eq!(Language::from("c"), Language::C);
    assert_eq!(Language::from(""), Language::Null);
    assert_eq!(Language::from("unknown"), Language::Null);
}
