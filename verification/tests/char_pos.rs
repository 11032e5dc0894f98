use poexam::po::format::char_pos::CharPos;
use poexam::po::format::language::Language;
use poexam::po::format::MatchStrPos;

#[test]
fn test_no_chars() {
    assert!(CharPos::new("", &Language::Null).next().is_none());
    assert!(CharPos::new(" ,.!? ", &Language::Null).next().is_none());
}

#[test]
fn test_chars() {
    assert_eq!(
        CharPos::new("Hé, w!", &Language::Null).collect(),
        vec![
            MatchStrPos {
                s: "H",
                start: 0,
                end: 1,
            },
            MatchStrPos {
                s: "é",
                start: 1,
                end: 3,
            },
            MatchStrPos {
                s: "w",
                start: 5,
                end: 6,
            },
        ]
    );
}
