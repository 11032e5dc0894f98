use poexam::po::format::char_pos::CharPos;
use poexam::po::format::format_pos::FormatPos;
use poexam::po::format::language::Language;
use poexam::po::format::word_pos::WordPos;
use poexam::po::format::MatchStrPos;

#[test]
fn lang_null_test_no_format() {
    let s = "Hello, %s world!";
    // Formats: none.
    assert!(FormatPos::new(s, &Language::Null).next().is_none());
    // Words: "Hello", "s", "world".
    let mut word_pos = WordPos::new(s, &Language::Null);
    assert_eq!(
        word_pos.next(),
        Some(MatchStrPos {
            s: "Hello",
            start: 0,
            end: 5,
        })
    );
    assert_eq!(
        word_pos.next(),
        Some(MatchStrPos {
            s: "s",
            start: 8,
            end: 9,
        })
    );
    assert_eq!(
        word_pos.next(),
        Some(MatchStrPos {
            s: "world",
            start: 10,
            end: 15,
        })
    );
    assert!(word_pos.next().is_none());
    // Chars: 'H', 'é', 's', 'w'.
    let mut char_pos = CharPos::new("Hé, %s w!", &Language::Null);
    assert_eq!(
        char_pos.next(),
        Some(MatchStrPos {
            s: "H",
            start: 0,
            end: 1,
        })
    );
    assert_eq!(
        char_pos.next(),
        Some(MatchStrPos {
            s: "é",
            start: 1,
            end: 3,
        })
    );
    assert_eq!(
        char_pos.next(),
        Some(MatchStrPos {
            s: "s",
            start: 6,
            end: 7,
        })
    );
    assert_eq!(
        char_pos.next(),
        Some(MatchStrPos {
            s: "w",
            start: 8,
            end: 9,
        })
    );
    assert!(char_pos.next().is_none());
}
