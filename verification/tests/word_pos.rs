use poexam::po::format::language::Language;
use poexam::po::format::word_pos::WordPos;
use poexam::po::format::MatchStrPos;

#[test]
fn test_no_words() {
    assert!(WordPos::new("", &Language::Null).next().is_none());
    assert!(WordPos::new(" ,.!? ", &Language::Null).next().is_none());
}

#[test]
fn test_words() {
    let mut word_pos = WordPos::new("Hello, world! %llu test-word 42.", &Language::Null);
    assert_eq!(
        word_pos.next(),
        Some(MatchStrPos {
            s: "Hello",
            start: 0,
            end: 5,
        })
    );
    assert_eq!(
        word_pos.next(),
        Some(MatchStrPos {
            s: "world",
            start: 7,
            end: 12,
        })
    );
    assert_eq!(
        word_pos.next(),
        Some(MatchStrPos {
            s: "llu",
            start: 15,
            end: 18,
        })
    );
    assert_eq!(
        word_pos.next(),
        Some(MatchStrPos {
            s: "test-word",
            start: 19,
            end: 28,
        })
    );
    assert_eq!(
        word_pos.next(),
        Some(MatchStrPos {
            s: "42",
            start: 29,
            end: 31,
        })
    );
    assert!(word_pos.next().is_none());

    let mut word_pos = WordPos::new("héllo, мир! %lld 你好", &Language::Null);
    assert_eq!(
        word_pos.next(),
        Some(MatchStrPos {
            s: "héllo",
            start: 0,
            end: 6,
        })
    );
    assert_eq!(
        word_pos.next(),
        Some(MatchStrPos {
            s: "мир",
            start: 8,
            end: 14,
        })
    );
    assert_eq!(
        word_pos.next(),
        Some(MatchStrPos {
            s: "lld",
            start: 17,
            end: 20,
        })
    );
    assert_eq!(
        word_pos.next(),
        Some(MatchStrPos {
            s: "你好",
            start: 21,
            end: 27,
        })
    );
    assert!(word_pos.next().is_none());
}
