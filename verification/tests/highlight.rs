use colored::Colorize;
use poexam::highlight::{replace_all, HighlightExt};

const HL_TEXT: &str = "bright yellow";
const HL_BG: &str = "red";

#[test]
fn test_highlight_pos_basic() {
    assert_eq!(
        "abcdef".highlight_pos(2, 4),
        "ab".to_string() + &"cd".color(HL_TEXT).bold().on_color(HL_BG).to_string() + "ef"
    );
    assert_eq!(
        "abcdef".highlight_pos(0, 6),
        "abcdef".color(HL_TEXT).bold().on_color(HL_BG).to_string()
    );
}

#[test]
fn test_highlight_list_pos() {
    assert_eq!(
        "abcdefg".highlight_list_pos(&[(1, 3), (4, 6)]),
        "a".to_string()
            + &"bc".color(HL_TEXT).bold().on_color(HL_BG).to_string()
            + "d"
            + &"ef".color(HL_TEXT).bold().on_color(HL_BG).to_string()
            + "g"
    );
}

#[test]
fn test_highlight_str() {
    assert_eq!(
        "this is a test and another test".highlight_str("test"),
        "this is a ".to_string()
            + &"test".color(HL_TEXT).bold().on_color(HL_BG).to_string()
            + " and another "
            + &"test".color(HL_TEXT).bold().on_color(HL_BG).to_string()
    );
}

#[test]
fn test_highlight_list_str() {
    assert_eq!(
        "abc def ghi abc def".highlight_list_str(&["abc", "def"]),
        "abc".color(HL_TEXT).bold().on_color(HL_BG).to_string()
            + " "
            + &"def".color(HL_TEXT).bold().on_color(HL_BG).to_string()
            + " ghi "
            + &"abc".color(HL_TEXT).bold().on_color(HL_BG).to_string()
            + " "
            + &"def".color(HL_TEXT).bold().on_color(HL_BG).to_string()
    );
}

#[test]
fn test_highlight_list_pos_skips_parts_that_overlap_or_do_not_fit() {
    let painted = |s: &str| s.color(HL_TEXT).bold().on_color(HL_BG).to_string();
    assert_eq!(
        "abcdefg".highlight_list_pos(&[(1, 3), (2, 4), (9, 12), (5, 4), (3, 5)]),
        "a".to_string() + &painted("bc") + &painted("de") + "fg"
    );
    // A position inside a character cuts no part out of the string.
    assert_eq!("aéb".highlight_list_pos(&[(1, 2)]), "aéb");
    assert_eq!(
        "aéb".highlight_list_pos(&[(1, 3)]),
        "a".to_string() + &painted("é") + "b"
    );
    assert_eq!("aéb".highlight_pos(2, 3), "aéb");
    assert_eq!("".highlight_list_pos(&[]), "");
}

#[test]
fn test_replace_all_is_what_the_standard_library_does() {
    for (s, needle, with) in [
        ("this is a test and another test", "test", "X"),
        ("aaaa", "aa", "b"),
        ("aaa", "aa", "b"),
        ("abc", "", "-"),
        ("", "", "-"),
        ("", "a", "-"),
        ("héllo héllo", "é", "e"),
        ("abc", "abcd", "x"),
        ("abc", "abc", ""),
    ] {
        assert_eq!(replace_all(s, needle, with), s.replace(needle, with));
    }
}
