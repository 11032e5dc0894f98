use poexam::po::escape::EscapePoExt;

#[test]
fn escape_basic() {
    assert_eq!("".escape_po(), "");
    assert_eq!("abc".escape_po(), "abc");
}

#[test]
fn escape_specials() {
    assert_eq!("\n".escape_po(), "\\n");
    assert_eq!("\r".escape_po(), "\\r");
    assert_eq!("\t".escape_po(), "\\t");
    assert_eq!("\"".escape_po(), "\\\"");
    assert_eq!("\\".escape_po(), "\\\\");
}

#[test]
fn escape_mixed() {
    let s = "a\\b\nc\td\"e";
    let expected = "a\\\\b\\nc\\td\\\"e";
    assert_eq!(s.escape_po(), expected);
}

#[test]
fn unescape_basic() {
    assert_eq!("".unescape_po(), "");
    assert_eq!("abc".unescape_po(), "abc");
}

#[test]
fn unescape_specials() {
    assert_eq!("\\n".unescape_po(), "\n");
    assert_eq!("\\r".unescape_po(), "\r");
    assert_eq!("\\t".unescape_po(), "\t");
    assert_eq!("\\\"".unescape_po(), "\"");
    assert_eq!("\\".unescape_po(), "\\");
    assert_eq!("\\\\".unescape_po(), "\\");
}

#[test]
fn unescape_unknown_sequence_is_kept() {
    assert_eq!("\\x".unescape_po(), "\\x");
    assert_eq!("test\\qval".unescape_po(), "test\\qval");
}

#[test]
fn roundtrip() {
    let samples = [
        "",
        "plain text",
        "line1\nline2",
        "tab\there",
        "quote:\"",
        "backslash \\",
        "mix\r\n\t\"end",
        "utf8: café – 測試",
    ];
    for &s in &samples {
        let escaped = s.escape_po();
        let unescaped = escaped.unescape_po();
        assert_eq!(unescaped, s, "failed roundtrip for: {s:?} -> {escaped:?}");
    }
}
