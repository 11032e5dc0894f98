use poexam::c_format::{CFormat, MatchCFormat};

#[test]
fn test_match_sort_index() {
    let mf = MatchCFormat {
        format: "%3$d",
        start: 0,
        end: 4,
    };
    assert_eq!(mf.sort_index(), 3);
    let mf_no_reorder = MatchCFormat {
        format: "%d",
        start: 0,
        end: 2,
    };
    assert_eq!(mf_no_reorder.sort_index(), usize::MAX);
    let mf_invalid = MatchCFormat {
        format: "%$d",
        start: 0,
        end: 3,
    };
    assert_eq!(mf_invalid.sort_index(), usize::MAX);
}

#[test]
fn test_match_remove_reordering() {
    let mf = MatchCFormat {
        format: "%3$d",
        start: 0,
        end: 4,
    };
    assert_eq!(mf.remove_reordering(), "%d");
    let mf_no_reorder = MatchCFormat {
        format: "%d",
        start: 0,
        end: 2,
    };
    assert_eq!(mf_no_reorder.remove_reordering(), "%d");
    let mf_invalid = MatchCFormat {
        format: "%$d",
        start: 0,
        end: 3,
    };
    assert_eq!(mf_invalid.remove_reordering(), "%$d");
}

#[test]
fn c_format_test_no_format() {
    let s = "Hello, world!";
    let mut cf = CFormat::new(s);
    assert!(cf.next().is_none());
}

#[test]
fn test_invalid() {
    let s = "%";
    let mut cf = CFormat::new(s);
    assert_eq!(
        cf.next(),
        Some(MatchCFormat {
            format: "%",
            start: 0,
            end: 1
        })
    );
    assert!(cf.next().is_none());
    let s = "%é";
    let mut cf = CFormat::new(s);
    assert_eq!(
        cf.next(),
        Some(MatchCFormat {
            format: "%",
            start: 0,
            end: 1
        })
    );
    assert!(cf.next().is_none());
}

#[test]
fn c_format_test_single_format() {
    let s = "hello, %s world!";
    let mut cf = CFormat::new(s);
    assert_eq!(
        cf.next(),
        Some(MatchCFormat {
            format: "%s",
            start: 7,
            end: 9
        })
    );
    assert!(cf.next().is_none());
}

#[test]
fn c_format_test_multiple_formats() {
    let s = "%d %s %f";
    let mut cf = CFormat::new(s);
    assert_eq!(
        cf.next(),
        Some(MatchCFormat {
            format: "%d",
            start: 0,
            end: 2
        })
    );
    assert_eq!(
        cf.next(),
        Some(MatchCFormat {
            format: "%s",
            start: 3,
            end: 5
        })
    );
    assert_eq!(
        cf.next(),
        Some(MatchCFormat {
            format: "%f",
            start: 6,
            end: 8
        })
    );
    assert!(cf.next().is_none());
}

#[test]
fn c_format_test_multiple_formats_with_reordering() {
    let s = "Hello, %3$d %2$s %1$f world!";
    let mut cf = CFormat::new(s);
    assert_eq!(
        cf.next(),
        Some(MatchCFormat {
            format: "%3$d",
            start: 7,
            end: 11,
        })
    );
    assert_eq!(
        cf.next(),
        Some(MatchCFormat {
            format: "%2$s",
            start: 12,
            end: 16,
        })
    );
    assert_eq!(
        cf.next(),
        Some(MatchCFormat {
            format: "%1$f",
            start: 17,
            end: 21,
        })
    );
    assert!(cf.next().is_none());
}

#[test]
fn c_format_test_escaped_percent() {
    let s = "Hello, %% %s world!";
    let mut cf = CFormat::new(s);
    assert_eq!(
        cf.next(),
        Some(MatchCFormat {
            format: "%s",
            start: 10,
            end: 12,
        })
    );
    assert!(cf.next().is_none());
}

#[test]
fn c_format_test_flags_width_precision() {
    let s = "Hello, %05.2f world!";
    let mut cf = CFormat::new(s);
    assert_eq!(
        cf.next(),
        Some(MatchCFormat {
            format: "%05.2f",
            start: 7,
            end: 13,
        })
    );
    assert!(cf.next().is_none());
}

#[test]
fn c_format_test_flags_width_length() {
    let s = "Hello, %ld %9llu world!";
    let mut cf = CFormat::new(s);
    assert_eq!(
        cf.next(),
        Some(MatchCFormat {
            format: "%ld",
            start: 7,
            end: 10,
        })
    );
    assert_eq!(
        cf.next(),
        Some(MatchCFormat {
            format: "%9llu",
            start: 11,
            end: 16,
        })
    );
    assert!(cf.next().is_none());
}
