use poexam::words::{CharPos, WordPos};

#[test]
fn test_empty() {
    let s = "";
    let pos: Vec<_> = WordPos::new(s, "").collect();
    assert!(pos.is_empty());
    let s = "";
    let pos: Vec<_> = CharPos::new(s, "").collect();
    assert!(pos.is_empty());
}

#[test]
fn test_punct() {
    let s = " ,.!? ";
    let pos: Vec<_> = WordPos::new(s, "").collect();
    assert!(pos.is_empty());
    let s = " ,.!? ";
    let pos: Vec<_> = CharPos::new(s, "").collect();
    assert!(pos.is_empty());
}

#[test]
fn test_c_format() {
    let s = "%05d";
    // Do not skip any format.
    let pos: Vec<_> = WordPos::new(s, "").collect();
    assert_eq!(pos, vec![(1, 4)]);
    assert_eq!(&s[pos[0].0..pos[0].1], "05d");
    let pos: Vec<_> = CharPos::new(s, "").collect();
    assert_eq!(pos, vec![(1, 2), (2, 3), (3, 4)]);
    assert_eq!(&s[pos[0].0..pos[0].1], "0");
    assert_eq!(&s[pos[1].0..pos[1].1], "5");
    assert_eq!(&s[pos[2].0..pos[2].1], "d");
    // Skip C format strings.
    let pos: Vec<_> = WordPos::new(s, "c").collect();
    assert!(pos.is_empty());
    let pos: Vec<_> = CharPos::new(s, "c").collect();
    assert!(pos.is_empty());
}

#[test]
fn test_basic_ascii() {
    let s = "Hello, world! %llu test-word 42.";
    // Do not skip any format.
    let pos: Vec<_> = WordPos::new(s, "").collect();
    assert_eq!(pos, vec![(0, 5), (7, 12), (15, 18), (19, 28), (29, 31)]);
    assert_eq!(&s[pos[0].0..pos[0].1], "Hello");
    assert_eq!(&s[pos[1].0..pos[1].1], "world");
    assert_eq!(&s[pos[2].0..pos[2].1], "llu");
    assert_eq!(&s[pos[3].0..pos[3].1], "test-word");
    assert_eq!(&s[pos[4].0..pos[4].1], "42");
    let pos: Vec<_> = CharPos::new(s, "").collect();
    assert_eq!(pos.len(), 24);
    // Skip C format strings.
    let pos: Vec<_> = WordPos::new(s, "c").collect();
    assert_eq!(pos, vec![(0, 5), (7, 12), (19, 28), (29, 31)]);
    assert_eq!(&s[pos[0].0..pos[0].1], "Hello");
    assert_eq!(&s[pos[1].0..pos[1].1], "world");
    assert_eq!(&s[pos[2].0..pos[2].1], "test-word");
    assert_eq!(&s[pos[3].0..pos[3].1], "42");
    let pos: Vec<_> = CharPos::new(s, "c").collect();
    assert_eq!(pos.len(), 21);
}

#[test]
fn words_test_unicode() {
    let s = "héllo, мир! %lld 你好";
    // Do not skip any format.
    let pos: Vec<_> = WordPos::new(s, "").collect();
    assert_eq!(pos, vec![(0, 6), (8, 14), (17, 20), (21, 27)]);
    assert_eq!(&s[pos[0].0..pos[0].1], "héllo");
    assert_eq!(&s[pos[1].0..pos[1].1], "мир");
    assert_eq!(&s[pos[2].0..pos[2].1], "lld");
    assert_eq!(&s[pos[3].0..pos[3].1], "你好");
    let pos: Vec<_> = CharPos::new(s, "").collect();
    assert_eq!(pos.len(), 13);
    // Skip C format strings.
    let pos: Vec<_> = WordPos::new(s, "c").collect();
    assert_eq!(pos, vec![(0, 6), (8, 14), (21, 27)]);
    assert_eq!(&s[pos[0].0..pos[0].1], "héllo");
    assert_eq!(&s[pos[1].0..pos[1].1], "мир");
    assert_eq!(&s[pos[2].0..pos[2].1], "你好");
    let pos: Vec<_> = CharPos::new(s, "c").collect();
    assert_eq!(pos.len(), 10);
}
