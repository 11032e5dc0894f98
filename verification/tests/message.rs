use poexam::po::message::Message;

#[test]
fn test_po_string() {
    let mut msgid = Message::new(8, "test\nline 2");
    assert_eq!(
        format!("{msgid:?}"),
        "Message { line_number: 8, value: \"test\\nline 2\" }"
    );
    msgid.escape();
    assert_eq!(msgid.value, "test\\nline 2");
    msgid.unescape();
    assert_eq!(msgid.value, "test\nline 2");
}
