use poexam::po::entry::Entry;
use poexam::po::message::Message;
use poexam::po::translations::Translations;

fn get_test_entry() -> Entry {
    let mut msgstr = Translations::new();
    msgstr.insert(0, Message::new(4, "fichier\n"));
    msgstr.insert(1, Message::new(5, "fichiers\n"));
    Entry {
        msgctxt: Some(Message::new(1, "a file\n")),
        msgid: Some(Message::new(2, "file\n")),
        msgid_plural: Some(Message::new(3, "files\n")),
        msgstr,
        ..Default::default()
    }
}

#[test]
fn test_entry() {
    let mut entry = Entry::new(1);
    assert!(!entry.is_header());
    assert!(!entry.is_translated());
    entry.msgctxt = Some(Message::new(1, "a file"));
    entry.msgid = Some(Message::new(2, ""));
    assert!(entry.is_header());
    assert!(!entry.is_translated());
    entry.msgstr.insert(0, Message::new(4, "fichier\\n"));
    assert!(entry.is_header());
    assert!(entry.is_translated());
    entry.msgid = Some(Message::new(2, "file\\n"));
    assert!(!entry.is_header());
    assert!(entry.is_translated());
}

#[test]
fn test_entry_append() {
    let mut entry = get_test_entry();
    entry.append_msgctxt("here");
    assert_eq!(entry.msgctxt, Some(Message::new(1, "a file\nhere")));
    entry.append_msgid("here");
    assert_eq!(entry.msgid, Some(Message::new(2, "file\nhere")));
    entry.append_msgid_plural("here");
    assert_eq!(entry.msgid_plural, Some(Message::new(3, "files\nhere")));
    entry.append_msgstr(0, "ici");
    assert_eq!(entry.msgstr.get(&0), Some(&Message::new(4, "fichier\nici")));
    entry.append_msgstr(1, "ici");
    assert_eq!(
        entry.msgstr.get(&1),
        Some(&Message::new(5, "fichiers\nici"))
    );
}

#[test]
fn test_entry_iter() {
    let entry = get_test_entry();
    let mut iter = entry.iter_ids().into_iter();
    assert_eq!(iter.next(), Some(Message::new(2, "file\n")).as_ref());
    assert_eq!(iter.next(), Some(Message::new(3, "files\n")).as_ref());
    assert!(iter.next().is_none());
    let mut iter = entry.iter_strs().into_iter();
    assert_eq!(iter.next(), Some((0, &Message::new(4, "fichier\n"))));
    assert_eq!(iter.next(), Some((1, &Message::new(5, "fichiers\n"))));
    assert!(iter.next().is_none());
}

#[test]
fn test_entry_escape() {
    let mut entry = get_test_entry();
    entry.escape_strings();
    assert_eq!(entry.msgctxt, Some(Message::new(1, "a file\\n")));
    assert_eq!(entry.msgid, Some(Message::new(2, "file\\n")));
    assert_eq!(entry.msgid_plural, Some(Message::new(3, "files\\n")));
    assert_eq!(entry.msgstr.get(&0), Some(&Message::new(4, "fichier\\n")));
    assert_eq!(entry.msgstr.get(&1), Some(&Message::new(5, "fichiers\\n")));
    entry.unescape_strings();
    assert_eq!(entry.msgctxt, Some(Message::new(1, "a file\n")));
    assert_eq!(entry.msgid, Some(Message::new(2, "file\n")));
    assert_eq!(entry.msgid_plural, Some(Message::new(3, "files\n")));
    assert_eq!(entry.msgstr.get(&0), Some(&Message::new(4, "fichier\n")));
    assert_eq!(entry.msgstr.get(&1), Some(&Message::new(5, "fichiers\n")));
}

#[test]
fn test_entry_to_po_lines() {
    let entry = get_test_entry();
    let po_lines = entry.to_po_lines();
    assert_eq!(
        po_lines,
        vec![
            (1, "msgctxt \"a file\\n\"".to_string()),
            (2, "msgid \"file\\n\"".to_string()),
            (3, "msgid_plural \"files\\n\"".to_string()),
            (4, "msgstr[0] \"fichier\\n\"".to_string()),
            (5, "msgstr[1] \"fichiers\\n\"".to_string()),
        ]
    );
}
