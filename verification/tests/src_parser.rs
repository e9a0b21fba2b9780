use parsiphae::src_parser::{contains_path, entry_kind, src_entries, EntryKind};

#[test]
fn empty_src() {
    let output = src_entries("");
    assert!(output.is_empty());
}

#[test]
fn src_entries_skip_comments_and_blank_lines() {
    let content = "// the scripts\r\n  AI\\*.d  \n\n\tstory.src\r\n//_work\\x.d\nlast.D";
    let output = src_entries(content);
    assert_eq!(
        output,
        vec!["AI\\*.d".to_string(), "story.src".to_string(), "last.D".to_string()]
    );
}

#[test]
fn a_single_slash_is_no_comment() {
    assert_eq!(src_entries("/x.d\n //y.d"), vec!["/x.d".to_string()]);
}

#[test]
fn entry_kinds_by_extension() {
    assert_eq!(entry_kind(None), Ok(EntryKind::D));
    assert_eq!(entry_kind(Some(b"d")), Ok(EntryKind::D));
    assert_eq!(entry_kind(Some(b"D")), Ok(EntryKind::D));
    assert_eq!(entry_kind(Some(b"SrC")), Ok(EntryKind::Src));
    assert_eq!(entry_kind(Some(b"txt")), Err(()));
    assert_eq!(entry_kind(Some(b"")), Err(()));
}

#[test]
fn paths_are_found_by_their_bytes() {
    let list = vec![b"a/b.d".to_vec(), b"c.d".to_vec()];
    assert!(contains_path(&list, b"c.d"));
    assert!(!contains_path(&list, b"C.d"));
    assert!(!contains_path(&vec![], b"c.d"));
}

#[test]
fn line_ends_follow_str_lines() {
    assert_eq!(src_entries("a.d\r\nb.d\rc.d\r"), vec!["a.d".to_string(), "b.d\rc.d".to_string()]);
    assert_eq!(src_entries("\n\n//x\n"), Vec::<String>::new());
}

#[test]
fn new_paths_are_added_once_in_order() {
    let mut seen = vec![b"a.d".to_vec()];
    let new = vec![b"b.d".to_vec(), b"a.d".to_vec(), b"c.d".to_vec(), b"b.d".to_vec()];
    let added = parsiphae::src_parser::add_new_paths(&mut seen, &new);
    assert_eq!(added, vec![0, 2]);
    assert_eq!(seen, vec![b"a.d".to_vec(), b"b.d".to_vec(), b"c.d".to_vec()]);
}

#[test]
fn unicode_white_space_is_trimmed() {
    assert_eq!(src_entries("\u{3000}a.d\u{a0}\n\u{2003}\u{85}\n"), vec!["a.d".to_string()]);
}

#[test]
fn lines_naming_no_file_change_nothing() {
    let plain = src_entries("a.d\nb.d");
    assert_eq!(src_entries("a.d\n  \t\r\nb.d"), plain);
    assert_eq!(src_entries("a.d\n  // the story\nb.d"), plain);
    assert_eq!(src_entries("\n\na.d\nb.d"), plain);
}
