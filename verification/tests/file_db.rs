use parsiphae::file::db::{File, FileDb, FileError};

fn db() -> FileDb {
    let mut db = FileDb::new();
    let id = db.add(File::new(b"a.d".to_vec(), b"var int x;\nfunc void f() {};\n".to_vec(), vec![]));
    assert_eq!(id, 0);
    let id = db.add(File::new(b"b.d".to_vec(), b"no newline".to_vec(), vec![]));
    assert_eq!(id, 1);
    db
}

#[test]
fn lines_are_found_by_byte() {
    let db = db();
    let f = db.get(0);
    assert_eq!(f.line_index(0), 0);
    assert_eq!(f.line_index(10), 0);
    assert_eq!(f.line_index(11), 1);
    assert_eq!(f.line_index(31), 2);
    assert_eq!(f.line_index(1000), 2);
    assert_eq!(db.get(1).line_index(5), 0);
}

#[test]
fn line_starts_and_ranges() {
    let db = db();
    let f = db.get(0);
    assert_eq!(f.line_start(0), Ok(0));
    assert_eq!(f.line_start(1), Ok(11));
    assert_eq!(f.line_start(2), Ok(29));
    assert_eq!(f.line_start(3), Ok(29));
    assert_eq!(f.line_start(4), Err(FileError::LineTooLarge { given: 4, max: 2 }));
    assert_eq!(f.line_range(1), Ok((11, 29)));
    assert_eq!(f.line_range(2), Ok((29, 29)));
    assert_eq!(f.line_range(3), Err(FileError::LineTooLarge { given: 4, max: 2 }));
}

#[test]
fn names_and_sources() {
    let db = db();
    assert_eq!(db.len(), 2);
    assert_eq!(db.name(1), Ok("b.d".to_string()));
    assert_eq!(db.source(1), Ok("no newline".to_string()));
    assert_eq!(db.name(3), Err(FileError::FileMissing));
    assert_eq!(db.source(7), Err(FileError::FileMissing));
    assert_eq!(db.get(0).source(), "var int x;\nfunc void f() {};\n");
    let lossy = File::new(b"c.d".to_vec(), vec![b'a', 0xFF, b'\n'], vec![]);
    assert_eq!(lossy.source(), "a\u{FFFD}\n");
    assert_eq!(lossy.line_start(1), Ok(5));
}
