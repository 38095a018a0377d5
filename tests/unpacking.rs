use std::io::{Cursor, Write};
use version_control::archive::{entry_stays_inside, name_is_plain, unpack_entries, Entry, ExtractError};
use zip::write::SimpleFileOptions;
use zip::{CompressionMethod, ZipWriter};

fn archive(files: &[(&str, &[u8])], dirs: &[&str]) -> Vec<u8> {
    let mut w = ZipWriter::new(Cursor::new(Vec::new()));
    let opts = SimpleFileOptions::default().compression_method(CompressionMethod::Stored);
    for d in dirs {
        w.add_directory(*d, opts).unwrap();
    }
    for (name, data) in files {
        w.start_file(*name, opts).unwrap();
        w.write_all(data).unwrap();
    }
    w.finish().unwrap().into_inner()
}

fn file(path: &[&str], contents: &[u8]) -> Entry {
    Entry { path: path.iter().map(|s| s.to_string()).collect(), is_dir: false, contents: contents.to_vec() }
}

#[test]
fn reads_one_file() {
    let bytes = archive(&[("readme.txt", b"hello")], &[]);
    assert_eq!(unpack_entries(bytes), Ok(vec![file(&["readme.txt"], b"hello")]));
}

#[test]
fn keeps_directories_and_nesting_in_order() {
    let bytes = archive(&[("docs/a.txt", b"a"), ("b.bin", &[0, 1, 2])], &["docs/"]);
    let entries = unpack_entries(bytes).unwrap();
    assert_eq!(entries.len(), 3);
    assert_eq!(entries[0], Entry { path: vec!["docs".to_string()], is_dir: true, contents: vec![] });
    assert_eq!(entries[1], file(&["docs", "a.txt"], b"a"));
    assert_eq!(entries[2], file(&["b.bin"], &[0, 1, 2]));
}

#[test]
fn empty_archive_has_no_entries() {
    assert_eq!(unpack_entries(archive(&[], &[])), Ok(vec![]));
}

#[test]
fn unpacking_twice_gives_the_same_entries() {
    let bytes = archive(&[("readme.txt", b"hello"), ("lib/x.so", b"xyz")], &["lib/"]);
    let first = unpack_entries(bytes.clone());
    assert!(first.is_ok());
    assert_eq!(first, unpack_entries(bytes));
}

#[test]
fn traversal_names_stay_inside() {
    let bytes = archive(&[("../evil.txt", b"e"), ("/etc/passwd", b"p"), ("a/../../b.txt", b"b")], &[]);
    let entries = unpack_entries(bytes).unwrap();
    assert_eq!(entries.len(), 3);
    for e in &entries {
        assert!(!e.path.is_empty());
        for name in &e.path {
            assert!(name != ".." && name != "." && !name.is_empty());
            assert!(!name.contains('/') && !name.contains('\\'));
        }
    }
    assert_eq!(entries[0].path, vec!["evil.txt".to_string()]);
    assert_eq!(entries[1].path, vec!["etc".to_string(), "passwd".to_string()]);
}

#[test]
fn file_with_no_name_left_is_refused() {
    let bytes = archive(&[("..", b"x")], &[]);
    assert_eq!(unpack_entries(bytes), Err(ExtractError::UnsafePath));
}

#[test]
fn bytes_that_are_no_archive_are_refused() {
    assert_eq!(unpack_entries(b"not an archive".to_vec()), Err(ExtractError::Malformed));
    assert_eq!(unpack_entries(vec![]), Err(ExtractError::Malformed));
    assert_eq!(unpack_entries(b"<html><body>Not Found</body></html>".to_vec()), Err(ExtractError::Malformed));
}

#[test]
fn plain_names_are_told_apart() {
    for ok in ["readme.txt", "a", "...", ".hidden", "x..y"] {
        assert!(name_is_plain(&ok.to_string()), "{}", ok);
    }
    for bad in ["", ".", "..", "a/b", "a\\b", "nul\0byte", "/"] {
        assert!(!name_is_plain(&bad.to_string()), "{:?}", bad);
    }
}

#[test]
fn entries_are_checked_name_by_name() {
    assert!(entry_stays_inside(&file(&["a", "b.txt"], b"")));
    assert!(!entry_stays_inside(&file(&["a", "..", "b.txt"], b"")));
    assert!(!entry_stays_inside(&file(&[], b"x")));
    assert!(entry_stays_inside(&Entry { path: vec![], is_dir: true, contents: vec![] }));
}
