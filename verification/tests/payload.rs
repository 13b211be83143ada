use std::io::{Cursor, Write};

use itasha_installer::payload::{
    payload_entry, read_payload, written_bytes, EntryKind, PayloadEntry,
};
use zip::write::SimpleFileOptions;
use zip::ZipWriter;

fn zip_of(entries: &[(&str, Option<&[u8]>)]) -> Vec<u8> {
    let mut w = ZipWriter::new(Cursor::new(Vec::new()));
    for (name, data) in entries {
        match data {
            Some(bytes) => {
                w.start_file(*name, SimpleFileOptions::default()).expect("start file");
                w.write_all(bytes).expect("write");
            }
            None => {
                w.add_directory(*name, SimpleFileOptions::default()).expect("add dir");
            }
        }
    }
    w.finish().expect("finish").into_inner()
}

#[test]
fn payload_entries_come_back_in_order() {
    let bytes = zip_of(&[
        ("assets/", None),
        ("assets/logo.txt", Some(b"logo")),
        ("app.exe", Some(b"MZ binary")),
    ]);
    let read = read_payload(&bytes).expect("a valid archive");
    assert_eq!(read.failure, None);
    assert_eq!(read.entries.len(), 3);
    assert_eq!(read.entries[0].index, 0);
    assert_eq!(read.entries[0].kind, EntryKind::Dir);
    assert!(read.entries[0].path.starts_with("assets"));
    assert_eq!(
        read.entries[1].kind,
        EntryKind::File(Ok(b"logo".to_vec()))
    );
    assert_eq!(
        read.entries[2],
        PayloadEntry {
            index: 2,
            path: "app.exe".to_string(),
            kind: EntryKind::File(Ok(b"MZ binary".to_vec())),
        }
    );
    assert_eq!(written_bytes(&read.entries), 13);
}

#[test]
fn unsafe_paths_are_skipped() {
    let bytes = zip_of(&[("../escape.txt", Some(b"x")), ("ok.txt", Some(b"y"))]);
    let read = read_payload(&bytes).expect("a valid archive");
    assert_eq!(read.entries.len(), 1);
    assert_eq!(read.entries[0].index, 1);
    assert_eq!(read.entries[0].path, "ok.txt");
    assert_eq!(read.skipped, vec![0]);
}

#[test]
fn every_entry_is_kept_or_skipped() {
    let bytes = zip_of(&[
        ("a.txt", Some(b"a")),
        ("../../up.txt", Some(b"u")),
        ("d/", None),
        ("d/b.txt", Some(b"bb")),
    ]);
    let read = read_payload(&bytes).expect("a valid archive");
    let kept: Vec<usize> = read.entries.iter().map(|e| e.index).collect();
    assert_eq!(kept, vec![0, 2, 3]);
    assert_eq!(read.skipped, vec![1]);
    assert_eq!(read.failure, None);
    assert_eq!(written_bytes(&read.entries), 3);
}

#[test]
fn an_entry_becomes_what_its_name_and_kind_say() {
    assert_eq!(payload_entry(3, None, false, None), None);
    assert_eq!(payload_entry(3, None, true, None), None);
    assert_eq!(
        payload_entry(4, Some("d".to_string()), true, None),
        Some(PayloadEntry { index: 4, path: "d".to_string(), kind: EntryKind::Dir })
    );
    assert_eq!(
        payload_entry(5, Some("f.txt".to_string()), false, Some(Ok(b"hi".to_vec()))),
        Some(PayloadEntry {
            index: 5,
            path: "f.txt".to_string(),
            kind: EntryKind::File(Ok(b"hi".to_vec())),
        })
    );
    assert_eq!(
        payload_entry(6, Some("g".to_string()), false, Some(Err("crc".to_string()))),
        Some(PayloadEntry {
            index: 6,
            path: "g".to_string(),
            kind: EntryKind::File(Err("crc".to_string())),
        })
    );
}

#[test]
fn a_non_zip_payload_fails_with_its_error() {
    let err = read_payload(b"not a zip at all").expect_err("not an archive");
    assert!(err.starts_with("payload: "), "got {err}");
    assert!(err.len() > "payload: ".len());
}

#[test]
fn an_empty_archive_has_no_entries() {
    let bytes = zip_of(&[]);
    let read = read_payload(&bytes).expect("a valid archive");
    assert!(read.entries.is_empty());
    assert!(read.skipped.is_empty());
    assert_eq!(read.failure, None);
    assert_eq!(written_bytes(&read.entries), 0);
}

#[test]
fn everyday_safe_names_are_kept_as_written() {
    let bytes = zip_of(&[
        ("App.exe", Some(b"MZ")),
        ("Data/", None),
        ("Data/Read Me (1).txt", Some(b"hi")),
        ("CON.txt", Some(b"c")),
    ]);
    let read = read_payload(&bytes).expect("a valid archive");
    assert_eq!(read.failure, None);
    assert_eq!(read.entries[0].path, "App.exe");
    assert_eq!(read.entries[1].index, 1);
    assert_eq!(read.entries[1].kind, EntryKind::Dir);
    assert_eq!(read.entries[2].path, "Data/Read Me (1).txt");
    assert_eq!(read.entries.len() + read.skipped.len(), 4);
}
