//! Central directory validation on hand-built archives.
use jz_office_core::zip_directory::{entry_count, DirectoryFault};

fn end_record(count: u16, size: u32, start: u32, comment: &[u8]) -> Vec<u8> {
    let mut r = vec![0x50, 0x4b, 5, 6, 0, 0, 0, 0];
    r.extend_from_slice(&count.to_le_bytes());
    r.extend_from_slice(&count.to_le_bytes());
    r.extend_from_slice(&size.to_le_bytes());
    r.extend_from_slice(&start.to_le_bytes());
    r.extend_from_slice(&(comment.len() as u16).to_le_bytes());
    r.extend_from_slice(comment);
    r
}

fn header(name_len: u16) -> Vec<u8> {
    let mut h = vec![0u8; 46];
    h[0..4].copy_from_slice(&[0x50, 0x4b, 1, 2]);
    h[28..30].copy_from_slice(&name_len.to_le_bytes());
    h.extend(std::iter::repeat(b'a').take(name_len as usize));
    h
}

#[test]
fn empty_archive_has_no_entries() {
    assert_eq!(entry_count(&end_record(0, 0, 0, b"")), Ok(0));
}

#[test]
fn counts_directory_records() {
    let mut bytes = header(3);
    bytes.extend(header(1));
    let size = bytes.len() as u32;
    bytes.extend(end_record(2, size, 0, b"note"));
    assert_eq!(entry_count(&bytes), Ok(2));
}

#[test]
fn zip64_markers_are_refused() {
    assert_eq!(entry_count(&end_record(0xffff, 0, 0, b"")), Err(DirectoryFault::Zip64));
}

#[test]
fn split_archives_are_refused() {
    let mut bytes = end_record(0, 0, 0, b"");
    bytes[4] = 1;
    assert_eq!(entry_count(&bytes), Err(DirectoryFault::Split));
}

#[test]
fn too_many_entries_are_refused() {
    assert_eq!(entry_count(&end_record(4097, 0, 0, b"")), Err(DirectoryFault::TooManyEntries));
}

#[test]
fn directory_must_end_at_end_record() {
    let mut bytes = header(1);
    bytes.extend(end_record(1, 10, 0, b""));
    assert_eq!(entry_count(&bytes), Err(DirectoryFault::Bounds));
}

#[test]
fn bad_record_signature_is_refused() {
    let mut bytes = header(1);
    bytes[2] = 9;
    let size = bytes.len() as u32;
    bytes.extend(end_record(1, size, 0, b""));
    assert_eq!(entry_count(&bytes), Err(DirectoryFault::BadEntry));
}

#[test]
fn count_must_match_records() {
    let mut bytes = header(1);
    bytes.extend(header(1));
    let size = bytes.len() as u32;
    bytes.extend(end_record(1, size, 0, b""));
    assert_eq!(entry_count(&bytes), Err(DirectoryFault::CountMismatch));
    let mut short = header(1);
    let size = short.len() as u32;
    short.extend(end_record(2, size, 0, b""));
    assert_eq!(entry_count(&short), Err(DirectoryFault::Truncated));
}

#[test]
fn record_past_directory_is_refused() {
    let mut bytes = header(4);
    let size = bytes.len() as u32 - 2;
    bytes.truncate(size as usize);
    bytes.extend(end_record(1, size, 0, b""));
    assert_eq!(entry_count(&bytes), Err(DirectoryFault::EntryOverrun));
}

#[test]
fn last_end_record_wins() {
    // The outer record's comment holds a second, later record that ends the input.
    let inner = end_record(0, 0, 22, b"");
    let mut bytes = end_record(1, 0, 0, &inner);
    assert_eq!(entry_count(&bytes), Ok(0));
    bytes.push(0);
    assert_eq!(entry_count(&bytes), Err(DirectoryFault::MissingEndRecord));
}
