use yydb::checksum::checksum;
use yydb::{check_compressed, check_file, check_raw, Header, IntegrityError, SSTABLE_MAGIC_NUMBER};

fn entry(key: u64, value: Option<&[u8]>) -> Vec<u8> {
    let pair: (u64, Option<Vec<u8>>) = (key, value.map(|v| v.to_vec()));
    bincode::encode_to_vec(pair, bincode::config::standard()).unwrap()
}

fn raw_body() -> Vec<u8> {
    let mut body = entry(10, Some(b"a"));
    body.extend(entry(20, None));
    body.extend(entry(30, Some(b"c")));
    body
}

/// Stands for the compressed form of a body in these tests.
fn stored_form(raw: &[u8]) -> Vec<u8> {
    raw.iter().rev().map(|b| b ^ 0x5a).collect()
}

fn file_of(magic: u32, h: &Header, stored: &[u8]) -> Vec<u8> {
    let mut out = Vec::new();
    out.extend(magic.to_be_bytes());
    out.extend(h.raw_checksum.to_be_bytes());
    out.extend(h.compressed_checksum.to_be_bytes());
    out.extend(h.entries_count.to_be_bytes());
    out.extend(h.deleted_count.to_be_bytes());
    out.extend(h.min_key.to_be_bytes());
    out.extend(h.max_key.to_be_bytes());
    out.extend(stored);
    out
}

fn header_for(raw: &[u8], entries_count: u32) -> Header {
    Header {
        raw_checksum: crc32fast::hash(raw),
        compressed_checksum: crc32fast::hash(&stored_form(raw)),
        entries_count,
        deleted_count: 1,
        min_key: 10,
        max_key: 30,
    }
}

#[test]
fn checksum_is_crc32() {
    assert_eq!(checksum(b"123456789"), 0xcbf4_3926);
    assert_eq!(checksum(b""), 0);
    assert_eq!(checksum(b"a"), 0xe8b7_be43);
}

#[test]
fn sound_file_passes() {
    let raw = raw_body();
    let h = header_for(&raw, 3);
    let file = file_of(SSTABLE_MAGIC_NUMBER, &h, &stored_form(&raw));
    assert_eq!(check_file(&file, &raw), Ok(h));
    assert_eq!(check_compressed(&file), Ok(h));
    assert_eq!(check_raw(&h, &raw), Ok(()));
}

#[test]
fn stored_checksums_are_reproduced() {
    let raw = raw_body();
    let h = header_for(&raw, 3);
    let file = file_of(SSTABLE_MAGIC_NUMBER, &h, &stored_form(&raw));
    assert_eq!(checksum(&file[36..]), h.compressed_checksum);
    assert_eq!(checksum(&raw), h.raw_checksum);
}

#[test]
fn corrupted_stored_byte_is_detected() {
    let raw = raw_body();
    let h = header_for(&raw, 3);
    let mut file = file_of(SSTABLE_MAGIC_NUMBER, &h, &stored_form(&raw));
    file[40] ^= 0x01;
    assert_eq!(check_file(&file, &raw), Err(IntegrityError::CompressedChecksumMismatch));
}

#[test]
fn corrupted_raw_byte_is_detected() {
    let raw = raw_body();
    let h = header_for(&raw, 3);
    let file = file_of(SSTABLE_MAGIC_NUMBER, &h, &stored_form(&raw));
    let mut bad = raw.clone();
    bad[2] ^= 0x01;
    assert_eq!(check_file(&file, &bad), Err(IntegrityError::RawChecksumMismatch));
    assert_eq!(check_raw(&h, &bad), Err(IntegrityError::RawChecksumMismatch));
}

#[test]
fn wrong_magic_number_fails_the_check() {
    let raw = raw_body();
    let h = header_for(&raw, 3);
    let file = file_of(0, &h, &stored_form(&raw));
    assert_eq!(check_file(&file, &raw), Err(IntegrityError::InvalidMagicNumber));
}

#[test]
fn file_shorter_than_a_header_fails_the_check() {
    let raw = raw_body();
    let h = header_for(&raw, 3);
    let file = file_of(SSTABLE_MAGIC_NUMBER, &h, &[]);
    assert_eq!(check_compressed(&file[..35]), Err(IntegrityError::TruncatedHeader));
    assert_eq!(check_compressed(&file[..2]), Err(IntegrityError::TruncatedHeader));
    assert_eq!(check_compressed(&[]), Err(IntegrityError::TruncatedHeader));
}

#[test]
fn too_few_entries_fail_the_check() {
    let raw = raw_body();
    let h = header_for(&raw, 4);
    assert_eq!(check_raw(&h, &raw), Err(IntegrityError::BadEntry));
}

#[test]
fn malformed_entry_fails_the_check() {
    let mut raw = entry(10, Some(b"a"));
    raw.extend([20u8, 9, 9]);
    let h = header_for(&raw, 2);
    assert_eq!(check_raw(&h, &raw), Err(IntegrityError::BadEntry));
}

#[test]
fn bytes_behind_the_last_entry_fail_the_check() {
    let raw = raw_body();
    let h = header_for(&raw, 2);
    assert_eq!(check_raw(&h, &raw), Err(IntegrityError::TrailingBytes));
}

#[test]
fn empty_body_with_no_entries_passes() {
    let h = Header {
        raw_checksum: 0,
        compressed_checksum: 0,
        entries_count: 0,
        deleted_count: 0,
        min_key: 0,
        max_key: 0,
    };
    let file = file_of(SSTABLE_MAGIC_NUMBER, &h, &[]);
    assert_eq!(check_file(&file, &[]), Ok(h));
}
