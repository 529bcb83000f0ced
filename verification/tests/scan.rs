use yydb::codec::Decoded;
use yydb::header::{read_be_u32, read_be_u64};
use yydb::{
    DataStore, DbError, Header, KvStore, Pull, SSTableIter, ScanEnd, HEADER_SIZE,
    SSTABLE_ITER_BUF_SIZE, SSTABLE_MAGIC_NUMBER,
};

fn encode_entry(key: u64, value: Option<&[u8]>) -> Vec<u8> {
    let pair: (u64, Option<Vec<u8>>) = (key, value.map(|v| v.to_vec()));
    bincode::encode_to_vec(pair, bincode::config::standard()).unwrap()
}

fn sample_body() -> Vec<u8> {
    let mut body = encode_entry(10, Some(b"a"));
    body.extend(encode_entry(20, None));
    body.extend(encode_entry(30, Some(b"c")));
    body
}

fn header_bytes(magic: u32, h: &Header) -> Vec<u8> {
    let mut out = Vec::new();
    out.extend(magic.to_be_bytes());
    out.extend(h.raw_checksum.to_be_bytes());
    out.extend(h.compressed_checksum.to_be_bytes());
    out.extend(h.entries_count.to_be_bytes());
    out.extend(h.deleted_count.to_be_bytes());
    out.extend(h.min_key.to_be_bytes());
    out.extend(h.max_key.to_be_bytes());
    out
}

fn sample_header(body: &[u8]) -> Header {
    Header {
        raw_checksum: crc32fast::hash(body),
        compressed_checksum: crc32fast::hash(body),
        entries_count: 3,
        deleted_count: 1,
        min_key: 10,
        max_key: 30,
    }
}

fn open(header: &[u8], data_size: u32) -> SSTableIter {
    let mut it = SSTableIter::new(header.len() as u64, header, data_size).unwrap();
    it.init_iter();
    it
}

/// One pull, as a caller drives it: every request for a refill is answered
/// from `stream`, at most `step` bytes at a time.
fn pull(it: &mut SSTableIter, stream: &mut &[u8], step: usize) -> Result<KvStore, ScanEnd> {
    let mut answer = it.next();
    loop {
        match answer {
            Pull::Entry(entry) => return Ok(entry),
            Pull::End(end) => return Err(end),
            Pull::Fetch(room) => {
                let n = (room as usize).min(step).min(stream.len());
                let (chunk, rest) = stream.split_at(n);
                *stream = rest;
                answer = it.resume(Some(chunk));
            }
        }
    }
}

fn scan_all(it: &mut SSTableIter, mut stream: &[u8], step: usize) -> (Vec<KvStore>, ScanEnd) {
    let mut out = Vec::new();
    loop {
        match pull(it, &mut stream, step) {
            Ok(entry) => out.push(entry),
            Err(end) => return (out, end),
        }
    }
}

fn sample_entries() -> Vec<KvStore> {
    vec![
        KvStore(10, DataStore::Value(b"a".to_vec())),
        KvStore(20, DataStore::Deleted),
        KvStore(30, DataStore::Value(b"c".to_vec())),
    ]
}

#[test]
fn full_scan_yields_entries_in_order() {
    let body = sample_body();
    let header = header_bytes(SSTABLE_MAGIC_NUMBER, &sample_header(&body));
    let mut it = open(&header, SSTABLE_ITER_BUF_SIZE as u32);
    let (entries, end) = scan_all(&mut it, &body, usize::MAX);
    assert_eq!(entries, sample_entries());
    assert_eq!(end, ScanEnd::Complete);
    assert_eq!(it.entry_cur(), 3);
    assert_eq!(it.last_entry_key(), Some(30));
    assert_eq!(it.bytes_read(), body.len());
    assert_eq!(it.next(), Pull::End(ScanEnd::Unchecked));
}

#[test]
fn header_fields_are_loaded() {
    let body = sample_body();
    let stored = sample_header(&body);
    let header = header_bytes(SSTABLE_MAGIC_NUMBER, &stored);
    assert_eq!(header.len() as u64, HEADER_SIZE);
    let it = SSTableIter::new(36, &header, 16).unwrap();
    assert_eq!(it.header(), stored);
    assert_eq!(it.fetch_room(), 32);
    assert_eq!(it.entry_cur(), 0);
    assert_eq!(it.last_entry_key(), None);
}

#[test]
fn zeroed_magic_number_is_rejected() {
    let body = sample_body();
    let header = header_bytes(0, &sample_header(&body));
    let r = SSTableIter::new(header.len() as u64 + body.len() as u64, &header, 64);
    assert_eq!(r.err(), Some(DbError::InvalidMagicNumber));
}

#[test]
fn truncated_body_yields_first_entry_then_ends() {
    let body = sample_body();
    let header = header_bytes(SSTABLE_MAGIC_NUMBER, &sample_header(&body));
    let cut = encode_entry(10, Some(b"a")).len() + 1;
    let mut it = open(&header, 64);
    let (entries, end) = scan_all(&mut it, &body[..cut], usize::MAX);
    assert_eq!(entries, vec![KvStore(10, DataStore::Value(b"a".to_vec()))]);
    assert_eq!(end, ScanEnd::Truncated);

    let mut file = header.clone();
    file.extend(&body[..cut]);
    assert_eq!(
        yydb::check_file(&file, &body[..cut]),
        Err(yydb::IntegrityError::CompressedChecksumMismatch)
    );
    assert_eq!(
        yydb::check_raw(&sample_header(&body), &body[..cut]),
        Err(yydb::IntegrityError::RawChecksumMismatch)
    );
}

#[test]
fn short_file_is_an_empty_table() {
    let bytes = [1u8, 2, 3];
    let mut it = SSTableIter::new(3, &bytes, 64).unwrap();
    assert_eq!(it.header(), Header::empty());
    it.init_iter();
    let (entries, end) = scan_all(&mut it, b"ignored", usize::MAX);
    assert!(entries.is_empty());
    assert!(matches!(end, ScanEnd::Complete | ScanEnd::ChecksumMismatch));
    assert_eq!(it.bytes_read(), 0);
}

#[test]
fn table_without_entries_yields_nothing() {
    let stored = Header {
        raw_checksum: crc32fast::hash(b""),
        compressed_checksum: crc32fast::hash(b""),
        entries_count: 0,
        deleted_count: 0,
        min_key: 0,
        max_key: 0,
    };
    let header = header_bytes(SSTABLE_MAGIC_NUMBER, &stored);
    let mut it = open(&header, 64);
    assert_eq!(it.next(), Pull::End(ScanEnd::Complete));
    assert_eq!(it.entry_cur(), 0);
}

#[test]
fn pass_without_running_checksum_ends_unchecked() {
    let mut it = SSTableIter::new(0, &[], 64).unwrap();
    assert_eq!(it.next(), Pull::End(ScanEnd::Unchecked));
}

#[test]
fn scan_in_single_bytes_yields_the_same() {
    let body = sample_body();
    let header = header_bytes(SSTABLE_MAGIC_NUMBER, &sample_header(&body));
    let mut it = open(&header, 64);
    let (entries, end) = scan_all(&mut it, &body, 1);
    assert_eq!(entries, sample_entries());
    assert_eq!(end, ScanEnd::Complete);
}

#[test]
fn wrong_raw_checksum_is_reported_at_the_end() {
    let body = sample_body();
    let mut stored = sample_header(&body);
    stored.raw_checksum ^= 1;
    let header = header_bytes(SSTABLE_MAGIC_NUMBER, &stored);
    let mut it = open(&header, 64);
    let (entries, end) = scan_all(&mut it, &body, usize::MAX);
    assert_eq!(entries, sample_entries());
    assert_eq!(end, ScanEnd::ChecksumMismatch);
}

#[test]
fn stream_that_ends_between_entries_ends_the_pass() {
    let body = sample_body();
    let header = header_bytes(SSTABLE_MAGIC_NUMBER, &sample_header(&body));
    let cut = body.len() - encode_entry(30, Some(b"c")).len();
    let mut it = open(&header, 64);
    let (entries, end) = scan_all(&mut it, &body[..cut], usize::MAX);
    assert_eq!(entries.len(), 2);
    assert_eq!(end, ScanEnd::StreamEnded);
    assert_eq!(it.entry_cur(), 2);
}

#[test]
fn failed_read_on_an_empty_backlog_ends_the_pass() {
    let body = sample_body();
    let header = header_bytes(SSTABLE_MAGIC_NUMBER, &sample_header(&body));
    let mut it = open(&header, 64);
    assert_eq!(it.next(), Pull::Fetch(128));
    assert_eq!(it.resume(None), Pull::End(ScanEnd::StreamEnded));
    assert_eq!(it.bytes_read(), 0);
}

#[test]
fn malformed_entry_ends_the_pass() {
    let body = sample_body();
    let header = header_bytes(SSTABLE_MAGIC_NUMBER, &sample_header(&body));
    let mut bad = encode_entry(10, Some(b"a"));
    bad.extend([20u8, 7, 0, 0]);
    let mut it = open(&header, 64);
    let (entries, end) = scan_all(&mut it, &bad, usize::MAX);
    assert_eq!(entries, vec![KvStore(10, DataStore::Value(b"a".to_vec()))]);
    assert_eq!(end, ScanEnd::Malformed);
    assert_eq!(it.entry_cur(), 1);
}

#[test]
fn entry_larger_than_the_backlog_ends_the_pass() {
    let big = vec![7u8; 40];
    let body = encode_entry(1, Some(&big));
    let stored = Header {
        raw_checksum: crc32fast::hash(&body),
        compressed_checksum: 0,
        entries_count: 1,
        deleted_count: 0,
        min_key: 1,
        max_key: 1,
    };
    let header = header_bytes(SSTABLE_MAGIC_NUMBER, &stored);
    let mut it = open(&header, 8);
    let (entries, end) = scan_all(&mut it, &body, usize::MAX);
    assert!(entries.is_empty());
    assert_eq!(end, ScanEnd::Truncated);
    assert_eq!(it.fetch_room(), 0);
    assert_eq!(it.bytes_read(), 16);
}

#[test]
fn partial_entry_asks_for_more() {
    let body = sample_body();
    let header = header_bytes(SSTABLE_MAGIC_NUMBER, &sample_header(&body));
    let mut it = open(&header, 64);
    assert_eq!(it.next(), Pull::Fetch(128));
    assert_eq!(it.resume(Some(&body[..2])), Pull::Fetch(126));
    assert_eq!(it.resume(Some(&body[2..3])), Pull::Fetch(125));
    assert_eq!(it.resume(Some(&[])), Pull::End(ScanEnd::Truncated));
    assert_eq!(it.next(), Pull::Fetch(125));
    assert_eq!(
        it.resume(Some(&body[3..5])),
        Pull::Entry(KvStore(10, DataStore::Value(b"a".to_vec())))
    );
    assert_eq!(it.fetch_room(), 127);
    assert_eq!(it.bytes_read(), 5);
    assert_eq!(it.entry_cur(), 1);
}

#[test]
fn fetch_more_counts_and_keeps_bytes() {
    let body = sample_body();
    let header = header_bytes(SSTABLE_MAGIC_NUMBER, &sample_header(&body));
    let mut it = open(&header, 64);
    assert_eq!(it.fetch_more(&body[..5]), 5);
    assert_eq!(it.fetch_more(&[]), 0);
    assert_eq!(it.bytes_read(), 5);
    assert_eq!(it.fetch_room(), 123);
}

#[test]
fn yielded_keys_lie_within_the_header_range() {
    let body = sample_body();
    let header = header_bytes(SSTABLE_MAGIC_NUMBER, &sample_header(&body));
    let mut it = open(&header, 64);
    let (entries, _) = scan_all(&mut it, &body, 3);
    let h = it.header();
    assert_eq!(entries.len() as u32, h.entries_count);
    for entry in &entries {
        assert!(h.min_key <= entry.key() && entry.key() <= h.max_key);
    }
    let deleted = entries.iter().filter(|e| e.1.is_deleted()).count();
    assert_eq!(deleted as u32, h.deleted_count);
}

#[test]
fn loading_the_header_twice_changes_nothing() {
    let body = sample_body();
    let header = header_bytes(SSTABLE_MAGIC_NUMBER, &sample_header(&body));
    let mut it = SSTableIter::new(36, &header, 64).unwrap();
    let first = it.header();
    assert_eq!(it.recreate(36, &header), Ok(()));
    assert_eq!(it.header(), first);
    assert_eq!(it.recreate(36, &header), Ok(()));
    assert_eq!(it.header(), first);
}

#[test]
fn recreate_keeps_the_pass_in_progress() {
    let body = sample_body();
    let header = header_bytes(SSTABLE_MAGIC_NUMBER, &sample_header(&body));
    let mut it = open(&header, 64);
    let mut stream: &[u8] = &body;
    assert_eq!(pull(&mut it, &mut stream, usize::MAX).unwrap().key(), 10);
    assert_eq!(it.recreate(36, &header), Ok(()));
    assert_eq!(it.entry_cur(), 1);
    assert_eq!(it.last_entry_key(), Some(10));
    assert_eq!(pull(&mut it, &mut stream, usize::MAX).unwrap().key(), 20);
}

#[test]
fn partly_read_header_is_an_error() {
    let body = sample_body();
    let stored = sample_header(&body);
    let header = header_bytes(SSTABLE_MAGIC_NUMBER, &stored);
    assert_eq!(
        SSTableIter::new(100, &header[..3], 64).err(),
        Some(DbError::TruncatedHeader)
    );
    let mut h = Header::empty();
    assert_eq!(h.load(100, &header[..17]), Err(DbError::TruncatedHeader));
    assert_eq!(h.raw_checksum, stored.raw_checksum);
    assert_eq!(h.compressed_checksum, stored.compressed_checksum);
    assert_eq!(h.entries_count, 3);
    assert_eq!(h.deleted_count, 0);
    assert_eq!(h.max_key, 0);
}

#[test]
fn wrong_magic_number_stores_nothing() {
    let body = sample_body();
    let header = header_bytes(SSTABLE_MAGIC_NUMBER ^ 0x100, &sample_header(&body));
    let mut h = Header::empty();
    assert_eq!(h.load(36, &header), Err(DbError::InvalidMagicNumber));
    assert_eq!(h, Header::empty());
}

#[test]
fn big_endian_numbers_are_read() {
    let bytes = [0x12u8, 0x34, 0x56, 0x78, 0x9a, 0xbc, 0xde, 0xf0, 0x01];
    assert_eq!(read_be_u32(&bytes, 0), 0x1234_5678);
    assert_eq!(read_be_u32(&bytes, 1), 0x3456_789a);
    assert_eq!(read_be_u64(&bytes, 0), 0x1234_5678_9abc_def0);
    assert_eq!(read_be_u64(&bytes, 1), 0x3456_789a_bcde_f001);
    assert_eq!(read_be_u32(&[0xff; 4], 0), u32::MAX);
    assert_eq!(read_be_u64(&[0xff; 8], 0), u64::MAX);
}

#[test]
fn anchored_start_continues_past_lower_keys() {
    let body = sample_body();
    let header = header_bytes(SSTABLE_MAGIC_NUMBER, &sample_header(&body));
    let mut it = open(&header, 64);
    let mut stream: &[u8] = &body;
    assert_eq!(pull(&mut it, &mut stream, usize::MAX).unwrap().key(), 10);
    assert!(!it.init_iter_for_key(11));
    assert_eq!(it.entry_cur(), 1);
    assert_eq!(pull(&mut it, &mut stream, usize::MAX).unwrap().key(), 20);
    assert!(!it.init_iter_for_key(21));
    assert_eq!(pull(&mut it, &mut stream, usize::MAX).unwrap().key(), 30);
}

#[test]
fn anchored_start_restarts_when_the_key_is_not_ahead() {
    let body = sample_body();
    let header = header_bytes(SSTABLE_MAGIC_NUMBER, &sample_header(&body));
    let mut it = SSTableIter::new(36, &header, 64).unwrap();
    assert!(it.init_iter_for_key(5));
    let mut stream: &[u8] = &body;
    assert_eq!(pull(&mut it, &mut stream, usize::MAX).unwrap().key(), 10);
    assert_eq!(pull(&mut it, &mut stream, usize::MAX).unwrap().key(), 20);
    assert!(it.init_iter_for_key(20));
    assert_eq!(it.entry_cur(), 0);
    assert_eq!(it.last_entry_key(), None);
    assert_eq!(it.bytes_read(), 0);
    assert_eq!(it.fetch_room(), 128);
    let (entries, end) = scan_all(&mut it, &body, usize::MAX);
    assert_eq!(entries, sample_entries());
    assert_eq!(end, ScanEnd::Complete);
}

#[test]
fn anchored_starts_agree_with_scans_from_the_beginning() {
    let body = sample_body();
    let header = header_bytes(SSTABLE_MAGIC_NUMBER, &sample_header(&body));
    let queries = [5u64, 10, 15, 20, 25, 31];
    let mut anchored = SSTableIter::new(36, &header, 64).unwrap();
    let mut stream: &[u8] = &body;
    let mut held: Option<KvStore> = None;
    for key in queries {
        let mut fresh = open(&header, 64);
        let (all, _) = scan_all(&mut fresh, &body, usize::MAX);
        let expected = all.into_iter().find(|e| e.key() >= key);

        if anchored.init_iter_for_key(key) {
            stream = &body;
            held = None;
        }
        let found = loop {
            if let Some(e) = &held {
                if e.key() >= key {
                    break held.clone();
                }
            }
            match pull(&mut anchored, &mut stream, usize::MAX) {
                Ok(e) => held = Some(e),
                Err(_) => break None,
            }
        };
        assert_eq!(found, expected);
    }
}

#[test]
fn decoded_entry_advances_the_pass() {
    let body = sample_body();
    let header = header_bytes(SSTABLE_MAGIC_NUMBER, &sample_header(&body));
    let mut it = open(&header, 8);
    assert_eq!(it.fetch_more(&[1, 2, 3, 4, 5]), 5);
    let outcome = Decoded::Entry { key: 77, value: Some(vec![9, 9]), consumed: 3 };
    assert_eq!(
        it.apply_decoded(5, outcome),
        Pull::Entry(KvStore(77, DataStore::Value(vec![9, 9])))
    );
    assert_eq!(it.entry_cur(), 1);
    assert_eq!(it.last_entry_key(), Some(77));
    assert_eq!(it.fetch_room(), 14);
    assert_eq!(it.bytes_read(), 5);
    let tombstone = Decoded::Entry { key: 78, value: None, consumed: 2 };
    assert_eq!(it.apply_decoded(0, tombstone), Pull::Entry(KvStore(78, DataStore::Deleted)));
    assert_eq!(it.entry_cur(), 2);
    assert_eq!(it.fetch_room(), 16);
}

#[test]
fn decoding_outcomes_without_an_entry_keep_the_state() {
    let body = sample_body();
    let header = header_bytes(SSTABLE_MAGIC_NUMBER, &sample_header(&body));
    let mut it = open(&header, 8);
    assert_eq!(it.fetch_more(&[1, 2, 3]), 3);
    assert_eq!(it.apply_decoded(3, Decoded::Incomplete), Pull::Fetch(13));
    assert_eq!(it.apply_decoded(0, Decoded::Incomplete), Pull::End(ScanEnd::Truncated));
    assert_eq!(it.apply_decoded(3, Decoded::Malformed), Pull::End(ScanEnd::Malformed));
    assert_eq!(it.apply_decoded(0, Decoded::Malformed), Pull::End(ScanEnd::Malformed));
    assert_eq!(it.entry_cur(), 0);
    assert_eq!(it.last_entry_key(), None);
    assert_eq!(it.fetch_room(), 13);
}
