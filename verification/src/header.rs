//! The fixed header at the start of an SSTable file.
//!
//! Layout, all integers big-endian: magic number (4 bytes), checksum of the
//! decompressed body (4), checksum of the compressed body as stored (4),
//! entry count (4), deleted-entry count (4), minimum key (8), maximum key (8).

use vstd::prelude::*;

verus! {

/// Length of the header in bytes.
pub const HEADER_SIZE: u64 = 36;

/// Format identifier in the first four bytes of a file.
pub const SSTABLE_MAGIC_NUMBER: u32 = 0x5959_4442;

/// Why a header could not be loaded.
#[derive(Clone, Copy, Debug, PartialEq, Eq, Structural)]
pub enum DbError {
    /// The file does not start with the format identifier.
    InvalidMagicNumber,
    /// The file is long enough to hold a header, but the header could not
    /// be read in full.
    TruncatedHeader,
}

/// The header's fields, without the magic number.
#[derive(Clone, Copy, Debug, PartialEq, Eq, Structural)]
pub struct Header {
    pub raw_checksum: u32,
    pub compressed_checksum: u32,
    pub entries_count: u32,
    pub deleted_count: u32,
    pub min_key: u64,
    pub max_key: u64,
}

/// The big-endian number in the four bytes of `s` that start at `at`.
pub open spec fn be_u32(s: Seq<u8>, at: int) -> u32
    recommends
        0 <= at,
        at + 4 <= s.len(),
{
    (s[at] as int * 0x100_0000 + s[at + 1] as int * 0x1_0000 + s[at + 2] as int * 0x100 + s[at
        + 3] as int) as u32
}

/// The big-endian number in the eight bytes of `s` that start at `at`.
pub open spec fn be_u64(s: Seq<u8>, at: int) -> u64
    recommends
        0 <= at,
        at + 8 <= s.len(),
{
    (be_u32(s, at) as int * 0x1_0000_0000 + be_u32(s, at + 4) as int) as u64
}

/// The header of an empty table: every field zero.
pub open spec fn empty_header() -> Header {
    Header {
        raw_checksum: 0,
        compressed_checksum: 0,
        entries_count: 0,
        deleted_count: 0,
        min_key: 0,
        max_key: 0,
    }
}

/// Whether loading stops before any field is stored: the file is too short
/// to hold a header, or the magic number is missing or wrong.
pub open spec fn header_kept(file_len: u64, bytes: Seq<u8>) -> bool {
    file_len < HEADER_SIZE || bytes.len() < 4 || be_u32(bytes, 0) != SSTABLE_MAGIC_NUMBER
}

/// The outcome of loading a header from a file of length `file_len` whose
/// first bytes, as far as they could be read, are `bytes`.
pub open spec fn header_load_result(file_len: u64, bytes: Seq<u8>) -> Result<(), DbError> {
    if file_len < HEADER_SIZE {
        Ok(())
    } else if bytes.len() < 4 {
        Err(DbError::TruncatedHeader)
    } else if be_u32(bytes, 0) != SSTABLE_MAGIC_NUMBER {
        Err(DbError::InvalidMagicNumber)
    } else if bytes.len() < HEADER_SIZE {
        Err(DbError::TruncatedHeader)
    } else {
        Ok(())
    }
}

/// The cached header after a load. Fields are read in file order; one that
/// could not be read in full keeps its earlier value, as do all fields when
/// `header_kept` holds.
pub open spec fn header_loaded(before: Header, file_len: u64, bytes: Seq<u8>) -> Header {
    if header_kept(file_len, bytes) {
        before
    } else {
        Header {
            raw_checksum: if bytes.len() >= 8 {
                be_u32(bytes, 4)
            } else {
                before.raw_checksum
            },
            compressed_checksum: if bytes.len() >= 12 {
                be_u32(bytes, 8)
            } else {
                before.compressed_checksum
            },
            entries_count: if bytes.len() >= 16 {
                be_u32(bytes, 12)
            } else {
                before.entries_count
            },
            deleted_count: if bytes.len() >= 20 {
                be_u32(bytes, 16)
            } else {
                before.deleted_count
            },
            min_key: if bytes.len() >= 28 {
                be_u64(bytes, 20)
            } else {
                before.min_key
            },
            max_key: if bytes.len() >= 36 {
                be_u64(bytes, 28)
            } else {
                before.max_key
            },
        }
    }
}

/// Reads a big-endian `u32` at `at`.
pub fn read_be_u32(bytes: &[u8], at: usize) -> (v: u32)
    requires
        at + 4 <= bytes.len(),
    ensures
        v == be_u32(bytes@, at as int),
{
    let b0: u32 = bytes[at] as u32;
    let b1: u32 = bytes[at + 1] as u32;
    let b2: u32 = bytes[at + 2] as u32;
    let b3: u32 = bytes[at + 3] as u32;
    b0 * 0x100_0000 + b1 * 0x1_0000 + b2 * 0x100 + b3
}

/// Reads a big-endian `u64` at `at`.
pub fn read_be_u64(bytes: &[u8], at: usize) -> (v: u64)
    requires
        at + 8 <= bytes.len(),
    ensures
        v == be_u64(bytes@, at as int),
{
    let hi: u64 = read_be_u32(bytes, at) as u64;
    let lo: u64 = read_be_u32(bytes, at + 4) as u64;
    hi * 0x1_0000_0000 + lo
}

impl Header {
    /// A header with every field zero.
    pub fn empty() -> (h: Header)
        ensures
            h == empty_header(),
    {
        Header {
            raw_checksum: 0,
            compressed_checksum: 0,
            entries_count: 0,
            deleted_count: 0,
            min_key: 0,
            max_key: 0,
        }
    }

    /// Loads the header of a file of length `file_len` into `self`. `bytes`
    /// holds the start of the file, as far as it could be read; anything
    /// past the header is ignored.
    ///
    /// A file shorter than a header is an empty table: nothing is stored
    /// and the load succeeds.
    pub fn load(&mut self, file_len: u64, bytes: &[u8]) -> (r: Result<(), DbError>)
        ensures
            r == header_load_result(file_len, bytes@),
            *final(self) == header_loaded(*old(self), file_len, bytes@),
    {
        if file_len < HEADER_SIZE {
            return Ok(());
        }
        let n: usize = bytes.len();
        if n < 4 {
            return Err(DbError::TruncatedHeader);
        }
        if read_be_u32(bytes, 0) != SSTABLE_MAGIC_NUMBER {
            return Err(DbError::InvalidMagicNumber);
        }
        if n < 8 {
            return Err(DbError::TruncatedHeader);
        }
        self.raw_checksum = read_be_u32(bytes, 4);
        if n < 12 {
            return Err(DbError::TruncatedHeader);
        }
        self.compressed_checksum = read_be_u32(bytes, 8);
        if n < 16 {
            return Err(DbError::TruncatedHeader);
        }
        self.entries_count = read_be_u32(bytes, 12);
        if n < 20 {
            return Err(DbError::TruncatedHeader);
        }
        self.deleted_count = read_be_u32(bytes, 16);
        if n < 28 {
            return Err(DbError::TruncatedHeader);
        }
        self.min_key = read_be_u64(bytes, 20);
        if n < 36 {
            return Err(DbError::TruncatedHeader);
        }
        self.max_key = read_be_u64(bytes, 28);
        Ok(())
    }
}

} // verus!
