//! The strict check of a whole file, for integrity tooling.
//!
//! Unlike a pass of the iterator, which yields what it can, this check
//! answers for the file as a whole: both checksums hold, and the
//! decompressed body is exactly the stored number of entries.

use crate::checksum::{checksum, crc32_of};
use crate::codec::{decode_front, decoded_front, entries_span, entry_within, Decoded};
use crate::header::{
    empty_header, header_load_result, header_loaded, DbError, Header, HEADER_SIZE,
};
use vstd::prelude::*;
use vstd::slice::slice_subrange;

verus! {

/// What is wrong with a file.
#[derive(Clone, Copy, Debug, PartialEq, Eq, Structural)]
pub enum IntegrityError {
    /// The file is shorter than a header.
    TruncatedHeader,
    /// The file does not start with the format identifier.
    InvalidMagicNumber,
    /// The compressed body does not have the stored checksum.
    CompressedChecksumMismatch,
    /// The decompressed body does not have the stored checksum.
    RawChecksumMismatch,
    /// The decompressed body does not start with as many whole entries as
    /// the header counts.
    BadEntry,
    /// Bytes are left behind the last entry.
    TrailingBytes,
}

/// The header that a whole file holds.
pub open spec fn header_of(file: Seq<u8>) -> Header {
    header_loaded(empty_header(), HEADER_SIZE, file)
}

/// The compressed body of a file: what follows the header.
pub open spec fn body_of(file: Seq<u8>) -> Seq<u8> {
    file.skip(HEADER_SIZE as int)
}

/// The verdict on a file as it is stored: its header, if the header is
/// whole and the compressed body has the checksum stored for it.
pub open spec fn compressed_verdict(file: Seq<u8>) -> Result<Header, IntegrityError> {
    match header_load_result(HEADER_SIZE, file) {
        Err(DbError::InvalidMagicNumber) => Err(IntegrityError::InvalidMagicNumber),
        Err(DbError::TruncatedHeader) => Err(IntegrityError::TruncatedHeader),
        Ok(()) => if crc32_of(body_of(file)) == header_of(file).compressed_checksum {
            Ok(header_of(file))
        } else {
            Err(IntegrityError::CompressedChecksumMismatch)
        },
    }
}

/// The verdict on a decompressed body: it has the checksum stored for it,
/// and it is made of exactly `entries_count` entries.
pub open spec fn raw_verdict(header: Header, raw: Seq<u8>) -> Result<(), IntegrityError> {
    if crc32_of(raw) != header.raw_checksum {
        Err(IntegrityError::RawChecksumMismatch)
    } else {
        match entries_span(raw, header.entries_count as nat) {
            None => Err(IntegrityError::BadEntry),
            Some(n) => if n == raw.len() {
                Ok(())
            } else {
                Err(IntegrityError::TrailingBytes)
            },
        }
    }
}

/// The verdict on a file and what its body decompresses to.
pub open spec fn file_verdict(file: Seq<u8>, raw: Seq<u8>) -> Result<Header, IntegrityError> {
    match compressed_verdict(file) {
        Err(e) => Err(e),
        Ok(header) => match raw_verdict(header, raw) {
            Err(e) => Err(e),
            Ok(()) => Ok(header),
        },
    }
}

/// An entry span moved `by` bytes to the right.
pub open spec fn span_from(by: nat, span: Option<nat>) -> Option<nat> {
    match span {
        Some(n) => Some(by + n),
        None => None,
    }
}

/// Checks a file as it is stored: the header, and the checksum of the
/// compressed body. Returns the header.
pub fn check_compressed(file: &[u8]) -> (r: Result<Header, IntegrityError>)
    ensures
        r == compressed_verdict(file@),
{
    let mut header = Header::empty();
    match header.load(HEADER_SIZE, file) {
        Err(DbError::InvalidMagicNumber) => Err(IntegrityError::InvalidMagicNumber),
        Err(DbError::TruncatedHeader) => Err(IntegrityError::TruncatedHeader),
        Ok(()) => {
            let body = slice_subrange(file, 36, file.len());
            proof {
                assert(body@ =~= body_of(file@));
            }
            if checksum(body) == header.compressed_checksum {
                Ok(header)
            } else {
                Err(IntegrityError::CompressedChecksumMismatch)
            }
        },
    }
}

/// Checks a decompressed body against its header: the checksum, then the
/// entries, which must fill the body exactly.
pub fn check_raw(header: &Header, raw: &[u8]) -> (r: Result<(), IntegrityError>)
    ensures
        r == raw_verdict(*header, raw@),
{
    if checksum(raw) != header.raw_checksum {
        return Err(IntegrityError::RawChecksumMismatch);
    }
    let count: u32 = header.entries_count;
    let len: usize = raw.len();
    let mut pos: usize = 0;
    let mut i: u32 = 0;
    proof {
        assert(raw@.skip(0) =~= raw@);
    }
    while i < count
        invariant
            len == raw@.len(),
            count == header.entries_count,
            crc32_of(raw@) == header.raw_checksum,
            pos <= len,
            i <= count,
            entries_span(raw@, count as nat) == span_from(
                pos as nat,
                entries_span(raw@.skip(pos as int), (count - i) as nat),
            ),
        decreases count - i,
    {
        let rest = slice_subrange(raw, pos, len);
        proof {
            assert(rest@ =~= raw@.skip(pos as int));
        }
        match decode_front(rest) {
            Decoded::Entry { key: _, value: _, consumed } => {
                if consumed == 0 {
                    return Err(IntegrityError::BadEntry);
                }
                proof {
                    assert(entry_within(decoded_front(rest@), rest@.len()));
                    assert(raw@.skip(pos as int).skip(consumed as int) =~= raw@.skip(
                        pos + consumed,
                    ));
                }
                pos = pos + consumed;
                i = i + 1;
            },
            _ => {
                return Err(IntegrityError::BadEntry);
            },
        }
    }
    if pos == len {
        Ok(())
    } else {
        Err(IntegrityError::TrailingBytes)
    }
}

/// Checks a file against what its body decompresses to: the header and
/// the checksum of the compressed body, then the checksum of the
/// decompressed body, then its entries. Returns the header of a sound file.
pub fn check_file(file: &[u8], raw: &[u8]) -> (r: Result<Header, IntegrityError>)
    ensures
        r == file_verdict(file@, raw@),
{
    match check_compressed(file) {
        Err(e) => Err(e),
        Ok(header) => match check_raw(&header, raw) {
            Err(e) => Err(e),
            Ok(()) => Ok(header),
        },
    }
}

} // verus!
