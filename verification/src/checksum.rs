//! CRC-32 of byte strings, computed by `crc32fast`.

use vstd::prelude::*;

verus! {

/// `crc32fast::Hasher`, an in-progress CRC-32 computation. Opaque to the
/// verifier.
#[verifier::external_type_specification]
#[verifier::external_body]
pub struct ExHasher(crc32fast::Hasher);

/// The CRC-32 of a byte string, as `crc32fast` computes it.
pub uninterp spec fn crc32_of(bytes: Seq<u8>) -> u32;

/// The bytes that a hasher has been fed since it was made, in order.
pub uninterp spec fn hashed_bytes(hasher: crc32fast::Hasher) -> Seq<u8>;

/// `crc32fast::Hasher::new`. Trusted: a new hasher has been fed nothing.
pub assume_specification[ crc32fast::Hasher::new ]() -> (hasher: crc32fast::Hasher)
    ensures
        hashed_bytes(hasher) == Seq::<u8>::empty(),
;

/// `crc32fast::Hasher::update`. Trusted: the slice is added, in order, to
/// what the hasher has been fed.
pub assume_specification[ crc32fast::Hasher::update ](hasher: &mut crc32fast::Hasher, buf: &[u8])
    ensures
        hashed_bytes(*final(hasher)) == hashed_bytes(*old(hasher)) + buf@,
;

/// `crc32fast::Hasher::finalize`. Trusted: the value is the CRC-32 of all
/// the bytes that the hasher has been fed.
pub assume_specification[ crc32fast::Hasher::finalize ](hasher: crc32fast::Hasher) -> (sum: u32)
    ensures
        sum == crc32_of(hashed_bytes(hasher)),
;

/// The CRC-32 of a whole slice.
pub fn checksum(bytes: &[u8]) -> (sum: u32)
    ensures
        sum == crc32_of(bytes@),
{
    let mut hasher = crc32fast::Hasher::new();
    hasher.update(bytes);
    proof {
        assert(Seq::<u8>::empty() + bytes@ =~= bytes@);
    }
    hasher.finalize()
}

} // verus!
