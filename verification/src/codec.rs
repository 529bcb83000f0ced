//! Entries and their binary encoding.
//!
//! An entry is encoded by `bincode`, in its standard configuration, as the
//! pair of its key and its optional value: the key as a variable-length
//! integer, then a tag byte, then for a value its length and its bytes.

use vstd::prelude::*;

verus! {

/// What an entry holds for its key.
#[derive(Clone, Debug, PartialEq, Eq)]
pub enum DataStore {
    /// The stored bytes.
    Value(Vec<u8>),
    /// A tombstone: the key has been deleted.
    Deleted,
}

/// One entry of a table: a key and what is stored for it.
#[derive(Clone, Debug, PartialEq, Eq)]
pub struct KvStore(pub u64, pub DataStore);

impl DataStore {
    /// The stored bytes, or `None` for a tombstone.
    pub open spec fn payload(self) -> Option<Seq<u8>> {
        match self {
            DataStore::Value(bytes) => Some(bytes@),
            DataStore::Deleted => None,
        }
    }

    /// Whether this is a tombstone.
    pub fn is_deleted(&self) -> (deleted: bool)
        ensures
            deleted == (self.payload() is None),
    {
        match self {
            DataStore::Value(_) => false,
            DataStore::Deleted => true,
        }
    }
}

impl View for KvStore {
    type V = (u64, Option<Seq<u8>>);

    open spec fn view(&self) -> (u64, Option<Seq<u8>>) {
        (self.0, self.1.payload())
    }
}

impl KvStore {
    /// The entry's key.
    pub fn key(&self) -> (key: u64)
        ensures
            key == self@.0,
    {
        self.0
    }
}

/// What decoding the front of a buffer gave.
#[derive(Debug)]
pub enum Decoded {
    /// A whole entry, encoded in the first `consumed` bytes.
    Entry { key: u64, value: Option<Vec<u8>>, consumed: usize },
    /// The buffer ends before the entry does.
    Incomplete,
    /// The bytes are no encoding of an entry.
    Malformed,
}

/// The mathematical value of a `Decoded`.
pub enum FrontDecoding {
    Entry { key: u64, value: Option<Seq<u8>>, consumed: nat },
    Incomplete,
    Malformed,
}

impl View for Decoded {
    type V = FrontDecoding;

    open spec fn view(&self) -> FrontDecoding {
        match self {
            Decoded::Entry { key, value, consumed } => FrontDecoding::Entry {
                key: *key,
                value: match value {
                    Some(bytes) => Some(bytes@),
                    None => None,
                },
                consumed: *consumed as nat,
            },
            Decoded::Incomplete => FrontDecoding::Incomplete,
            Decoded::Malformed => FrontDecoding::Malformed,
        }
    }
}

/// What `bincode` decodes from the front of `bytes` as one entry.
pub uninterp spec fn decoded_front(bytes: Seq<u8>) -> FrontDecoding;

/// Decodes one entry from the front of `bytes` with
/// `bincode::borrow_decode_from_slice`, in the standard configuration, as a
/// pair of a `u64` and an optional byte string.
///
/// Trusted: the outcome depends on the bytes alone, and a decoded entry was
/// read from within the slice. The error `UnexpectedEnd` is reported as
/// `Incomplete`; so is `OutsideUsizeRange`, a length beyond what any buffer
/// of this machine holds, so that the outcome is the same on every machine.
/// Every other error is reported as `Malformed`.
#[verifier::external_body]
pub(crate) fn decode_front(bytes: &[u8]) -> (out: Decoded)
    ensures
        out@ == decoded_front(bytes@),
        out matches Decoded::Entry { consumed, .. } ==> consumed <= bytes@.len(),
{
    let config = bincode::config::standard();
    match bincode::borrow_decode_from_slice::<(u64, Option<&[u8]>), _>(bytes, config) {
        Ok(((key, value), consumed)) => Decoded::Entry {
            key,
            value: value.map(<[u8]>::to_vec),
            consumed,
        },
        Err(bincode::error::DecodeError::UnexpectedEnd { .. }) => Decoded::Incomplete,
        Err(bincode::error::DecodeError::OutsideUsizeRange(_)) => Decoded::Incomplete,
        Err(_) => Decoded::Malformed,
    }
}

/// Whether `d` is an entry that takes up the front of a buffer of `len`
/// bytes: at least one byte of it, and no more than it holds.
pub open spec fn entry_within(d: FrontDecoding, len: nat) -> bool {
    d matches FrontDecoding::Entry { consumed, .. } && 0 < consumed <= len
}

/// The entry that a decoding holds.
pub open spec fn entry_of(d: FrontDecoding) -> (u64, Option<Seq<u8>>)
    recommends
        d is Entry,
{
    (d->key, d->value)
}

/// The total length of the first `count` entries encoded back to back at
/// the front of `body`, or `None` where `body` does not start with that
/// many whole entries.
pub open spec fn entries_span(body: Seq<u8>, count: nat) -> Option<nat>
    decreases count,
{
    if count == 0 {
        Some(0)
    } else {
        let d = decoded_front(body);
        if entry_within(d, body.len()) {
            match entries_span(body.skip(d->consumed as int), (count - 1) as nat) {
                Some(rest) => Some(d->consumed + rest),
                None => None,
            }
        } else {
            None
        }
    }
}

/// The first `count` entries encoded back to back at the front of `body`,
/// as far as `body` starts with whole entries.
pub open spec fn entries_of(body: Seq<u8>, count: nat) -> Seq<(u64, Option<Seq<u8>>)>
    decreases count,
{
    if count == 0 {
        Seq::empty()
    } else {
        let d = decoded_front(body);
        if entry_within(d, body.len()) {
            seq![entry_of(d)] + entries_of(body.skip(d->consumed as int), (count - 1) as nat)
        } else {
            Seq::empty()
        }
    }
}

} // verus!
