//! Forward-only iteration over one SSTable file.
//!
//! `SSTableIter` holds the cached header, the cursor, the backlog of
//! decompressed bytes that are not decoded yet, and the running checksum.
//! It never touches the file. A pull is a short exchange: `next` either
//! ends the pass or asks for a refill; the caller reads from its
//! decompressing stream and hands the bytes to `resume`, which yields an
//! entry, ends the pass, or asks again.

use crate::checksum::{crc32_of, hashed_bytes};
use crate::codec::{decode_front, decoded_front, DataStore, Decoded, FrontDecoding, KvStore};
use crate::header::{empty_header, header_load_result, header_loaded, DbError, Header};
use vstd::prelude::*;

verus! {

/// Customary size hint for an iterator's backlog.
pub const SSTABLE_ITER_BUF_SIZE: usize = 0x800;

/// Why a pass over the file ended.
#[derive(Clone, Copy, Debug, PartialEq, Eq, Structural)]
pub enum ScanEnd {
    /// Every entry was yielded and the decompressed bytes have the stored
    /// checksum.
    Complete,
    /// Every entry was yielded, but the decompressed bytes do not have the
    /// stored checksum.
    ChecksumMismatch,
    /// Every entry was yielded; no running checksum was there to compare.
    Unchecked,
    /// The stream ended between two entries, before the stored count was
    /// reached.
    StreamEnded,
    /// The stream gave nothing more while the backlog holds only a part of
    /// an entry.
    Truncated,
    /// The backlog does not start with an encoded entry.
    Malformed,
}

/// The answer to one step of a pull.
#[derive(Debug, PartialEq, Eq)]
pub enum Pull {
    /// The next entry of the table.
    Entry(KvStore),
    /// End of sequence.
    End(ScanEnd),
    /// Read up to this many decompressed bytes and call `resume`.
    Fetch(u64),
}

/// The mathematical value of a `Pull`.
pub enum PullView {
    Entry((u64, Option<Seq<u8>>)),
    End(ScanEnd),
    Fetch(nat),
}

impl View for Pull {
    type V = PullView;

    open spec fn view(&self) -> PullView {
        match self {
            Pull::Entry(entry) => PullView::Entry(entry@),
            Pull::End(end) => PullView::End(*end),
            Pull::Fetch(room) => PullView::Fetch(*room as nat),
        }
    }
}

/// The mathematical value of an iterator.
pub struct IterState {
    /// The cached header.
    pub header: Header,
    /// How many entries this pass has yielded.
    pub entry_cur: u32,
    /// The key of the entry yielded last in this pass.
    pub last_entry_key: Option<u64>,
    /// How many decompressed bytes this pass has taken in.
    pub bytes_read: nat,
    /// The bytes that the running checksum covers, while there is one.
    pub hashed: Option<Seq<u8>>,
    /// Decompressed bytes that are not decoded yet.
    pub backlog: Seq<u8>,
    /// The most that the backlog may hold.
    pub capacity: nat,
}

/// An iterator as it is made, before any header is loaded.
pub open spec fn created(data_size: u32) -> IterState {
    IterState {
        header: empty_header(),
        entry_cur: 0,
        last_entry_key: None,
        bytes_read: 0,
        hashed: None,
        backlog: Seq::empty(),
        capacity: 2 * (data_size as nat),
    }
}

/// The state at the beginning of a pass: nothing yielded, nothing read, an
/// empty backlog and a fresh running checksum.
pub open spec fn started(s: IterState) -> IterState {
    IterState {
        entry_cur: 0,
        last_entry_key: None,
        bytes_read: 0,
        hashed: Some(Seq::empty()),
        backlog: Seq::empty(),
        ..s
    }
}

/// Whether a pass that yielded `last` as its latest key serves a caller who
/// now asks for `key`: it does when that key lies strictly before `key`.
pub open spec fn continues_for(last: Option<u64>, key: u64) -> bool {
    last matches Some(k) && k < key
}

/// How many more bytes the backlog can take.
pub open spec fn room(s: IterState) -> nat {
    (s.capacity - s.backlog.len()) as nat
}

/// The state after `chunk` came from the stream: counted, covered by the
/// running checksum, and appended to the backlog. A missing checksum starts
/// with this chunk.
pub open spec fn refilled(s: IterState, chunk: Seq<u8>) -> IterState {
    IterState {
        bytes_read: s.bytes_read + chunk.len(),
        hashed: Some(
            match s.hashed {
                Some(h) => h + chunk,
                None => chunk,
            },
        ),
        backlog: s.backlog + chunk,
        ..s
    }
}

/// How a pass ends once the cursor has reached the entry count.
pub open spec fn end_of_pass(s: IterState) -> ScanEnd {
    match s.hashed {
        Some(h) => if crc32_of(h) == s.header.raw_checksum {
            ScanEnd::Complete
        } else {
            ScanEnd::ChecksumMismatch
        },
        None => ScanEnd::Unchecked,
    }
}

/// The first step of a pull. With every entry yielded the pass ends, and
/// the running checksum is given up; else a refill is asked for.
pub open spec fn pull_begin(s: IterState) -> (IterState, PullView) {
    if s.entry_cur >= s.header.entries_count {
        (IterState { hashed: None, ..s }, PullView::End(end_of_pass(s)))
    } else {
        (s, PullView::Fetch(room(s)))
    }
}

/// What follows from decoding the front of the backlog, after a refill of
/// `fetched` bytes.
pub open spec fn decode_applied(s: IterState, fetched: nat, d: FrontDecoding) -> (
    IterState,
    PullView,
) {
    match d {
        FrontDecoding::Entry { key, value, consumed } => (
            IterState {
                entry_cur: (s.entry_cur + 1) as u32,
                last_entry_key: Some(key),
                backlog: s.backlog.skip(consumed as int),
                ..s
            },
            PullView::Entry((key, value)),
        ),
        FrontDecoding::Incomplete => if fetched == 0 {
            (s, PullView::End(ScanEnd::Truncated))
        } else {
            (s, PullView::Fetch(room(s)))
        },
        FrontDecoding::Malformed => (s, PullView::End(ScanEnd::Malformed)),
    }
}

/// The step of a pull that follows a refill. `fetched` is what the stream
/// gave, or `None` where the read failed or there is no stream.
pub open spec fn pull_resumed(s: IterState, fetched: Option<Seq<u8>>) -> (IterState, PullView) {
    let after = match fetched {
        Some(chunk) => refilled(s, chunk),
        None => s,
    };
    let n = match fetched {
        Some(chunk) => chunk.len(),
        None => 0,
    };
    if n == 0 && after.backlog.len() == 0 {
        (after, PullView::End(ScanEnd::StreamEnded))
    } else {
        decode_applied(after, n, decoded_front(after.backlog))
    }
}

/// Whether a chunk may be handed to the iterator: it fits the backlog, and
/// the byte counter can count it.
pub open spec fn chunk_fits(s: IterState, chunk: Seq<u8>) -> bool {
    chunk.len() <= room(s) && s.bytes_read + chunk.len() <= usize::MAX
}

/// Appends `chunk` to `buf`.
fn append_bytes(buf: &mut Vec<u8>, chunk: &[u8])
    ensures
        final(buf)@ == old(buf)@ + chunk@,
{
    let n: usize = chunk.len();
    let mut i: usize = 0;
    while i < n
        invariant
            n == chunk@.len(),
            i <= n,
            buf@ == old(buf)@ + chunk@.subrange(0, i as int),
        decreases n - i,
    {
        buf.push(chunk[i]);
        i = i + 1;
        proof {
            assert(chunk@.subrange(0, i as int) =~= chunk@.subrange(0, i - 1).push(
                chunk@[i - 1],
            ));
            assert(buf@ =~= old(buf)@ + chunk@.subrange(0, i as int));
        }
    }
    proof {
        assert(chunk@.subrange(0, n as int) =~= chunk@);
    }
}

/// The read state of one SSTable file.
pub struct SSTableIter {
    header: Header,
    entry_cur: u32,
    last_entry_key: Option<u64>,
    bytes_read: usize,
    hasher: Option<crc32fast::Hasher>,
    buf: Vec<u8>,
    capacity: u64,
}

impl View for SSTableIter {
    type V = IterState;

    closed spec fn view(&self) -> IterState {
        IterState {
            header: self.header,
            entry_cur: self.entry_cur,
            last_entry_key: self.last_entry_key,
            bytes_read: self.bytes_read as nat,
            hashed: match self.hasher {
                Some(h) => Some(hashed_bytes(h)),
                None => None,
            },
            backlog: self.buf@,
            capacity: self.capacity as nat,
        }
    }
}

impl SSTableIter {
    /// The invariant of an iterator: the backlog stays within its capacity.
    pub open spec fn wf(&self) -> bool {
        self@.backlog.len() <= self@.capacity
    }

    /// Makes the iterator of a file of length `file_len` that starts with
    /// `header_bytes`, with a backlog of twice `data_size` bytes, and loads
    /// the header.
    pub fn new(file_len: u64, header_bytes: &[u8], data_size: u32) -> (r: Result<Self, DbError>)
        ensures
            match r {
                Ok(it) => it.wf() && header_load_result(file_len, header_bytes@) is Ok && it@ == (
                IterState {
                    header: header_loaded(empty_header(), file_len, header_bytes@),
                    ..created(data_size)
                }),
                Err(e) => header_load_result(file_len, header_bytes@) == Err::<(), DbError>(e),
            },
    {
        let wide: u64 = data_size as u64;
        let mut it = SSTableIter {
            header: Header::empty(),
            entry_cur: 0,
            last_entry_key: None,
            bytes_read: 0,
            hasher: None,
            buf: Vec::new(),
            capacity: wide * 2,
        };
        match it.recreate(file_len, header_bytes) {
            Ok(()) => Ok(it),
            Err(e) => Err(e),
        }
    }

    /// Loads the header again, from a file of length `file_len` that starts
    /// with `header_bytes`. The pass in progress is not touched.
    pub fn recreate(&mut self, file_len: u64, header_bytes: &[u8]) -> (r: Result<(), DbError>)
        requires
            old(self).wf(),
        ensures
            final(self).wf(),
            r == header_load_result(file_len, header_bytes@),
            final(self)@ == (IterState {
                header: header_loaded(old(self)@.header, file_len, header_bytes@),
                ..old(self)@
            }),
    {
        let mut header = self.header;
        let r = header.load(file_len, header_bytes);
        self.header = header;
        r
    }

    /// Begins a pass at the first entry. The caller opens a fresh stream
    /// just past the header.
    pub fn init_iter(&mut self)
        requires
            old(self).wf(),
        ensures
            final(self).wf(),
            final(self)@ == started(old(self)@),
    {
        self.entry_cur = 0;
        self.hasher = Some(crc32fast::Hasher::new());
        self.last_entry_key = None;
        self.bytes_read = 0;
        self.buf.clear();
    }

    /// Begins a pass for a caller who wants the entries from `key` on. A
    /// pass whose latest key lies strictly before `key` goes on as it is;
    /// otherwise a pass is begun, and the result is `true`: the caller then
    /// opens a fresh stream.
    ///
    /// This relies on callers asking for keys in non-decreasing order.
    pub fn init_iter_for_key(&mut self, key: u64) -> (restarted: bool)
        requires
            old(self).wf(),
        ensures
            final(self).wf(),
            restarted == !continues_for(old(self)@.last_entry_key, key),
            final(self)@ == if restarted {
                started(old(self)@)
            } else {
                old(self)@
            },
    {
        if let Some(last_key) = self.last_entry_key {
            if last_key < key {
                return false;
            }
        }
        self.init_iter();
        true
    }

    /// How many bytes the next refill may bring.
    pub fn fetch_room(&self) -> (n: u64)
        requires
            self.wf(),
        ensures
            n == room(self@),
    {
        let held: u64 = self.buf.len() as u64;
        self.capacity - held
    }

    /// Takes in a chunk of decompressed bytes: counts it, feeds it to the
    /// running checksum and appends it to the backlog. Returns its length;
    /// zero means that the stream has no more data.
    pub fn fetch_more(&mut self, chunk: &[u8]) -> (n: usize)
        requires
            old(self).wf(),
            chunk_fits(old(self)@, chunk@),
        ensures
            final(self).wf(),
            n == chunk@.len(),
            final(self)@ == refilled(old(self)@, chunk@),
    {
        let n: usize = chunk.len();
        self.bytes_read = self.bytes_read + n;
        let mut hasher = match self.hasher.take() {
            Some(h) => h,
            None => crc32fast::Hasher::new(),
        };
        hasher.update(chunk);
        self.hasher = Some(hasher);
        append_bytes(&mut self.buf, chunk);
        proof {
            assert(Seq::<u8>::empty() + chunk@ =~= chunk@);
        }
        n
    }

    /// The first step of a pull. Once the cursor has reached the entry
    /// count, the pass is over: the running checksum, if there is one, is
    /// compared with the stored one and given up. Before that, the answer
    /// asks for a refill.
    pub fn next(&mut self) -> (out: Pull)
        requires
            old(self).wf(),
        ensures
            final(self).wf(),
            (final(self)@, out@) == pull_begin(old(self)@),
    {
        if self.entry_cur >= self.header.entries_count {
            let end = match self.hasher.take() {
                Some(hasher) => {
                    let sum: u32 = hasher.finalize();
                    if sum == self.header.raw_checksum {
                        ScanEnd::Complete
                    } else {
                        ScanEnd::ChecksumMismatch
                    }
                },
                None => ScanEnd::Unchecked,
            };
            Pull::End(end)
        } else {
            Pull::Fetch(self.fetch_room())
        }
    }

    /// The step of a pull after a refill: takes in what the stream gave
    /// (`None` where the read failed, or where there is no stream), then
    /// decodes the front of the backlog.
    pub fn resume(&mut self, fetched: Option<&[u8]>) -> (out: Pull)
        requires
            old(self).wf(),
            old(self)@.entry_cur < old(self)@.header.entries_count,
            fetched matches Some(chunk) ==> chunk_fits(old(self)@, chunk@),
        ensures
            final(self).wf(),
            (final(self)@, out@) == pull_resumed(
                old(self)@,
                match fetched {
                    Some(chunk) => Some(chunk@),
                    None => None,
                },
            ),
    {
        let n: usize = match fetched {
            Some(chunk) => self.fetch_more(chunk),
            None => 0,
        };
        if n == 0 && self.buf.len() == 0 {
            return Pull::End(ScanEnd::StreamEnded);
        }
        let outcome = decode_front(self.buf.as_slice());
        self.apply_decoded(n, outcome)
    }

    /// Acts on what decoding the front of the backlog gave, after a refill
    /// of `fetched` bytes.
    ///
    /// An entry is yielded: the cursor advances, its bytes leave the
    /// backlog and its key is remembered. A partial entry asks for another
    /// refill, unless the last one brought nothing: then the pass ends. So
    /// it does on bytes that are no entry.
    pub fn apply_decoded(&mut self, fetched: usize, outcome: Decoded) -> (out: Pull)
        requires
            old(self).wf(),
            old(self)@.entry_cur < old(self)@.header.entries_count,
            outcome matches Decoded::Entry { consumed, .. } ==> consumed <= old(self)@.backlog.len(),
        ensures
            final(self).wf(),
            (final(self)@, out@) == decode_applied(old(self)@, fetched as nat, outcome@),
    {
        match outcome {
            Decoded::Entry { key, value, consumed } => {
                self.entry_cur = self.entry_cur + 1;
                let rest = self.buf.split_off(consumed);
                self.buf = rest;
                self.last_entry_key = Some(key);
                proof {
                    assert(self.buf@ =~= old(self).buf@.skip(consumed as int));
                }
                let stored = match value {
                    Some(bytes) => DataStore::Value(bytes),
                    None => DataStore::Deleted,
                };
                Pull::Entry(KvStore(key, stored))
            },
            Decoded::Incomplete => {
                if fetched == 0 {
                    Pull::End(ScanEnd::Truncated)
                } else {
                    Pull::Fetch(self.fetch_room())
                }
            },
            Decoded::Malformed => Pull::End(ScanEnd::Malformed),
        }
    }

    /// The cached header.
    pub fn header(&self) -> (h: Header)
        ensures
            h == self@.header,
    {
        self.header
    }

    /// How many entries this pass has yielded.
    pub fn entry_cur(&self) -> (n: u32)
        ensures
            n == self@.entry_cur,
    {
        self.entry_cur
    }

    /// The key of the entry yielded last in this pass.
    pub fn last_entry_key(&self) -> (key: Option<u64>)
        ensures
            key == self@.last_entry_key,
    {
        self.last_entry_key
    }

    /// How many decompressed bytes this pass has taken in.
    pub fn bytes_read(&self) -> (n: usize)
        ensures
            n == self@.bytes_read,
    {
        self.bytes_read
    }
}

} // verus!
