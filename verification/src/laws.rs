//! What holds of the library as a whole, proved from the contracts of its
//! functions.

use crate::checksum::crc32_of;
use crate::codec::{decoded_front, entries_of, entries_span, entry_within, FrontDecoding};
use crate::header::{
    empty_header, header_load_result, header_loaded, DbError, Header, HEADER_SIZE,
};
use crate::integrity::raw_verdict;
use crate::iter::{
    continues_for, created, end_of_pass, pull_begin, pull_resumed, refilled, started, IterState,
    PullView, ScanEnd,
};
use vstd::prelude::*;

verus! {

/// What a pass has come to after some refills.
pub struct Scan {
    /// The iterator after the last step.
    pub state: IterState,
    /// The entries yielded, in order.
    pub yielded: Seq<(u64, Option<Seq<u8>>)>,
    /// How the pass ended, or `None` while it waits for a refill.
    pub end: Option<ScanEnd>,
}

/// Whether a pass ended by reaching the entry count.
pub open spec fn reached_count(end: Option<ScanEnd>) -> bool {
    end == Some(ScanEnd::Complete) || end == Some(ScanEnd::ChecksumMismatch) || end == Some(
        ScanEnd::Unchecked,
    )
}

/// A caller pulling until end of sequence, from the start of a pull on:
/// each request for a refill is answered with the next item of `feeds`.
pub open spec fn scan_from(s: IterState, feeds: Seq<Option<Seq<u8>>>) -> Scan
    decreases feeds.len(), 1int,
{
    let (after, pull) = pull_begin(s);
    match pull {
        PullView::End(end) => Scan { state: after, yielded: Seq::empty(), end: Some(end) },
        _ => scan_resumed(after, feeds),
    }
}

/// The same, from a request for a refill on.
pub open spec fn scan_resumed(s: IterState, feeds: Seq<Option<Seq<u8>>>) -> Scan
    decreases feeds.len(), 0int,
{
    if feeds.len() == 0 {
        Scan { state: s, yielded: Seq::empty(), end: None }
    } else {
        let (after, pull) = pull_resumed(s, feeds[0]);
        match pull {
            PullView::Entry(entry) => {
                let rest = scan_from(after, feeds.skip(1));
                Scan { yielded: seq![entry] + rest.yielded, ..rest }
            },
            PullView::End(end) => Scan { state: after, yielded: Seq::empty(), end: Some(end) },
            PullView::Fetch(_) => scan_resumed(after, feeds.skip(1)),
        }
    }
}

/// Loading the header twice from the same file gives what loading it once
/// gives: the same outcome and the same fields.
pub proof fn lemma_header_load_idempotent(before: Header, file_len: u64, bytes: Seq<u8>)
    ensures
        header_loaded(header_loaded(before, file_len, bytes), file_len, bytes) == header_loaded(
            before,
            file_len,
            bytes,
        ),
{
}

/// A file shorter than a header is an empty table: it loads without
/// error, and a pass over it yields nothing and ends at the first pull,
/// whatever the stream would give.
pub proof fn lemma_short_file_is_empty(
    file_len: u64,
    bytes: Seq<u8>,
    data_size: u32,
    feeds: Seq<Option<Seq<u8>>>,
)
    requires
        file_len < HEADER_SIZE,
    ensures
        header_load_result(file_len, bytes) == Ok::<(), DbError>(()),
        scan_from(
            started(
                IterState {
                    header: header_loaded(empty_header(), file_len, bytes),
                    ..created(data_size)
                },
            ),
            feeds,
        ).yielded.len() == 0,
        reached_count(
            scan_from(
                started(
                    IterState {
                        header: header_loaded(empty_header(), file_len, bytes),
                        ..created(data_size)
                    },
                ),
                feeds,
            ).end,
        ),
{
}

/// A pass over a table of no entries yields nothing and ends at the first
/// pull, whatever the stream would give.
pub proof fn lemma_empty_table_yields_nothing(s: IterState, feeds: Seq<Option<Seq<u8>>>)
    requires
        s.header.entries_count == 0,
    ensures
        scan_from(started(s), feeds).yielded.len() == 0,
        reached_count(scan_from(started(s), feeds).end),
{
}

/// A pass counts what it yields: the cursor advances by the number of
/// entries yielded and never passes the stored count, the header stays as
/// it is, and a pass that ended by reaching the count has yielded every
/// entry that was left.
pub proof fn lemma_scan_counts_entries(s: IterState, feeds: Seq<Option<Seq<u8>>>)
    requires
        s.entry_cur <= s.header.entries_count,
    ensures
        scan_from(s, feeds).state.header == s.header,
        scan_from(s, feeds).state.entry_cur == s.entry_cur + scan_from(s, feeds).yielded.len(),
        scan_from(s, feeds).state.entry_cur <= s.header.entries_count,
        reached_count(scan_from(s, feeds).end) <==> scan_from(s, feeds).state.entry_cur
            == s.header.entries_count,
    decreases feeds.len(), 1int,
{
    if s.entry_cur < s.header.entries_count {
        lemma_resumed_scan_counts_entries(s, feeds);
    }
}

/// The same, from a request for a refill on.
pub proof fn lemma_resumed_scan_counts_entries(s: IterState, feeds: Seq<Option<Seq<u8>>>)
    requires
        s.entry_cur < s.header.entries_count,
    ensures
        scan_resumed(s, feeds).state.header == s.header,
        scan_resumed(s, feeds).state.entry_cur == s.entry_cur + scan_resumed(
            s,
            feeds,
        ).yielded.len(),
        scan_resumed(s, feeds).state.entry_cur <= s.header.entries_count,
        reached_count(scan_resumed(s, feeds).end) <==> scan_resumed(s, feeds).state.entry_cur
            == s.header.entries_count,
    decreases feeds.len(), 0int,
{
    if feeds.len() > 0 {
        let (after, pull) = pull_resumed(s, feeds[0]);
        match pull {
            PullView::Entry(_) => {
                lemma_scan_counts_entries(after, feeds.skip(1));
            },
            PullView::End(_) => {},
            PullView::Fetch(_) => {
                lemma_resumed_scan_counts_entries(after, feeds.skip(1));
            },
        }
    }
}

/// A full pass over a table yields as many entries as the header counts
/// if it ends by reaching the count, and fewer in every other case.
pub proof fn lemma_full_scan_length(s: IterState, feeds: Seq<Option<Seq<u8>>>)
    ensures
        scan_from(started(s), feeds).yielded.len() <= s.header.entries_count,
        reached_count(scan_from(started(s), feeds).end) <==> scan_from(
            started(s),
            feeds,
        ).yielded.len() == s.header.entries_count,
{
    lemma_scan_counts_entries(started(s), feeds);
}

/// Whether every item of `feeds` is what a stream at its end gives: no
/// bytes.
pub open spec fn stream_ended(feeds: Seq<Option<Seq<u8>>>) -> bool {
    forall|i: int|
        0 <= i < feeds.len() ==> (#[trigger] feeds[i] matches Some(chunk) ==> chunk.len() == 0)
}

/// Whether every key of `entries` lies within `[lo, hi]`.
pub open spec fn keys_within(entries: Seq<(u64, Option<Seq<u8>>)>, lo: u64, hi: u64) -> bool {
    forall|i: int| 0 <= i < entries.len() ==> lo <= (#[trigger] entries[i]).0 <= hi
}

/// A pass whose backlog holds exactly the entries that are left, and whose
/// stream is at its end, yields those entries and ends by reaching the
/// count.
pub proof fn lemma_backlog_is_drained(s: IterState, feeds: Seq<Option<Seq<u8>>>)
    requires
        s.entry_cur <= s.header.entries_count,
        s.hashed is Some,
        entries_span(s.backlog, (s.header.entries_count - s.entry_cur) as nat) == Some(
            s.backlog.len(),
        ),
        stream_ended(feeds),
        feeds.len() >= s.header.entries_count - s.entry_cur,
    ensures
        scan_from(s, feeds).yielded == entries_of(
            s.backlog,
            (s.header.entries_count - s.entry_cur) as nat,
        ),
        scan_from(s, feeds).end == Some(end_of_pass(s)),
    decreases feeds.len(),
{
    let left = (s.header.entries_count - s.entry_cur) as nat;
    if left > 0 {
        let d = decoded_front(s.backlog);
        assert(entry_within(d, s.backlog.len()));
        let after = match feeds[0] {
            Some(chunk) => refilled(s, chunk),
            None => s,
        };
        assert(after == s) by {
            if let Some(chunk) = feeds[0] {
                assert(s.backlog + chunk =~= s.backlog);
                assert(s.hashed->0 + chunk =~= s.hashed->0);
            }
        }
        let (next, pull) = pull_resumed(s, feeds[0]);
        assert(pull is Entry);
        assert(next.backlog == s.backlog.skip(d->consumed as int));
        let rest = feeds.skip(1);
        assert(stream_ended(rest)) by {
            assert forall|i: int| 0 <= i < rest.len() implies (#[trigger] rest[i] matches Some(
                chunk,
            ) ==> chunk.len() == 0) by {
                assert(rest[i] == feeds[i + 1]);
            }
        }
        lemma_backlog_is_drained(next, rest);
    }
}

/// A body that passes the strict check is scanned in full. If it fits the
/// backlog and the stream gives it in one piece and then nothing more, a
/// pass yields exactly its entries, as many as the header counts, and ends
/// with a matching checksum.
pub proof fn lemma_sound_body_is_scanned_in_full(
    s: IterState,
    body: Seq<u8>,
    tail: Seq<Option<Seq<u8>>>,
)
    requires
        raw_verdict(s.header, body) is Ok,
        body.len() <= s.capacity,
        stream_ended(tail),
        tail.len() + 1 >= s.header.entries_count,
    ensures
        scan_from(started(s), seq![Some(body)] + tail).yielded == entries_of(
            body,
            s.header.entries_count as nat,
        ),
        scan_from(started(s), seq![Some(body)] + tail).yielded.len() == s.header.entries_count,
        scan_from(started(s), seq![Some(body)] + tail).end == Some(ScanEnd::Complete),
{
    let count = s.header.entries_count as nat;
    let s0 = started(s);
    let feeds = seq![Some(body)] + tail;
    lemma_scan_counts_entries(s0, feeds);
    assert(Seq::<u8>::empty() + body =~= body);
    if count > 0 {
        let d = decoded_front(body);
        assert(entry_within(d, body.len()));
        let filled = refilled(s0, body);
        assert(filled.backlog == body);
        assert(filled.hashed == Some(body));
        assert(feeds[0] == Some(body));
        let (next, pull) = pull_resumed(s0, feeds[0]);
        assert(pull is Entry);
        assert(next.backlog == body.skip(d->consumed as int));
        assert(feeds.skip(1) =~= tail);
        lemma_backlog_is_drained(next, tail);
    }
}

/// The bytes that a stream gives over `feeds`, joined.
pub open spec fn stream_of(feeds: Seq<Option<Seq<u8>>>) -> Seq<u8>
    decreases feeds.len(),
{
    if feeds.len() == 0 {
        Seq::empty()
    } else {
        fed(feeds[0]) + stream_of(feeds.skip(1))
    }
}

/// The bytes of one answer to a request for a refill.
pub open spec fn fed(feed: Option<Seq<u8>>) -> Seq<u8> {
    match feed {
        Some(chunk) => chunk,
        None => Seq::empty(),
    }
}

/// Whether `front` is how `whole` begins.
pub open spec fn is_front_of(front: Seq<u8>, whole: Seq<u8>) -> bool {
    front.len() <= whole.len() && front == whole.take(front.len() as int)
}

/// Whether `body` starts with `count` whole entries that are told apart by
/// their own bytes: from the start of each, whatever front part of the
/// bytes decodes as an entry holds that entry whole and decodes as it.
pub open spec fn self_delimiting(body: Seq<u8>, count: nat) -> bool
    decreases count,
{
    count == 0 || {
        let d = decoded_front(body);
        &&& entry_within(d, body.len())
        &&& forall|k: int|
            0 <= k <= body.len() && (#[trigger] decoded_front(body.take(k))) is Entry ==> {
                &&& decoded_front(body.take(k)) == d
                &&& d->consumed <= k
            }
        &&& self_delimiting(body.skip(d->consumed as int), (count - 1) as nat)
    }
}

/// A pass yields the entries of the file, in the file's order, however the
/// stream cuts the body into pieces. `rest` is the part of the
/// decompressed body that starts with the entry at the cursor; the backlog
/// and what the stream gives are its beginning.
pub proof fn lemma_scan_yields_file_entries(
    s: IterState,
    rest: Seq<u8>,
    feeds: Seq<Option<Seq<u8>>>,
)
    requires
        s.entry_cur <= s.header.entries_count,
        self_delimiting(rest, (s.header.entries_count - s.entry_cur) as nat),
        is_front_of(s.backlog + stream_of(feeds), rest),
    ensures
        scan_from(s, feeds).yielded == entries_of(rest, scan_from(s, feeds).yielded.len()),
    decreases feeds.len(), 1int,
{
    if s.entry_cur < s.header.entries_count {
        lemma_resumed_scan_yields_file_entries(s, rest, feeds);
    }
}

/// The same, from a request for a refill on.
pub proof fn lemma_resumed_scan_yields_file_entries(
    s: IterState,
    rest: Seq<u8>,
    feeds: Seq<Option<Seq<u8>>>,
)
    requires
        s.entry_cur < s.header.entries_count,
        self_delimiting(rest, (s.header.entries_count - s.entry_cur) as nat),
        is_front_of(s.backlog + stream_of(feeds), rest),
    ensures
        scan_resumed(s, feeds).yielded == entries_of(rest, scan_resumed(s, feeds).yielded.len()),
    decreases feeds.len(), 0int,
{
    if feeds.len() > 0 {
        let later = feeds.skip(1);
        let after = match feeds[0] {
            Some(chunk) => refilled(s, chunk),
            None => s,
        };
        let held = after.backlog;
        let coming = stream_of(later);
        assert(held =~= s.backlog + fed(feeds[0]));
        assert(held + coming =~= s.backlog + stream_of(feeds));
        assert(held =~= rest.take(held.len() as int));
        let (next, pull) = pull_resumed(s, feeds[0]);
        match pull {
            PullView::Entry(entry) => {
                let d = decoded_front(rest);
                assert(decoded_front(rest.take(held.len() as int)) is Entry);
                assert(decoded_front(held) == d);
                let c = d->consumed as int;
                assert(next.backlog == held.skip(c));
                assert(held.skip(c) + coming =~= (held + coming).skip(c));
                assert((held + coming).skip(c) =~= rest.skip(c).take(held.len() + coming.len() - c));
                lemma_scan_yields_file_entries(next, rest.skip(c), later);
                let tail = scan_from(next, later).yielded;
                assert(scan_resumed(s, feeds).yielded == seq![entry] + tail);
                assert(entries_of(rest, (tail.len() + 1) as nat) == seq![entry] + entries_of(
                    rest.skip(c),
                    tail.len(),
                ));
            },
            PullView::End(_) => {},
            PullView::Fetch(_) => {
                assert(next == after);
                lemma_resumed_scan_yields_file_entries(next, rest, later);
            },
        }
    }
}

/// The first entries of a body are the same, however many are asked for.
pub proof fn lemma_entries_of_agree(body: Seq<u8>, fewer: nat, more: nat, i: int)
    requires
        fewer <= more,
        0 <= i < entries_of(body, fewer).len(),
    ensures
        i < entries_of(body, more).len(),
        entries_of(body, fewer)[i] == entries_of(body, more)[i],
    decreases fewer,
{
    let d = decoded_front(body);
    if i > 0 {
        lemma_entries_of_agree(
            body.skip(d->consumed as int),
            (fewer - 1) as nat,
            (more - 1) as nat,
            i - 1,
        );
    }
}

/// In a table whose entries are told apart by their own bytes and have
/// their keys within the range that the header gives, every key that a
/// full pass yields lies within that range, however the stream cuts the
/// body into pieces.
pub proof fn lemma_yielded_keys_in_range(s: IterState, body: Seq<u8>, feeds: Seq<Option<Seq<u8>>>)
    requires
        self_delimiting(body, s.header.entries_count as nat),
        keys_within(
            entries_of(body, s.header.entries_count as nat),
            s.header.min_key,
            s.header.max_key,
        ),
        is_front_of(stream_of(feeds), body),
    ensures
        keys_within(scan_from(started(s), feeds).yielded, s.header.min_key, s.header.max_key),
{
    let s0 = started(s);
    let yielded = scan_from(s0, feeds).yielded;
    assert(s0.backlog + stream_of(feeds) =~= stream_of(feeds));
    lemma_scan_yields_file_entries(s0, body, feeds);
    lemma_scan_counts_entries(s0, feeds);
    assert forall|i: int| 0 <= i < yielded.len() implies s.header.min_key <= (
    #[trigger] yielded[i]).0 <= s.header.max_key by {
        lemma_entries_of_agree(body, yielded.len(), s.header.entries_count as nat, i);
    }
}

/// Whether `body` starts with `count` whole entries that a reader of a
/// stream recognises: from the start of each, a front part of the bytes
/// decodes as that entry once it holds the entry whole, and as a partial
/// entry before.
pub open spec fn streamable(body: Seq<u8>, count: nat) -> bool
    decreases count,
{
    count == 0 || {
        let d = decoded_front(body);
        &&& entry_within(d, body.len())
        &&& forall|k: int|
            0 <= k <= body.len() ==> #[trigger] decoded_front(body.take(k)) == if k
                >= d->consumed {
                d
            } else {
                FrontDecoding::Incomplete
            }
        &&& streamable(body.skip(d->consumed as int), (count - 1) as nat)
    }
}

/// Whether `feeds` is what a stream gives that has data for the first
/// `cut` requests, some bytes each time, and has ended after them.
pub open spec fn delivers(feeds: Seq<Option<Seq<u8>>>, cut: nat) -> bool {
    &&& cut <= feeds.len()
    &&& forall|i: int| 0 <= i < cut ==> fed(#[trigger] feeds[i]).len() > 0
    &&& forall|i: int| cut <= i < feeds.len() ==> fed(#[trigger] feeds[i]).len() == 0
}

/// A stream that has ended gives no bytes.
proof fn lemma_ended_stream_is_empty(feeds: Seq<Option<Seq<u8>>>)
    requires
        delivers(feeds, 0),
    ensures
        stream_of(feeds).len() == 0,
        stream_ended(feeds),
    decreases feeds.len(),
{
    if feeds.len() > 0 {
        let later = feeds.skip(1);
        assert forall|i: int| 0 <= i < later.len() implies fed(#[trigger] later[i]).len()
            == 0 by {
            assert(later[i] == feeds[i + 1]);
        }
        lemma_ended_stream_is_empty(later);
    }
    assert forall|i: int| 0 <= i < feeds.len() implies (#[trigger] feeds[i] matches Some(chunk)
        ==> chunk.len() == 0) by {
        assert(fed(feeds[i]).len() == 0);
    }
}

/// What is left of a stream after its first answer.
proof fn lemma_delivers_later(feeds: Seq<Option<Seq<u8>>>, cut: nat)
    requires
        delivers(feeds, cut),
        feeds.len() > 0,
    ensures
        delivers(feeds.skip(1), if cut > 0 { (cut - 1) as nat } else { 0 }),
{
    let later = feeds.skip(1);
    assert forall|i: int| 0 <= i < later.len() implies later[i] == feeds[i + 1] by {}
}

/// A sound file is scanned in full, however the stream cuts its body into
/// pieces. Let a file pass the strict check, with entries that a reader
/// of a stream recognises, and let the stream give the decompressed body
/// piece by piece and then nothing more. Then a pass yields exactly the
/// file's entries, as many as the header counts, and ends with a matching
/// checksum.
pub proof fn lemma_sound_file_is_scanned_in_full(
    s: IterState,
    body: Seq<u8>,
    feeds: Seq<Option<Seq<u8>>>,
    cut: nat,
)
    requires
        raw_verdict(s.header, body) is Ok,
        streamable(body, s.header.entries_count as nat),
        delivers(feeds, cut),
        stream_of(feeds) == body,
        feeds.len() - cut >= s.header.entries_count,
    ensures
        scan_from(started(s), feeds).yielded == entries_of(body, s.header.entries_count as nat),
        scan_from(started(s), feeds).yielded.len() == s.header.entries_count,
        scan_from(started(s), feeds).end == Some(ScanEnd::Complete),
{
    let s0 = started(s);
    assert(s0.backlog + stream_of(feeds) =~= body);
    assert(s0.hashed->0 + stream_of(feeds) =~= body);
    lemma_scan_is_full(s0, body, body, feeds, cut);
    lemma_scan_counts_entries(s0, feeds);
}

/// The same, for a pass under way: `rest` is the part of the body that
/// starts with the entry at the cursor.
proof fn lemma_scan_is_full(
    s: IterState,
    rest: Seq<u8>,
    body: Seq<u8>,
    feeds: Seq<Option<Seq<u8>>>,
    cut: nat,
)
    requires
        s.entry_cur <= s.header.entries_count,
        s.hashed is Some,
        crc32_of(body) == s.header.raw_checksum,
        streamable(rest, (s.header.entries_count - s.entry_cur) as nat),
        entries_span(rest, (s.header.entries_count - s.entry_cur) as nat) == Some(rest.len()),
        delivers(feeds, cut),
        feeds.len() - cut >= s.header.entries_count - s.entry_cur,
        s.backlog + stream_of(feeds) == rest,
        s.hashed->0 + stream_of(feeds) == body,
    ensures
        scan_from(s, feeds).yielded == entries_of(
            rest,
            (s.header.entries_count - s.entry_cur) as nat,
        ),
        scan_from(s, feeds).end == Some(ScanEnd::Complete),
    decreases feeds.len(), 1int,
{
    if s.entry_cur < s.header.entries_count {
        lemma_resumed_scan_is_full(s, rest, body, feeds, cut);
    } else {
        assert(rest.len() == 0);
        assert(stream_of(feeds).len() == 0);
        assert(s.hashed->0 + stream_of(feeds) =~= s.hashed->0);
    }
}

/// The same, from a request for a refill on.
proof fn lemma_resumed_scan_is_full(
    s: IterState,
    rest: Seq<u8>,
    body: Seq<u8>,
    feeds: Seq<Option<Seq<u8>>>,
    cut: nat,
)
    requires
        s.entry_cur < s.header.entries_count,
        s.hashed is Some,
        crc32_of(body) == s.header.raw_checksum,
        streamable(rest, (s.header.entries_count - s.entry_cur) as nat),
        entries_span(rest, (s.header.entries_count - s.entry_cur) as nat) == Some(rest.len()),
        delivers(feeds, cut),
        feeds.len() - cut >= s.header.entries_count - s.entry_cur,
        s.backlog + stream_of(feeds) == rest,
        s.hashed->0 + stream_of(feeds) == body,
    ensures
        scan_resumed(s, feeds).yielded == entries_of(
            rest,
            (s.header.entries_count - s.entry_cur) as nat,
        ),
        scan_resumed(s, feeds).end == Some(ScanEnd::Complete),
    decreases feeds.len(), 0int,
{
    let later = feeds.skip(1);
    let chunk = fed(feeds[0]);
    let coming = stream_of(later);
    let d = decoded_front(rest);
    let c = d->consumed as int;
    let after = match feeds[0] {
        Some(bytes) => refilled(s, bytes),
        None => s,
    };
    let held = s.backlog + chunk;
    lemma_delivers_later(feeds, cut);
    if cut == 0 {
        lemma_ended_stream_is_empty(feeds);
        lemma_ended_stream_is_empty(later);
        assert(chunk.len() == 0);
        assert(held =~= s.backlog);
        assert(s.backlog =~= rest);
        assert(s.hashed->0 + chunk =~= s.hashed->0);
        assert(after == s);
    } else {
        assert(chunk.len() > 0);
        assert(feeds[0] == Some(chunk));
    }
    assert(after.backlog == held);
    assert(after.hashed->0 =~= s.hashed->0 + chunk);
    assert(held + coming =~= rest);
    assert(after.hashed->0 + coming =~= body);
    assert(held =~= rest.take(held.len() as int));
    let (next, pull) = pull_resumed(s, feeds[0]);
    if held.len() >= c {
        assert(decoded_front(held) == d);
        assert(pull is Entry);
        assert(next.backlog == held.skip(c));
        assert(held.skip(c) + coming =~= rest.skip(c));
        lemma_scan_is_full(next, rest.skip(c), body, later, if cut > 0 {
            (cut - 1) as nat
        } else {
            0
        });
    } else {
        assert(decoded_front(held) == FrontDecoding::Incomplete);
        assert(cut > 0);
        assert(pull is Fetch);
        assert(next == after);
        lemma_resumed_scan_is_full(next, rest, body, later, (cut - 1) as nat);
    }
}

/// The index of the first of `keys`, from index `from` on, that is not
/// below `key`; the length of `keys` if there is none.
pub open spec fn first_at_or_after(keys: Seq<u64>, from: int, key: u64) -> int
    decreases keys.len() - from,
{
    if from < 0 || from >= keys.len() {
        keys.len() as int
    } else if keys[from] >= key {
        from
    } else {
        first_at_or_after(keys, from + 1, key)
    }
}

/// Whether `keys` never decrease.
pub open spec fn non_decreasing(keys: Seq<u64>) -> bool {
    forall|i: int, j: int| 0 <= i <= j < keys.len() ==> keys[i] <= keys[j]
}

/// The key yielded last by a pass that has yielded the first `pos` of
/// `keys`.
pub open spec fn last_key_at(keys: Seq<u64>, pos: int) -> Option<u64> {
    if 0 < pos <= keys.len() {
        Some(keys[pos - 1])
    } else {
        None
    }
}

/// Anchored starts lose nothing. In a table whose keys never decrease, a
/// pass that has yielded the first `pos` entries and goes on for `key`
/// comes to the same entry as a pass begun anew: the first one whose key
/// is not below `key`.
pub proof fn lemma_anchored_start_finds_same_entry(keys: Seq<u64>, pos: int, key: u64)
    requires
        non_decreasing(keys),
        0 <= pos <= keys.len(),
        continues_for(last_key_at(keys, pos), key),
    ensures
        first_at_or_after(keys, pos, key) == first_at_or_after(keys, 0, key),
{
    lemma_skips_lower_keys(keys, 0, pos, key);
}

/// Looking for `key` from `from` on passes over every key below it.
proof fn lemma_skips_lower_keys(keys: Seq<u64>, from: int, pos: int, key: u64)
    requires
        0 <= from <= pos <= keys.len(),
        forall|j: int| from <= j < pos ==> keys[j] < key,
    ensures
        first_at_or_after(keys, from, key) == first_at_or_after(keys, pos, key),
    decreases pos - from,
{
    if from < pos {
        lemma_skips_lower_keys(keys, from + 1, pos, key);
    }
}


} // verus!
