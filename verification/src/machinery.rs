//! The download orchestrator: planning, per-part accounting, retry
//! decisions, and the deterministic end-to-end pipeline.
//!
//! The pipeline works through the planned parts in part index order;
//! that is one legal schedule of the concurrent machinery, whose
//! interleaving across parts is unspecified anyway. The building blocks
//! a concurrent host drives itself — the worker queue, the round-robin
//! dispatcher, the kill switch and the completion watcher — live in
//! [`sequential`], [`concurrent`] and [`downloaders`].

pub mod concurrent;
pub(crate) mod driver;
pub mod downloaders;
pub mod range_stream;
pub mod sequential;

use vstd::prelude::*;

use crate::condow_client::SimClient;
use crate::config::Config;
use crate::errors::{CondowError, CondowErrorKind};
use crate::range::{DownloadRange, GetSizeMode, InclusiveRange};
use crate::machinery::range_stream::{RangeRequest, RangeStream};
use crate::machinery::sequential::{
    appended, download_part, extends, nonterminal_extension, PartOutcome,
};
use crate::machinery::sequential::{
    last_err_is_spec, last_err_kind_spec, nth_response_spec, part_outcome_forced, rel_chunk_wf,
    rel_chunks_wf,
};
use crate::config::RetryConfig;
use crate::reporter::{
    lemma_no_terminal_count, lemma_terminal_count_push, terminal_count, SinkEvent,
};
use crate::streams::bytes_hint::BytesHint;
use crate::streams::chunk::{
    err_count, items_bytes, items_ok, lemma_err_count_push, lemma_items_bytes_add,
    lemma_items_ok_err_count, Chunk, ChunkStreamItem,
};
use crate::streams::chunk::lemma_items_bytes_push;
use crate::streams::chunk_stream::{items_sequential_from, ChunkStream};

verus! {

/// A cooperative abort flag: any worker or the dispatcher arms it, and
/// every worker checks it before contacting the store again.
///
/// Arming is idempotent and never reversed. A concurrent host shares
/// one switch among its workers behind an atomic flag.
pub struct KillSwitch {
    pushed: bool,
}

impl KillSwitch {
    /// Whether the switch was armed.
    pub closed spec fn is_pushed_spec(self) -> bool {
        self.pushed
    }

    /// A switch that was not armed yet.
    pub fn new() -> (r: Self)
        ensures
            !r.is_pushed_spec(),
    {
        KillSwitch { pushed: false }
    }

    /// Returns whether the download is to be aborted.
    pub fn is_pushed(&self) -> (r: bool)
        ensures
            r == self.is_pushed_spec(),
    {
        self.pushed
    }

    /// Arms the switch; arming twice is the same as arming once.
    pub fn push_the_button(&mut self)
        ensures
            final(self).is_pushed_spec(),
    {
        self.pushed = true;
    }
}

/// What a worker emits when it finds the kill switch armed: the fixed
/// "another download task already failed" error, without contacting the
/// store.
pub fn abort_error() -> (r: CondowError)
    ensures
        r.kind_spec() == CondowErrorKind::Other,
        r.msg_spec() == "another download task already failed"@,
{
    CondowError::new_other("another download task already failed")
}

/// Every chunk of `items` lies inside the requested range: its BLOB
/// offset is its range offset shifted by the range's start, and it ends
/// within the range's length.
pub open spec fn chunk_in_range(item: ChunkStreamItem, a: int, len: int) -> bool {
    item matches Ok(c) ==> c.blob_offset - a == c.range_offset && c.range_offset + c.bytes@.len()
        <= len
}

/// All items of the stream lie inside the requested range.
pub open spec fn stream_items_in_range(items: Seq<ChunkStreamItem>, a: int, len: int) -> bool {
    forall|i: int| 0 <= i < items.len() ==> chunk_in_range(#[trigger] items[i], a, len)
}

/// A successful download of `range`: chunks only, delivered in range
/// order without gaps, whose bytes are exactly the object's content
/// over the range.
pub open spec fn successful_download_spec(
    items: Seq<ChunkStreamItem>,
    blob: Seq<u8>,
    range: InclusiveRange,
) -> bool {
    &&& items_ok(items)
    &&& items_sequential_from(items, 0)
    &&& range.1 < blob.len()
    &&& items_bytes(items) == blob.subrange(range.0 as int, range.1 + 1)
    &&& items_bytes(items).len() == range.len_spec()
}

/// A failed download: a prefix of chunks, then exactly one error item,
/// and nothing after it.
pub open spec fn failed_download_spec(items: Seq<ChunkStreamItem>) -> bool {
    &&& items.len() > 0
    &&& items.last() is Err
    &&& items_ok(items.drop_last())
}

/// A failed download delivers exactly one error item.
pub proof fn lemma_failed_one_error(items: Seq<ChunkStreamItem>)
    requires
        failed_download_spec(items),
    ensures
        err_count(items) == 1,
{
    lemma_items_ok_err_count(items.drop_last());
    assert(items =~= items.drop_last().push(items.last()));
    lemma_err_count_push(items.drop_last(), items.last());
}

/// Chunks of consecutive parts, appended in part order, stay in range
/// order without gaps.
pub(crate) proof fn lemma_sequential_stitch(p: Seq<ChunkStreamItem>, b: Seq<ChunkStreamItem>, off: int)
    requires
        items_ok(p),
        items_ok(b),
        items_sequential_from(p, 0),
        off == items_bytes(p).len(),
        forall|j: int|
            0 <= j < b.len() ==> (#[trigger] b[j])->Ok_0.range_offset == off + items_bytes(
                b.take(j),
            ).len(),
    ensures
        items_sequential_from(p + b, 0),
{
    assert forall|j: int| 0 <= j < (p + b).len() implies (#[trigger] (p + b)[j]).unwrap()
        .range_offset == 0 + items_bytes((p + b).take(j)).len() by {
        if j < p.len() {
            assert((p + b).take(j) =~= p.take(j));
            assert((p + b)[j] == p[j]);
        } else {
            let k = j - p.len();
            assert((p + b)[j] == b[k]);
            assert((p + b).take(j) =~= p + b.take(k));
            lemma_items_bytes_add(p, b.take(k));
        }
    }
}

/// Every response the script still holds answers `Success`.
pub open spec fn script_all_success(c: SimClient) -> bool {
    forall|i: int|
        c.next_response_spec() <= i < c.responses_spec().len() ==> (#[trigger] c.responses_spec()[
        i
    ]) is Success
}

/// Every response after the next one answers `Success`.
pub open spec fn script_tail_success(c: SimClient) -> bool {
    forall|i: int|
        c.next_response_spec() < i < c.responses_spec().len() ==> (#[trigger] c.responses_spec()[
        i
    ]) is Success
}

/// The next response breaks the first part's stream inside the part,
/// and the retry budget allows one resumption.
pub open spec fn first_break_resumable(
    c: SimClient,
    part_size: int,
    range: InclusiveRange,
    retries: Option<RetryConfig>,
) -> bool {
    &&& nth_response_spec(c, 0) is StreamFailure
    &&& nth_response_spec(c, 0)->StreamFailure_0 < part_size
    &&& nth_response_spec(c, 0)->StreamFailure_0 < range.len_spec()
    &&& crate::machinery::sequential::has_retry_budget(retries)
}

/// How the script settles the whole download. Each clause forces the
/// outcome, the delivered terminal error and the terminal event for one
/// script shape, so a body that ignores the client cannot meet it.
pub open spec fn download_forced_spec(
    c0: SimClient,
    range: InclusiveRange,
    part_size: int,
    retries: Option<RetryConfig>,
    items: Seq<ChunkStreamItem>,
    ev: Seq<SinkEvent>,
) -> bool {
    let rok = range.1 < c0.blob_spec().len();
    let n0 = nth_response_spec(c0, 0);
    let n1 = nth_response_spec(c0, 1);
    &&& (rok && script_all_success(c0) ==> items_ok(items) && ev.last()
        == SinkEvent::DownloadCompleted)
    &&& (rok && first_break_resumable(c0, part_size, range, retries) && script_tail_success(c0)
        ==> items_ok(items) && ev.last() == SinkEvent::DownloadCompleted)
    &&& (rok && n0 is Failure && (!n0->Failure_0.is_retryable_spec()
        || crate::machinery::sequential::no_retry_budget(retries)) ==> last_err_kind_spec(
        items,
        n0->Failure_0,
    ) && ev.last() == SinkEvent::DownloadFailed)
    &&& (rok && n0 is StreamFailure && crate::machinery::sequential::no_retry_budget(retries)
        ==> last_err_kind_spec(items, CondowErrorKind::Io) && ev.last()
        == SinkEvent::DownloadFailed)
    &&& (rok && (n0 is StreamPanic || n0 is Panic) && retries is None ==> last_err_is_spec(
        items,
        CondowErrorKind::Other,
        "download ended unexpectedly due to a panic"@,
    ) && ev.last() == SinkEvent::DownloadFailed && ev.contains(SinkEvent::PanicDetected))
    &&& (rok && (n0 is StreamPanic || n0 is Panic) && retries is Some ==> last_err_is_spec(
        items,
        CondowErrorKind::Io,
        "panicked while retrying"@,
    ) && ev.last() == SinkEvent::DownloadFailed)
    &&& (rok && first_break_resumable(c0, part_size, range, retries) && (n1 is StreamPanic || n1
        is Panic) ==> last_err_is_spec(items, CondowErrorKind::Io, "panicked while retrying"@)
        && ev.last() == SinkEvent::DownloadFailed)
}

/// What the machinery guarantees of the stream and events of one
/// started (non-empty) download of `range` from an object `blob`.
pub open spec fn download_stream_spec(
    stream: ChunkStream,
    events_added: Seq<SinkEvent>,
    blob: Seq<u8>,
    range: InclusiveRange,
    hint: BytesHint,
) -> bool {
    &&& stream.is_fresh_spec()
    &&& !stream.is_closed_spec()
    &&& stream.bytes_hint_spec() == hint
    &&& events_added.len() > 0
    &&& events_added.last().is_terminal_spec()
    &&& terminal_count(events_added) == 1
    &&& (events_added.last() == SinkEvent::DownloadCompleted <==> items_ok(stream.remaining()))
    &&& (items_ok(stream.remaining()) ==> successful_download_spec(
        stream.remaining(),
        blob,
        range,
    ))
    &&& (!items_ok(stream.remaining()) ==> failed_download_spec(stream.remaining()))
    &&& stream_items_in_range(stream.remaining(), range.0 as int, range.len_spec())
    &&& items_bytes(stream.remaining()).len() <= range.len_spec()
    &&& err_count(stream.remaining()) <= 1
}

/// Downloads the resolved `range` part by part and hands back the
/// stream of everything that was delivered.
///
/// Exactly one terminal event is recorded: `DownloadCompleted` when
/// every part arrived whole, else `DownloadFailed`; at most one error
/// item is delivered, and nothing follows it. The client's script
/// forces the outcome: an all-success script must complete with the
/// object's bytes, and the scripted failures must surface as the
/// corresponding error item and terminal event.
#[verifier::rlimit(100)]
#[verifier::loop_isolation(false)]
pub fn download_chunks(
    client: &mut SimClient,
    range: InclusiveRange,
    bytes_hint: BytesHint,
    config: &Config,
    sink: &mut Vec<SinkEvent>,
) -> (r: ChunkStream)
    requires
        old(client).wf_spec(),
        range.wf(),
        config.valid_spec(),
    ensures
        crate::machinery::sequential::client_preserved(*old(client), *final(client)),
        extends(old(sink)@, final(sink)@),
        download_stream_spec(
            r,
            appended(old(sink)@, final(sink)@),
            old(client).blob_spec(),
            range,
            bytes_hint,
        ),
        download_forced_spec(
            *old(client),
            range,
            config.part_size_bytes as int,
            config.retries,
            r.remaining(),
            appended(old(sink)@, final(sink)@),
        ),
        final(client).responses_spec() == old(client).responses_spec(),
        final(client).next_response_spec() >= old(client).next_response_spec(),
        appended(old(sink)@, final(sink)@)[0] == SinkEvent::DownloadStarted,
{
    let ghost sink0 = sink@;
    proof {
        assert(sink@.take(sink0.len() as int) =~= sink0);
    }
    sink.push(SinkEvent::DownloadStarted);
    let ghost sink_started = sink@;
    proof {
        assert(sink@.take(sink0.len() as int) =~= sink0);
        assert(nonterminal_extension(sink0, sink_started));
        assert(sink_started[sink0.len() as int] == SinkEvent::DownloadStarted);
    }
    let (_n_parts, requests) = RangeStream::create(range, config.part_size_bytes);
    let ghost plan = requests@;
    let mut items: Vec<ChunkStreamItem> = Vec::new();
    proof {
        crate::machinery::range_stream::lemma_plan_covers(
            range,
            config.part_size_bytes as int,
            plan,
        );
        assert(items@ =~= Seq::<ChunkStreamItem>::empty());
    }
    let flags = crate::machinery::driver::run_planned_parts(
        client,
        range,
        config,
        requests,
        &mut items,
        sink,
    );
    let mut failed = flags.0;
    let panicked = flags.1;
    proof {
        crate::machinery::sequential::lemma_nonterminal_trans(sink0, sink_started, sink@);
        assert(sink@[sink0.len() as int] == SinkEvent::DownloadStarted) by {
            assert(sink@.take(sink_started.len() as int) == sink_started);
            assert(sink@.take(sink_started.len() as int)[sink0.len() as int]
                == sink@[sink0.len() as int]);
        }
    }
    let ghost panic_idx: int = sink@.len() - sink0.len();
    if panicked {
        // The worker's exit path: report the panic, arm the kill
        // switch, and deliver the one terminal error item.
        let ghost pre_sink = sink@;
        sink.push(SinkEvent::PanicDetected);
        let err = CondowError::new_other("download ended unexpectedly due to a panic");
        let ghost err_g = err;
        let ghost pre_items = items@;
        items.push(Err(err));
        failed = true;
        proof {
            assert(sink@.take(sink0.len() as int) =~= sink0);
            assert(sink@[sink0.len() as int] == SinkEvent::DownloadStarted);
            assert(appended(sink0, sink@)[panic_idx] == SinkEvent::PanicDetected);
            assert(items@.drop_last() =~= pre_items);
            assert(items@.last() == Err::<Chunk, CondowError>(err_g));
            lemma_items_bytes_push(pre_items, Err::<Chunk, CondowError>(err_g));
            assert forall|k: int| 0 <= k < items@.len() implies chunk_in_range(
                #[trigger] items@[k],
                range.0 as int,
                range.len_spec(),
            ) by {
                if k < pre_items.len() {
                    assert(items@[k] == pre_items[k]);
                }
            }
        }
    }
    let ghost pre_sink = sink@;
    let terminal = if failed {
        SinkEvent::DownloadFailed
    } else {
        SinkEvent::DownloadCompleted
    };
    sink.push(terminal);
    proof {
        assert(sink@.take(sink0.len() as int) =~= sink0);
        assert(sink@[sink0.len() as int] == SinkEvent::DownloadStarted);
        let added = appended(sink0, sink@);
        assert(added =~= appended(sink0, pre_sink).push(terminal));
        lemma_terminal_count_push(appended(sink0, pre_sink), terminal);
        lemma_no_terminal_count(appended(sink0, pre_sink));
        assert(terminal_count(added) == 1);
        assert(added[0] == SinkEvent::DownloadStarted);
        if panicked {
            assert(added[panic_idx] == SinkEvent::PanicDetected);
            assert(added.contains(SinkEvent::PanicDetected));
        }
        if failed {
            assert(!items_ok(items@)) by {
                assert(items@.last() is Err);
                assert(items@[items@.len() - 1] is Err);
            }
        }
    }
    proof {
        if items_ok(items@) {
            lemma_items_ok_err_count(items@);
        } else {
            lemma_failed_one_error(items@);
        }
    }
    ChunkStream::new(bytes_hint, items)
}

/// Two adjacent sub-ranges of the object concatenate to one.
pub(crate) proof fn lemma_subrange_join(blob: Seq<u8>, a: int, m: int, e: int, x: Seq<u8>, y: Seq<u8>)
    requires
        0 <= a <= m <= e <= blob.len(),
        x == blob.subrange(a, m),
        y == blob.subrange(m, e),
    ensures
        x + y == blob.subrange(a, e),
{
    assert(x + y =~= blob.subrange(a, e));
}

/// Every chunk of one part's batch lies inside the whole requested
/// range.
pub(crate) proof fn lemma_batch_in_range(
    b: Seq<ChunkStreamItem>,
    req: RangeRequest,
    range: InclusiveRange,
)
    requires
        range.wf(),
        req.range_offset + req.len_spec() <= range.len_spec(),
        req.blob_range.0 == range.0 + req.range_offset,
        rel_chunks_wf(b, req, 0, 0),
    ensures
        forall|j: int|
            0 <= j < b.len() ==> chunk_in_range(#[trigger] b[j], range.0 as int, range.len_spec()),
{
    assert forall|j: int| 0 <= j < b.len() implies chunk_in_range(
        #[trigger] b[j],
        range.0 as int,
        range.len_spec(),
    ) by {
        assert(rel_chunk_wf(b, req, 0, 0, j));
        assert(b.take(j + 1) =~= b.take(j).push(b[j]));
        lemma_items_bytes_push(b.take(j), b[j]);
        assert(items_bytes(b.take(j)).len() + b[j]->Ok_0.bytes@.len() <= req.len_spec()) by {
            assert(b[j]->Ok_0.bytes_left == req.len_spec() - items_bytes(b.take(j + 1)).len());
        }
    }
}

/// Extending a stream whose chunks lie in range with in-range items
/// keeps every item in range.
pub(crate) proof fn lemma_in_range_extend(
    pre: Seq<ChunkStreamItem>,
    now: Seq<ChunkStreamItem>,
    a: int,
    len: int,
)
    requires
        extends(pre, now),
        stream_items_in_range(pre, a, len),
        forall|j: int|
            0 <= j < appended(pre, now).len() ==> chunk_in_range(
                #[trigger] appended(pre, now)[j],
                a,
                len,
            ),
    ensures
        stream_items_in_range(now, a, len),
{
    let b = appended(pre, now);
    assert(pre + b =~= now);
    assert forall|k: int| 0 <= k < now.len() implies chunk_in_range(#[trigger] now[k], a, len) by {
        if k < pre.len() {
            assert(now[k] == pre[k]);
            assert(chunk_in_range(pre[k], a, len));
        } else {
            assert(now[k] == b[k - pre.len()]);
            assert(chunk_in_range(b[k - pre.len()], a, len));
        }
    }
}

/// Appending one part's well-formed chunk run keeps the stream all
/// chunks and in global range order.
pub(crate) proof fn lemma_join_ok_sequential(
    pre: Seq<ChunkStreamItem>,
    now: Seq<ChunkStreamItem>,
    req: RangeRequest,
)
    requires
        extends(pre, now),
        items_ok(pre),
        items_sequential_from(pre, 0),
        items_bytes(pre).len() == req.range_offset,
        rel_chunks_wf(appended(pre, now), req, 0, 0),
        items_ok(appended(pre, now)),
    ensures
        items_ok(now),
        items_sequential_from(now, 0),
{
    let b = appended(pre, now);
    assert(pre + b =~= now);
    assert forall|j: int| 0 <= j < b.len() implies (#[trigger] b[j])->Ok_0.range_offset
        == items_bytes(pre).len() + items_bytes(b.take(j)).len() by {
        assert(rel_chunk_wf(b, req, 0, 0, j));
    }
    lemma_sequential_stitch(pre, b, items_bytes(pre).len() as int);
    assert forall|k: int| 0 <= k < now.len() implies (#[trigger] now[k]) is Ok by {
        if k < pre.len() {
            assert(now[k] == pre[k]);
        } else {
            assert(now[k] == b[k - pre.len()]);
        }
    }
}


/// Joins a completed part's chunks onto the stream so far.
#[verifier::rlimit(100)]
pub(crate) proof fn join_completed_part(
    blob: Seq<u8>,
    range: InclusiveRange,
    req: RangeRequest,
    pre: Seq<ChunkStreamItem>,
    now: Seq<ChunkStreamItem>,
)
    requires
        range.wf(),
        req.blob_range.wf(),
        req.blob_range.0 == range.0 + req.range_offset,
        req.blob_range.1 <= range.1,
        extends(pre, now),
        items_ok(pre),
        items_sequential_from(pre, 0),
        items_bytes(pre).len() == req.range_offset,
        pre.len() == 0 || (range.0 + items_bytes(pre).len() <= blob.len() && items_bytes(pre)
            == blob.subrange(range.0 as int, range.0 + items_bytes(pre).len())),
        stream_items_in_range(pre, range.0 as int, range.len_spec()),
        crate::machinery::sequential::part_complete_spec(appended(pre, now), req, blob),
    ensures
        items_ok(now),
        items_sequential_from(now, 0),
        items_bytes(now).len() == req.range_offset + req.len_spec(),
        range.0 + items_bytes(now).len() <= blob.len(),
        items_bytes(now) == blob.subrange(range.0 as int, range.0 + items_bytes(now).len()),
        items_bytes(now).len() <= range.len_spec(),
        stream_items_in_range(now, range.0 as int, range.len_spec()),
        (req.blob_range.1 == range.1 ==> range.1 < blob.len() && items_bytes(now)
            == blob.subrange(range.0 as int, range.1 + 1)),
{
    let b = appended(pre, now);
    assert(pre + b =~= now);
    lemma_items_bytes_add(pre, b);
    lemma_join_ok_sequential(pre, now, req);
    // Bytes: the part appends exactly its sub-range of the object.
    assert(req.blob_range.1 + 1 == req.blob_range.0 + req.len_spec());
    if pre.len() == 0 {
        assert(items_bytes(pre) =~= Seq::<u8>::empty());
        assert(items_bytes(now) == items_bytes(b));
        assert(req.blob_range.0 == range.0);
        assert(items_bytes(now) =~= blob.subrange(
            range.0 as int,
            range.0 + items_bytes(now).len(),
        ));
    } else {
        lemma_subrange_join(
            blob,
            range.0 as int,
            range.0 + items_bytes(pre).len(),
            req.blob_range.1 + 1,
            items_bytes(pre),
            items_bytes(b),
        );
    }
    assert(req.range_offset + req.len_spec() <= range.len_spec());
    lemma_batch_in_range(b, req, range);
    lemma_in_range_extend(pre, now, range.0 as int, range.len_spec());
}

/// Joins a failed part's chunks and terminal error onto the stream so
/// far.
#[verifier::rlimit(100)]
pub(crate) proof fn join_failed_part(
    range: InclusiveRange,
    plan: Seq<RangeRequest>,
    i: int,
    pre: Seq<ChunkStreamItem>,
    now: Seq<ChunkStreamItem>,
    req: RangeRequest,
)
    requires
        range.wf(),
        0 <= i < plan.len(),
        req == plan[i],
        req.range_offset + req.len_spec() <= range.len_spec(),
        req.blob_range.0 == range.0 + req.range_offset,
        extends(pre, now),
        items_ok(pre),
        items_bytes(pre).len() == req.range_offset,
        stream_items_in_range(pre, range.0 as int, range.len_spec()),
        crate::machinery::sequential::part_failed_spec(appended(pre, now), req),
    ensures
        failed_download_spec(now),
        stream_items_in_range(now, range.0 as int, range.len_spec()),
        items_bytes(now).len() <= range.len_spec(),
{
    let b = appended(pre, now);
    assert(pre + b =~= now);
    lemma_items_bytes_add(pre, b);
    assert(now.len() == pre.len() + b.len());
    assert(now.last() == b.last());
    assert(now.drop_last() =~= pre + b.drop_last());
    assert forall|k: int| 0 <= k < now.len() - 1 implies (#[trigger] now.drop_last()[k]) is Ok by {
        if k < pre.len() {
            assert(now.drop_last()[k] == pre[k]);
        } else {
            assert(now.drop_last()[k] == b.drop_last()[k - pre.len()]);
        }
    }
    lemma_batch_in_range(b.drop_last(), req, range);
    assert forall|j: int| 0 <= j < b.len() implies chunk_in_range(
        #[trigger] b[j],
        range.0 as int,
        range.len_spec(),
    ) by {
        if j < b.len() - 1 {
            assert(b.drop_last()[j] == b[j]);
            assert(chunk_in_range(b.drop_last()[j], range.0 as int, range.len_spec()));
        } else {
            assert(b[j] == b.last());
        }
    }
    lemma_in_range_extend(pre, now, range.0 as int, range.len_spec());
}

/// Joins a panicked part's chunks onto the stream so far.
#[verifier::rlimit(100)]
pub(crate) proof fn join_panicked_part(
    range: InclusiveRange,
    plan: Seq<RangeRequest>,
    i: int,
    pre: Seq<ChunkStreamItem>,
    now: Seq<ChunkStreamItem>,
    req: RangeRequest,
)
    requires
        range.wf(),
        0 <= i < plan.len(),
        req == plan[i],
        req.range_offset + req.len_spec() <= range.len_spec(),
        req.blob_range.0 == range.0 + req.range_offset,
        extends(pre, now),
        items_ok(pre),
        items_bytes(pre).len() == req.range_offset,
        stream_items_in_range(pre, range.0 as int, range.len_spec()),
        crate::machinery::sequential::part_panicked_spec(appended(pre, now), req),
    ensures
        items_ok(now),
        stream_items_in_range(now, range.0 as int, range.len_spec()),
        items_bytes(now).len() <= range.len_spec(),
{
    let b = appended(pre, now);
    assert(pre + b =~= now);
    lemma_items_bytes_add(pre, b);
    assert forall|k: int| 0 <= k < now.len() implies (#[trigger] now[k]) is Ok by {
        if k < pre.len() {
            assert(now[k] == pre[k]);
        } else {
            assert(now[k] == b[k - pre.len()]);
        }
    }
    lemma_batch_in_range(b, req, range);
    lemma_in_range_extend(pre, now, range.0 as int, range.len_spec());
}

/// The absolute range a request resolves to, given the mode, the
/// configured size preference, and the object's size: `None` is the
/// empty download.
pub open spec fn resolved_range_spec(
    range: DownloadRange,
    mode: GetSizeMode,
    always: bool,
    size: u64,
) -> Option<InclusiveRange> {
    if range.needs_size_spec(mode, always) {
        range.resolve_with_size_spec(size)
    } else {
        range.resolve_unchecked_spec()
    }
}

/// The exact byte hint a resolved range advertises.
pub open spec fn exact_hint_spec(rng: InclusiveRange) -> BytesHint {
    BytesHint((rng.len_spec()) as u64, Some((rng.len_spec()) as u64))
}

/// A stream together with the events the download recorded.
pub struct StreamWithReport {
    /// The stream of delivered chunks.
    pub stream: ChunkStream,
    /// The recorded events, in emission order.
    pub events: Vec<SinkEvent>,
}

impl StreamWithReport {
    /// Pairs a stream with its recorded events.
    pub fn new(stream: ChunkStream, events: Vec<SinkEvent>) -> (r: Self)
        ensures
            r.stream == stream,
            r.events == events,
    {
        StreamWithReport { stream, events }
    }

    /// Drops the events and keeps the stream.
    pub fn into_stream(self) -> (r: ChunkStream)
        ensures
            r == self.stream,
    {
        self.stream
    }

    /// Splits into the stream and the recorded events.
    pub fn into_parts(self) -> (r: (ChunkStream, Vec<SinkEvent>))
        ensures
            r.0 == self.stream,
            r.1 == self.events,
    {
        (self.stream, self.events)
    }
}

/// The one synchronous entry of the orchestrator: validates the
/// request, resolves it against the object size when the request or the
/// mode asks for it, and runs the download.
///
/// An invalid range is the only synchronous error; an empty effective
/// range short-circuits to an already-closed empty stream without
/// contacting a worker (and without any event).
pub fn download(
    client: &mut SimClient,
    config: &Config,
    range: DownloadRange,
    get_size_mode: GetSizeMode,
) -> (r: Result<StreamWithReport, CondowError>)
    requires
        old(client).wf_spec(),
        config.valid_spec(),
        old(client).blob_spec().len() <= u64::MAX,
    ensures
        crate::machinery::sequential::client_preserved(*old(client), *final(client)),
        (r is Err <==> !range.valid_spec()),
        (r matches Err(e) ==> e.kind_spec() == CondowErrorKind::InvalidRange),
        (range.valid_spec() && resolved_range_spec(
            range,
            get_size_mode,
            config.always_get_size,
            old(client).blob_spec().len() as u64,
        ) is None ==> (r matches Ok(s) && s.stream.is_closed_spec() && s.stream.is_fresh_spec()
            && s.stream.remaining().len() == 0 && s.stream.bytes_hint_spec() == BytesHint(
            0u64,
            Some(0u64),
        ) && s.events@.len() == 0)),
        (range.valid_spec() && resolved_range_spec(
            range,
            get_size_mode,
            config.always_get_size,
            old(client).blob_spec().len() as u64,
        ) is Some ==> (r matches Ok(s) && download_stream_spec(
            s.stream,
            s.events@,
            old(client).blob_spec(),
            resolved_range_spec(
                range,
                get_size_mode,
                config.always_get_size,
                old(client).blob_spec().len() as u64,
            )->Some_0,
            exact_hint_spec(
                resolved_range_spec(
                    range,
                    get_size_mode,
                    config.always_get_size,
                    old(client).blob_spec().len() as u64,
                )->Some_0,
            ),
        ) && download_forced_spec(
            *old(client),
            resolved_range_spec(
                range,
                get_size_mode,
                config.always_get_size,
                old(client).blob_spec().len() as u64,
            )->Some_0,
            config.part_size_bytes as int,
            config.retries,
            s.stream.remaining(),
            s.events@,
        ))),
{
    if let Err(e) = range.validate() {
        return Err(e);
    }
    let resolved: Option<InclusiveRange> = if range.needs_size(
        get_size_mode,
        config.always_get_size,
    ) {
        let size = client.get_size();
        range.resolve_with_size(size)
    } else {
        range.resolve_unchecked()
    };
    match resolved {
        None => Ok(StreamWithReport::new(ChunkStream::empty(), Vec::new())),
        Some(rng) => {
            let hint = BytesHint::new_exact(rng.len());
            let mut events: Vec<SinkEvent> = Vec::new();
            let ghost ev0 = events@;
            let stream = download_chunks(client, rng, hint, config, &mut events);
            proof {
                assert(appended(ev0, events@) =~= events@);
            }
            Ok(StreamWithReport::new(stream, events))
        },
    }
}

/// The chunks of a successful download never hold a byte for the same
/// offset twice, so the order-independence of reassembly applies to
/// every successful download.
#[verifier::rlimit(100)]
pub proof fn lemma_successful_download_no_overlap(
    items: Seq<ChunkStreamItem>,
    blob: Seq<u8>,
    range: InclusiveRange,
)
    requires
        successful_download_spec(items, blob, range),
    ensures
        crate::streams::chunk_stream::no_overlap_spec(items),
{
    assert forall|j: int, k: int|
        0 <= j < k < items.len() implies crate::streams::chunk_stream::chunks_disjoint(
        #[trigger] items[j],
        #[trigger] items[k],
    ) by {
        let cj = items[j].unwrap();
        let ck = items[k].unwrap();
        assert(cj.range_offset == items_bytes(items.take(j)).len());
        assert(ck.range_offset == items_bytes(items.take(k)).len());
        assert(items.take(j + 1) =~= items.take(j).push(items[j]));
        lemma_items_bytes_push(items.take(j), items[j]);
        assert(items.take(k) =~= items.take(j + 1) + items.subrange(j + 1, k));
        lemma_items_bytes_add(items.take(j + 1), items.subrange(j + 1, k));
        assert(ck.range_offset >= cj.range_offset + cj.bytes@.len());
        assert forall|i: int|
            !(crate::streams::chunk_stream::chunk_covers(items[j], i)
                && crate::streams::chunk_stream::chunk_covers(items[k], i)) by {}
    }
}

/// What a successful download's chunks reassemble to: they all fit the
/// range's length, and writing them into a zeroed buffer of that length
/// yields exactly the object's bytes over the range.
///
/// Together with the contract of `ChunkStream::into_vec` this says that
/// collecting a successful download of `[A, B]` returns a buffer of
/// length `B - A + 1` holding the object's content over `[A, B]`.
#[verifier::rlimit(100)]
pub proof fn lemma_successful_download_collects(
    items: Seq<ChunkStreamItem>,
    blob: Seq<u8>,
    range: InclusiveRange,
)
    requires
        range.wf(),
        range.len_spec() <= usize::MAX,
        successful_download_spec(items, blob, range),
    ensures
        crate::streams::chunk_stream::writable_spec(items, range.len_spec()),
        crate::streams::chunk_stream::write_all_spec(
            crate::streams::chunk_stream::zeros_spec(range.len_spec()),
            items,
        ) == blob.subrange(range.0 as int, range.1 + 1),
{
    let len = range.len_spec();
    let zeros = crate::streams::chunk_stream::zeros_spec(len);
    assert forall|j: int| 0 <= j < items.len() implies crate::streams::chunk_stream::chunk_fits(
        #[trigger] items[j],
        len,
    ) by {
        assert(items[j].unwrap().range_offset == items_bytes(items.take(j)).len());
        assert(items.take(j + 1) =~= items.take(j).push(items[j]));
        lemma_items_bytes_push(items.take(j), items[j]);
        assert(items.take(j + 1) + items.skip(j + 1) =~= items);
        lemma_items_bytes_add(items.take(j + 1), items.skip(j + 1));
    }
    crate::streams::chunk_stream::lemma_write_all_sequential(zeros, items, 0);
    assert(crate::streams::chunk_stream::write_all_spec(zeros, items) =~= items_bytes(items));
}

} // verus!
