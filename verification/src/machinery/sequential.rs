//! One worker's job: fetch a part, account for every delivered buffer,
//! wrap it into an addressed chunk, and resume the byte stream after a
//! transient mid-stream failure.

use vstd::prelude::*;

use crate::condow_client::{
    ev_all_bytes, ev_broken, stream_bytes, FetchResponse, FetchResult, SimClient, StreamEvent,
};
use crate::condow_client::{fetch_range_ok, lemma_stream_bytes_add, lemma_stream_bytes_push};
use crate::config::RetryConfig;
use crate::errors::{CondowError, CondowErrorKind, IoError};
use crate::machinery::range_stream::RangeRequest;
use crate::range::InclusiveRange;
use crate::reporter::SinkEvent;
use crate::streams::chunk::{item_bytes, items_bytes, items_ok, Chunk, ChunkStreamItem};
use crate::streams::chunk::{lemma_items_bytes_add, lemma_items_bytes_push};

verus! {

/// `new_v` is `old_v` with items appended.
pub open spec fn extends<T>(old_v: Seq<T>, new_v: Seq<T>) -> bool {
    &&& new_v.len() >= old_v.len()
    &&& new_v.take(old_v.len() as int) == old_v
}

/// What was appended to `old_v`.
pub open spec fn appended<T>(old_v: Seq<T>, new_v: Seq<T>) -> Seq<T> {
    new_v.skip(old_v.len() as int)
}

/// `new_ev` extends `old_ev` without emitting a terminal event.
pub open spec fn nonterminal_extension(old_ev: Seq<SinkEvent>, new_ev: Seq<SinkEvent>) -> bool {
    &&& extends(old_ev, new_ev)
    &&& forall|i: int|
        old_ev.len() <= i < new_ev.len() ==> !(#[trigger] new_ev[i]).is_terminal_spec()
}

/// Accounting of one part while its chunks are delivered: how many
/// chunks were emitted and how many bytes they carried.
pub struct PartState {
    /// Index of the next chunk of this part.
    pub chunk_index: usize,
    /// How many bytes of this part were delivered so far.
    pub bytes_received: u64,
}

/// The `j`-th item appended for a part is a chunk with the right part
/// index, a dense chunk index continuing at `j0`, non-empty bytes,
/// offsets continuing at `t0` bytes into the part, and the right count
/// of bytes left.
pub open spec fn rel_chunk_wf(
    added: Seq<ChunkStreamItem>,
    req: RangeRequest,
    j0: int,
    t0: int,
    j: int,
) -> bool {
    let c = added[j]->Ok_0;
    &&& added[j] is Ok
    &&& c.part_index == req.part_index
    &&& c.chunk_index == j0 + j
    &&& c.bytes@.len() > 0
    &&& c.range_offset == req.range_offset + t0 + items_bytes(added.take(j)).len()
    &&& c.blob_offset == req.blob_range.0 + t0 + items_bytes(added.take(j)).len()
    &&& c.bytes_left == req.len_spec() - t0 - items_bytes(added.take(j + 1)).len()
}

/// Every item appended for a part satisfies [`rel_chunk_wf`].
pub open spec fn rel_chunks_wf(
    added: Seq<ChunkStreamItem>,
    req: RangeRequest,
    j0: int,
    t0: int,
) -> bool {
    forall|j: int| 0 <= j < added.len() ==> rel_chunk_wf(added, req, j0, t0, j)
}

/// The chunks of one whole part, counted from its beginning.
pub open spec fn part_chunks_wf(added: Seq<ChunkStreamItem>, req: RangeRequest) -> bool {
    rel_chunks_wf(added, req, 0, 0)
}

/// Two batches of chunks of one part, delivered back to back, form one
/// well-formed run.
pub proof fn lemma_rel_chunks_stitch(
    a: Seq<ChunkStreamItem>,
    b: Seq<ChunkStreamItem>,
    req: RangeRequest,
    j0: int,
    t0: int,
)
    requires
        rel_chunks_wf(a, req, j0, t0),
        rel_chunks_wf(b, req, j0 + a.len(), t0 + items_bytes(a).len()),
    ensures
        rel_chunks_wf(a + b, req, j0, t0),
{
    assert forall|j: int| 0 <= j < (a + b).len() implies rel_chunk_wf(a + b, req, j0, t0, j) by {
        if j < a.len() {
            assert((a + b).take(j) =~= a.take(j));
            assert((a + b).take(j + 1) =~= a.take(j + 1));
            assert((a + b)[j] == a[j]);
            assert(rel_chunk_wf(a, req, j0, t0, j));
        } else {
            let k = j - a.len();
            assert((a + b)[j] == b[k]);
            assert(rel_chunk_wf(b, req, j0 + a.len(), t0 + items_bytes(a).len(), k));
            assert((a + b).take(j) =~= a + b.take(k));
            assert((a + b).take(j + 1) =~= a + b.take(k + 1));
            lemma_items_bytes_add(a, b.take(k));
            lemma_items_bytes_add(a, b.take(k + 1));
        }
    }
}

/// Of one whole part's chunks, the chunk with `bytes_left == 0` is
/// unique and is the last one emitted, and the chunk lengths sum to the
/// part's declared length.
pub proof fn lemma_part_last_chunk(added: Seq<ChunkStreamItem>, req: RangeRequest)
    requires
        part_chunks_wf(added, req),
        items_bytes(added).len() == req.len_spec(),
        req.len_spec() > 0,
    ensures
        added.len() > 0,
        forall|j: int|
            0 <= j < added.len() ==> ((#[trigger] added[j])->Ok_0.bytes_left == 0 <==> j
                == added.len() - 1),
{
    assert(added.len() > 0) by {
        if added.len() == 0 {
            assert(items_bytes(added).len() == 0);
        }
    }
    assert forall|j: int| 0 <= j < added.len() implies ((#[trigger] added[j])->Ok_0.bytes_left == 0
        <==> j == added.len() - 1) by {
        assert(rel_chunk_wf(added, req, 0, 0, j));
        if j == added.len() - 1 {
            assert(added.take(j + 1) =~= added);
        } else {
            // A chunk before the last leaves the non-empty rest of the
            // part outstanding.
            let rest = added.skip(j + 1);
            assert(added.take(j + 1) + rest =~= added);
            lemma_items_bytes_add(added.take(j + 1), rest);
            assert(rest[0] == added[j + 1]);
            assert(rel_chunk_wf(added, req, 0, 0, j + 1));
            assert(seq![rest[0]] + rest.skip(1) =~= rest);
            lemma_items_bytes_add(seq![rest[0]], rest.skip(1));
            assert(items_bytes(seq![rest[0]]) == item_bytes(rest[0])) by {
                assert(seq![rest[0]].drop_last() =~= Seq::<ChunkStreamItem>::empty());
                assert(items_bytes(Seq::<ChunkStreamItem>::empty()) =~= Seq::<u8>::empty());
                assert(seq![rest[0]].last() == rest[0]);
                assert(items_bytes(seq![rest[0]]) =~= item_bytes(rest[0]));
            }
            assert(items_bytes(rest).len() > 0);
        }
    }
}

/// The chunk-completed events for one batch of chunks: one per chunk,
/// in order, carrying the part index, the running chunk index and the
/// chunk's byte count.
pub open spec fn chunk_events_spec(batch: Seq<ChunkStreamItem>, part: u64, j0: int) -> Seq<
    SinkEvent,
> {
    Seq::new(
        batch.len(),
        |j: int|
            SinkEvent::ChunkCompleted(
                part,
                (j0 + j) as usize,
                batch[j]->Ok_0.bytes@.len() as usize,
            ),
    )
}

/// The appended items end with one error item of the given kind.
pub open spec fn last_err_kind_spec(added: Seq<ChunkStreamItem>, kind: CondowErrorKind) -> bool {
    &&& added.len() > 0
    &&& added.last() matches Err(e) && e.kind_spec() == kind
}

/// The appended items end with one error item of the given kind and
/// message.
pub open spec fn last_err_is_spec(
    added: Seq<ChunkStreamItem>,
    kind: CondowErrorKind,
    msg: Seq<char>,
) -> bool {
    &&& added.len() > 0
    &&& added.last() matches Err(e) && e.kind_spec() == kind && e.msg_spec() == msg
}

/// How one consumed byte stream ended.
pub enum StreamConsumeOutcome {
    /// The stream ended cleanly and delivered the part completely.
    Finished,
    /// More bytes arrived than the part holds; a terminal error item
    /// was emitted.
    FailedTooMany,
    /// The stream ended cleanly but short; a terminal error item was
    /// emitted.
    FailedWrongCount,
    /// The stream broke mid-flight; nothing terminal was emitted, the
    /// caller decides about resumption.
    Interrupted(IoError),
    /// The stream panicked mid-flight; nothing was emitted.
    Panicked,
}

/// Reads buffers from one fetched byte stream and emits them as
/// addressed [`Chunk`]s, keeping the part's accounting in `st`.
///
/// Emits a terminal error item itself only for the two byte-count
/// failures, which are terminal at this layer; a broken stream is
/// handed back to the caller for resumption.
#[verifier::rlimit(100)]
#[verifier::loop_isolation(false)]
pub fn consume_and_dispatch_bytes(
    req: &RangeRequest,
    st: &mut PartState,
    events: Vec<StreamEvent>,
    out: &mut Vec<ChunkStreamItem>,
    sink: &mut Vec<SinkEvent>,
) -> (r: StreamConsumeOutcome)
    requires
        req.blob_range.wf(),
        req.range_offset + req.len_spec() <= u64::MAX,
        req.len_spec() <= usize::MAX,
        old(st).chunk_index <= old(st).bytes_received,
        old(st).bytes_received <= req.len_spec(),
        forall|i: int|
            0 <= i < events@.len() ==> ((#[trigger] events@[i]) matches StreamEvent::Bytes(b)
                ==> b@.len() > 0),
    ensures
        extends(old(out)@, final(out)@),
        nonterminal_extension(old(sink)@, final(sink)@),
        (consume_no_error(r) ==> consume_wf_batch(
            appended(old(out)@, final(out)@),
            *req,
            *old(st),
            *final(st),
        )),
        (consume_with_error(r) ==> consume_err_batch(
            appended(old(out)@, final(out)@),
            *req,
            *old(st),
        )),
        (r is Finished ==> final(st).bytes_received == req.len_spec()),
        (ev_all_bytes(events@) && old(st).bytes_received + stream_bytes(events@).len()
            == req.len_spec() ==> r is Finished && items_bytes(
            appended(old(out)@, final(out)@),
        ) == stream_bytes(events@)),
        (ev_all_bytes(events@) && old(st).bytes_received + stream_bytes(events@).len()
            < req.len_spec() ==> r is FailedWrongCount),
        (ev_broken(events@, false) && old(st).bytes_received + stream_bytes(events@).len()
            <= req.len_spec() ==> r is Interrupted && items_bytes(
            appended(old(out)@, final(out)@),
        ) == stream_bytes(events@)),
        (ev_broken(events@, true) && old(st).bytes_received + stream_bytes(events@).len()
            <= req.len_spec() ==> r is Panicked && items_bytes(
            appended(old(out)@, final(out)@),
        ) == stream_bytes(events@)),
        ((ev_all_bytes(events@) || ev_broken(events@, false) || ev_broken(events@, true))
            && old(st).bytes_received + stream_bytes(events@).len() > req.len_spec()
            ==> r is FailedTooMany),
        (r is FailedTooMany ==> last_err_is_spec(
            appended(old(out)@, final(out)@),
            CondowErrorKind::Other,
            "received more bytes than expected"@,
        )),
        (r is FailedWrongCount ==> last_err_is_spec(
            appended(old(out)@, final(out)@),
            CondowErrorKind::Other,
            "received wrong number of bytes"@,
        )),
        (consume_no_error(r) ==> appended(old(sink)@, final(sink)@) == chunk_events_spec(
            appended(old(out)@, final(out)@),
            req.part_index,
            old(st).chunk_index as int,
        )),
{
    let ghost out0 = out@;
    let ghost sink0 = sink@;
    let ghost j0 = old(st).chunk_index as int;
    let ghost t0 = old(st).bytes_received as int;
    let ghost ev_orig = events@;
    let expected = req.len();
    let mut events = events;
    let ghost mut i: int = 0;
    proof {
        assert(out@.take(out0.len() as int) =~= out0);
        assert(sink@.take(sink0.len() as int) =~= sink0);
        assert(appended(sink0, sink@) =~= chunk_events_spec(appended(out0, out@), req.part_index, j0));
    }
    while events.len() > 0
        invariant
            req.blob_range.wf(),
            req.range_offset + req.len_spec() <= u64::MAX,
            req.len_spec() <= usize::MAX,
            expected == req.len_spec(),
            0 <= i <= ev_orig.len(),
            events@ =~= ev_orig.skip(i),
            forall|k: int|
                0 <= k < ev_orig.len() ==> ((#[trigger] ev_orig[k]) matches StreamEvent::Bytes(b)
                    ==> b@.len() > 0),
            forall|k: int| 0 <= k < i ==> (#[trigger] ev_orig[k]) is Bytes,
            extends(out0, out@),
            nonterminal_extension(sink0, sink@),
            items_ok(appended(out0, out@)),
            rel_chunks_wf(appended(out0, out@), *req, j0, t0),
            st.chunk_index == j0 + appended(out0, out@).len(),
            st.bytes_received == t0 + items_bytes(appended(out0, out@)).len(),
            st.chunk_index <= st.bytes_received <= req.len_spec(),
            items_bytes(appended(out0, out@)) == stream_bytes(ev_orig.take(i)),
            appended(sink0, sink@) == chunk_events_spec(appended(out0, out@), req.part_index, j0),
        decreases events@.len(),
    {
        let ghost ev_rest = events@;
        let event = events.remove(0);
        let ghost event_g = event;
        proof {
            assert(ev_rest[0] == event_g);
            assert(ev_orig[i] == event_g);
            assert(events@ =~= ev_orig.skip(i + 1));
        }
        match event {
            StreamEvent::Bytes(bytes) => {
                let n = bytes.len();
                proof {
                    assert(event_g matches StreamEvent::Bytes(b) && b@.len() == n);
                }
                if (n as u64) > expected - st.bytes_received {
                    // More bytes than the part declares: terminal here.
                    proof {
                        lemma_stream_bytes_add(ev_orig.take(i + 1), ev_orig.skip(i + 1));
                        assert(ev_orig.take(i + 1) + ev_orig.skip(i + 1) =~= ev_orig);
                        lemma_stream_bytes_push(ev_orig.take(i), event_g);
                        assert(ev_orig.take(i + 1) =~= ev_orig.take(i).push(event_g));
                    }
                    let err = CondowError::new_other("received more bytes than expected");
                    let ghost werr = err;
                    let ghost pre_out = out@;
                    out.push(Err(err));
                    sink.push(SinkEvent::PartFailed(req.part_index));
                    proof {
                        assert(appended(out0, out@) =~= appended(out0, pre_out).push(
                            Err(werr),
                        ));
                        assert(appended(out0, out@).drop_last() =~= appended(out0, pre_out));
                        assert(out@.take(out0.len() as int) =~= out0);
                        assert(sink@.take(sink0.len() as int) =~= sink0);
                    }
                    return StreamConsumeOutcome::FailedTooMany;
                }
                let chunk = Chunk {
                    part_index: req.part_index,
                    chunk_index: st.chunk_index,
                    blob_offset: req.blob_range.0 + st.bytes_received,
                    range_offset: req.range_offset + st.bytes_received,
                    bytes,
                    bytes_left: (expected - st.bytes_received) - (n as u64),
                };
                let ghost chunk_g = chunk;
                let ghost pre_out = out@;
                let ghost pre_batch = appended(out0, out@);
                let ghost pre_sink_events = sink@;
                let ghost event_index = st.chunk_index;
                out.push(Ok(chunk));
                sink.push(SinkEvent::ChunkCompleted(req.part_index, st.chunk_index, n));
                st.chunk_index = st.chunk_index + 1;
                st.bytes_received = st.bytes_received + (n as u64);
                proof {
                    let batch = appended(out0, out@);
                    assert(batch =~= pre_batch.push(Ok(chunk_g)));
                    lemma_items_bytes_push(pre_batch, Ok(chunk_g));
                    assert(out@.take(out0.len() as int) =~= out0);
                    assert(sink@.take(sink0.len() as int) =~= sink0);
                    assert(appended(sink0, sink@) =~= appended(sink0, pre_sink_events).push(
                        SinkEvent::ChunkCompleted(req.part_index, event_index, n as usize),
                    ));
                    assert(event_index == j0 + pre_batch.len());
                    assert(batch[batch.len() - 1] == Ok::<Chunk, CondowError>(chunk_g));
                    assert(appended(sink0, sink@) =~= chunk_events_spec(
                        batch,
                        req.part_index,
                        j0,
                    ));
                    assert forall|j: int| 0 <= j < batch.len() implies rel_chunk_wf(
                        batch,
                        *req,
                        j0,
                        t0,
                        j,
                    ) by {
                        if j < pre_batch.len() {
                            assert(batch.take(j) =~= pre_batch.take(j));
                            assert(batch.take(j + 1) =~= pre_batch.take(j + 1));
                            assert(batch[j] == pre_batch[j]);
                            assert(rel_chunk_wf(pre_batch, *req, j0, t0, j));
                        } else {
                            assert(batch.take(j) =~= pre_batch);
                            assert(batch.take(j + 1) =~= batch);
                        }
                    }
                    lemma_stream_bytes_push(ev_orig.take(i), event_g);
                    assert(ev_orig.take(i + 1) =~= ev_orig.take(i).push(event_g));
                    i = i + 1;
                }
            },
            StreamEvent::Fail(io) => {
                proof {
                    consume_terminal_position(ev_orig, i);
                    if ev_broken(ev_orig, false) || ev_broken(ev_orig, true) {
                        assert(i == ev_orig.len() - 1);
                        assert(ev_orig.take(i) =~= ev_orig.drop_last());
                        assert(stream_bytes(ev_orig) == stream_bytes(ev_orig.take(i)));
                    }
                }
                return StreamConsumeOutcome::Interrupted(io);
            },
            StreamEvent::Panic => {
                proof {
                    consume_terminal_position(ev_orig, i);
                    if ev_broken(ev_orig, false) || ev_broken(ev_orig, true) {
                        assert(i == ev_orig.len() - 1);
                        assert(ev_orig.take(i) =~= ev_orig.drop_last());
                        assert(stream_bytes(ev_orig) == stream_bytes(ev_orig.take(i)));
                    }
                }
                return StreamConsumeOutcome::Panicked;
            },
        }
    }
    proof {
        assert(i == ev_orig.len());
        assert(ev_orig.take(i) =~= ev_orig);
    }
    if st.bytes_received == expected {
        return StreamConsumeOutcome::Finished;
    }
    let err = CondowError::new_other("received wrong number of bytes");
    let ghost werr = err;
    let ghost pre_out = out@;
    out.push(Err(err));
    sink.push(SinkEvent::PartFailed(req.part_index));
    proof {
        assert(appended(out0, out@) =~= appended(out0, pre_out).push(Err(werr)));
        assert(appended(out0, out@).drop_last() =~= appended(out0, pre_out));
        assert(out@.take(out0.len() as int) =~= out0);
        assert(sink@.take(sink0.len() as int) =~= sink0);
    }
    StreamConsumeOutcome::FailedWrongCount
}

/// The outcome left no error item behind.
pub open spec fn consume_no_error(r: StreamConsumeOutcome) -> bool {
    r is Finished || r is Interrupted || r is Panicked
}

/// The outcome emitted a terminal error item.
pub open spec fn consume_with_error(r: StreamConsumeOutcome) -> bool {
    r is FailedTooMany || r is FailedWrongCount
}

/// A batch of well-formed chunks, matching the part accounting before
/// and after.
pub open spec fn consume_wf_batch(
    batch: Seq<ChunkStreamItem>,
    req: RangeRequest,
    st0: PartState,
    st1: PartState,
) -> bool {
    &&& items_ok(batch)
    &&& rel_chunks_wf(batch, req, st0.chunk_index as int, st0.bytes_received as int)
    &&& st1.chunk_index == st0.chunk_index + batch.len()
    &&& st1.bytes_received == st0.bytes_received + items_bytes(batch).len()
    &&& st1.chunk_index <= st1.bytes_received <= req.len_spec()
}

/// A batch of well-formed chunks followed by exactly one terminal error
/// item of kind `Other`.
pub open spec fn consume_err_batch(
    batch: Seq<ChunkStreamItem>,
    req: RangeRequest,
    st0: PartState,
) -> bool {
    &&& batch.len() > 0
    &&& batch.last() matches Err(e) && e.kind_spec() == CondowErrorKind::Other
    &&& items_ok(batch.drop_last())
    &&& rel_chunks_wf(batch.drop_last(), req, st0.chunk_index as int, st0.bytes_received as int)
    &&& items_bytes(batch).len() + st0.bytes_received <= req.len_spec()
}

/// The one retry decision: a failure is tried again exactly when it is
/// transient and the budget still allows another attempt.
pub fn should_retry(retryable: bool, attempts_used: usize, retries: &Option<RetryConfig>) -> (r:
    bool)
    ensures
        r == (retryable && (retries matches Some(rc) && attempts_used < rc.max_attempts)),
{
    retryable && match retries {
        Some(rc) => attempts_used < rc.max_attempts,
        None => false,
    }
}

/// How downloading one part ended.
#[derive(Clone, Copy, Debug, PartialEq, Eq, Structural)]
pub enum PartOutcome {
    /// All bytes of the part were delivered as chunks.
    Completed,
    /// The part failed; exactly one terminal error item was emitted.
    Failed,
    /// The worker panicked; nothing terminal was emitted, the worker's
    /// exit path reports it.
    Panicked,
}

/// The retry budget that is left: how many more times the part may be
/// fetched.
pub open spec fn retry_budget(retries: Option<RetryConfig>, attempts_used: int) -> int {
    match retries {
        Some(rc) => rc.max_attempts + 1 - attempts_used,
        None => 0,
    }
}

/// The appended items are the chunks of the whole part `req` served
/// from `blob`.
pub open spec fn part_complete_spec(
    added: Seq<ChunkStreamItem>,
    req: RangeRequest,
    blob: Seq<u8>,
) -> bool {
    &&& items_ok(added)
    &&& part_chunks_wf(added, req)
    &&& req.blob_range.1 < blob.len()
    &&& items_bytes(added) == blob.subrange(req.blob_range.0 as int, req.blob_range.1 + 1)
    &&& items_bytes(added).len() == req.len_spec()
}

/// The appended items are a well-formed prefix of the part's chunks
/// followed by exactly one terminal error item.
pub open spec fn part_failed_spec(added: Seq<ChunkStreamItem>, req: RangeRequest) -> bool {
    &&& added.len() > 0
    &&& added.last() is Err
    &&& items_ok(added.drop_last())
    &&& part_chunks_wf(added.drop_last(), req)
    &&& items_bytes(added).len() <= req.len_spec()
}

/// The appended items are a well-formed prefix of the part's chunks;
/// no error item was emitted.
pub open spec fn part_panicked_spec(added: Seq<ChunkStreamItem>, req: RangeRequest) -> bool {
    &&& items_ok(added)
    &&& part_chunks_wf(added, req)
    &&& items_bytes(added).len() <= req.len_spec()
}

/// The client's object and configuration survive a call untouched.
pub open spec fn client_preserved(c0: SimClient, c1: SimClient) -> bool {
    &&& c1.wf_spec()
    &&& c1.blob_spec() == c0.blob_spec()
    &&& c1.chunk_size_spec() == c0.chunk_size_spec()
}

/// The response the client will give to its `k`-th next fetch; an
/// exhausted script answers `Success`.
pub open spec fn nth_response_spec(c: SimClient, k: int) -> FetchResponse {
    if c.next_response_spec() + k < c.responses_spec().len() {
        c.responses_spec()[c.next_response_spec() + k]
    } else {
        FetchResponse::Success
    }
}

/// No retry is ever attempted under this policy.
pub open spec fn no_retry_budget(retries: Option<RetryConfig>) -> bool {
    retries is None || retries->Some_0.max_attempts == 0
}

/// At least one retry is attempted under this policy.
pub open spec fn has_retry_budget(retries: Option<RetryConfig>) -> bool {
    retries matches Some(rc) && rc.max_attempts >= 1
}

/// The client's next response settles the part in its first fetch:
/// either the range is refused, or the response is served whole, fails
/// terminally, or panics in a way no retry can mask.
pub open spec fn first_response_decides(
    c: SimClient,
    req: RangeRequest,
    retries: Option<RetryConfig>,
) -> bool {
    ||| !fetch_range_ok(c, req.blob_range)
    ||| nth_response_spec(c, 0) is Success
    ||| (nth_response_spec(c, 0) matches FetchResponse::Failure(k) && (!k.is_retryable_spec()
        || no_retry_budget(retries)))
    ||| (nth_response_spec(c, 0) matches FetchResponse::StreamFailure(k) && no_retry_budget(
        retries,
    ))
    ||| nth_response_spec(c, 0) is StreamPanic
    ||| nth_response_spec(c, 0) is Panic
}

/// The first fetch's stream breaks part-way and one resumption is
/// attempted: the second response settles the part.
pub open spec fn resumed_once_spec(
    c: SimClient,
    req: RangeRequest,
    retries: Option<RetryConfig>,
) -> bool {
    &&& fetch_range_ok(c, req.blob_range)
    &&& (nth_response_spec(c, 0) matches FetchResponse::StreamFailure(k) && k < req.len_spec())
    &&& has_retry_budget(retries)
    &&& (nth_response_spec(c, 1) is Success || nth_response_spec(c, 1) is StreamPanic
        || nth_response_spec(c, 1) is Panic)
}

/// How the script settles the part. Every clause is an implication
/// from a script shape to the outcome, so a body that ignores the
/// client cannot meet this contract.
pub open spec fn part_outcome_forced(
    c0: SimClient,
    req: RangeRequest,
    retries: Option<RetryConfig>,
    r: PartOutcome,
    added: Seq<ChunkStreamItem>,
) -> bool {
    let rok = fetch_range_ok(c0, req.blob_range);
    let n0 = nth_response_spec(c0, 0);
    let n1 = nth_response_spec(c0, 1);
    &&& (rok && n0 is Success ==> r is Completed)
    &&& (!rok ==> r is Failed && last_err_kind_spec(added, CondowErrorKind::InvalidRange))
    &&& (rok && n0 is Failure && (!n0->Failure_0.is_retryable_spec() || no_retry_budget(
        retries,
    )) ==> r is Failed && last_err_kind_spec(added, n0->Failure_0))
    &&& (rok && n0 is StreamFailure && no_retry_budget(retries) ==> r is Failed
        && last_err_kind_spec(added, CondowErrorKind::Io))
    &&& (rok && n0 is StreamPanic && retries is None ==> r is Panicked)
    &&& (rok && n0 is Panic && retries is None ==> r is Panicked)
    &&& (rok && n0 is StreamPanic && retries is Some ==> r is Failed && last_err_is_spec(
        added,
        CondowErrorKind::Io,
        "panicked while retrying"@,
    ))
    &&& (rok && n0 is Panic && retries is Some ==> r is Failed && last_err_is_spec(
        added,
        CondowErrorKind::Io,
        "panicked while retrying"@,
    ))
    &&& (resumed_once_spec(c0, req, retries) && n1 is Success ==> r is Completed)
    &&& (resumed_once_spec(c0, req, retries) && (n1 is StreamPanic || n1 is Panic) ==> r
        is Failed && last_err_is_spec(added, CondowErrorKind::Io, "panicked while retrying"@))
}

/// Pushing one item onto an extension keeps it an extension.
proof fn lemma_extends_push<T>(base: Seq<T>, cur: Seq<T>, x: T)
    requires
        extends(base, cur),
    ensures
        extends(base, cur.push(x)),
        appended(base, cur.push(x)) == appended(base, cur).push(x),
{
    assert(cur.push(x).take(base.len() as int) =~= base);
    assert(cur.push(x).skip(base.len() as int) =~= cur.skip(base.len() as int).push(x));
}

/// Extensions compose.
pub proof fn lemma_extends_trans<T>(a: Seq<T>, b: Seq<T>, c: Seq<T>)
    requires
        extends(a, b),
        extends(b, c),
    ensures
        extends(a, c),
        appended(a, c) == appended(a, b) + appended(b, c),
{
    assert(c.take(a.len() as int) =~= a);
    assert(c.skip(a.len() as int) =~= b.skip(a.len() as int) + c.skip(b.len() as int));
}

/// Non-terminal extensions compose.
pub proof fn lemma_nonterminal_trans(a: Seq<SinkEvent>, b: Seq<SinkEvent>, c: Seq<SinkEvent>)
    requires
        nonterminal_extension(a, b),
        nonterminal_extension(b, c),
    ensures
        nonterminal_extension(a, c),
{
    assert(c.take(a.len() as int) =~= a);
    assert forall|i: int| a.len() <= i < c.len() implies !(#[trigger] c[i]).is_terminal_spec() by {
        if i < b.len() {
            assert(c.take(b.len() as int)[i] == c[i]);
            assert(b[i] == c[i]);
        }
    }
}

/// Pushing a non-terminal event keeps the extension non-terminal.
proof fn lemma_nonterminal_push(base: Seq<SinkEvent>, cur: Seq<SinkEvent>, e: SinkEvent)
    requires
        nonterminal_extension(base, cur),
        !e.is_terminal_spec(),
    ensures
        nonterminal_extension(base, cur.push(e)),
{
    assert(cur.push(e).take(base.len() as int) =~= base);
}

/// Downloads one part: fetches its range, dispatches the delivered
/// buffers as chunks, retries transient request failures, and resumes a
/// broken byte stream at the first missing byte, all within the retry
/// budget.
///
/// A panic of the modelled adapter escapes as `Panicked` when retries
/// are off; with retries on it is caught and turned into an `Io` error
/// reading "panicked while retrying".
#[verifier::rlimit(100)]
#[verifier::loop_isolation(false)]
pub fn download_part(
    client: &mut SimClient,
    req: RangeRequest,
    retries: &Option<RetryConfig>,
    out: &mut Vec<ChunkStreamItem>,
    sink: &mut Vec<SinkEvent>,
) -> (r: PartOutcome)
    requires
        old(client).wf_spec(),
        req.blob_range.wf(),
        req.range_offset + req.len_spec() <= u64::MAX,
    ensures
        client_preserved(*old(client), *final(client)),
        extends(old(out)@, final(out)@),
        nonterminal_extension(old(sink)@, final(sink)@),
        (r is Completed ==> part_complete_spec(
            appended(old(out)@, final(out)@),
            req,
            old(client).blob_spec(),
        )),
        (r is Failed ==> part_failed_spec(appended(old(out)@, final(out)@), req)),
        (r is Panicked ==> part_panicked_spec(appended(old(out)@, final(out)@), req)),
        part_outcome_forced(
            *old(client),
            req,
            *retries,
            r,
            appended(old(out)@, final(out)@),
        ),
        final(client).responses_spec() == old(client).responses_spec(),
        final(client).next_response_spec() >= old(client).next_response_spec(),
        (fetch_range_ok(*old(client), req.blob_range) && old(client).next_response_spec() < old(
            client,
        ).responses_spec().len() ==> final(client).next_response_spec() > old(
            client,
        ).next_response_spec()),
        appended(old(sink)@, final(sink)@).len() >= 1,
        appended(old(sink)@, final(sink)@)[0] == SinkEvent::PartStarted(req.part_index),
        (r is Completed ==> (appended(old(sink)@, final(sink)@).last()
            matches SinkEvent::PartCompleted(p, n, b) && p == req.part_index && n == appended(
            old(out)@,
            final(out)@,
        ).len() && b == req.len_spec())),
{
    let ghost out0 = out@;
    let ghost sink0 = sink@;
    proof {
        assert(out@.take(out0.len() as int) =~= out0);
        assert(sink@.take(sink0.len() as int) =~= sink0);
    }
    sink.push(SinkEvent::PartStarted(req.part_index));
    proof {
        lemma_nonterminal_push(sink0, sink0, SinkEvent::PartStarted(req.part_index));
        assert(appended(out0, out@) =~= Seq::<ChunkStreamItem>::empty());
    }
    let mut st = PartState { chunk_index: 0, bytes_received: 0 };
    let mut attempts_used: usize = 0;
    let expected = req.len();
    loop
        invariant
            client.wf_spec(),
            client.blob_spec() == old(client).blob_spec(),
            client.chunk_size_spec() == old(client).chunk_size_spec(),
            extends(out0, out@),
            nonterminal_extension(sink0, sink@),
            items_ok(appended(out0, out@)),
            part_chunks_wf(appended(out0, out@), req),
            st.chunk_index == appended(out0, out@).len(),
            st.bytes_received == items_bytes(appended(out0, out@)).len(),
            st.chunk_index <= st.bytes_received <= req.len_spec(),
            (fetch_range_ok(*client, req.blob_range) ==> items_bytes(appended(out0, out@))
                == old(client).blob_spec().subrange(
                req.blob_range.0 as int,
                req.blob_range.0 + st.bytes_received,
            )),
            (retries matches Some(rc) ==> attempts_used <= rc.max_attempts),
            (retries is None ==> attempts_used == 0),
            client.responses_spec() == old(client).responses_spec(),
            client.next_response_spec() >= old(client).next_response_spec(),
            sink@.len() > sink0.len(),
            sink@[sink0.len() as int] == SinkEvent::PartStarted(req.part_index),
            (attempts_used == 0 ==> *client == *old(client) && st.chunk_index == 0
                && st.bytes_received == 0 && out@ == out0),
            (attempts_used == 1 ==> client.next_response_spec()
                == crate::condow_client::advance_spec(*old(client))),
            (attempts_used >= 1 ==> client.next_response_spec()
                >= crate::condow_client::advance_spec(*old(client))),
            (first_response_decides(*old(client), req, *retries) ==> attempts_used == 0),
            (resumed_once_spec(*old(client), req, *retries) ==> attempts_used <= 1),
            (attempts_used == 1 && resumed_once_spec(*old(client), req, *retries)
                ==> st.bytes_received == nth_response_spec(*old(client), 0)->StreamFailure_0
                && st.bytes_received < req.len_spec()),
        decreases retry_budget(*retries, attempts_used as int),
    {
        let ghost batch0 = appended(out0, out@);
        let ghost pre_call = out@;
        let ghost pre_sink_call = sink@;
        let ghost st0 = st;
        let sub = InclusiveRange(req.blob_range.0 + st.bytes_received, req.blob_range.1);
        let ghost pre_client = *client;
        let fetched = client.fetch(sub);
        match fetched {
            FetchResult::Stream(events) => {
                proof {
                    // A stream is only handed out for a range inside the
                    // object, so the part range is valid too.
                    assert(fetch_range_ok(pre_client, sub));
                    assert(fetch_range_ok(*client, req.blob_range));
                    assert(req.len_spec() <= old(client).blob_spec().len());
                    assert(old(client).blob_spec().len() <= usize::MAX);
                }
                let ghost ev = events@;
                let ghost blob = old(client).blob_spec();
                let ghost sub_len = sub.1 - sub.0 + 1;
                let outcome = consume_and_dispatch_bytes(&req, &mut st, events, out, sink);
                proof {
                    lemma_extends_trans(out0, pre_call, out@);
                    lemma_nonterminal_trans(sink0, pre_sink_call, sink@);
                    let resp = pre_client.current_response_spec();
                    let b = appended(pre_call, out@);
                    if consume_no_error(outcome) {
                        lemma_rel_chunks_stitch(batch0, b, req, 0, 0);
                        assert(batch0 + b =~= appended(out0, out@));
                        lemma_items_bytes_add(batch0, b);
                    } else {
                        lemma_rel_chunks_stitch(batch0, b.drop_last(), req, 0, 0);
                        assert(batch0 + b.drop_last() =~= appended(out0, out@).drop_last());
                        assert(batch0 + b =~= appended(out0, out@));
                        lemma_items_bytes_add(batch0, b);
                        lemma_items_bytes_add(batch0, b.drop_last());
                        assert(appended(out0, out@).last() == b.last());
                    }
                    // Which stream shape the scripted response produced.
                    match resp {
                        crate::condow_client::FetchResponse::Success => {
                            assert(crate::condow_client::ok_stream_spec(
                                ev,
                                blob.subrange(sub.0 as int, sub.1 + 1),
                            ));
                            assert(st0.bytes_received + stream_bytes(ev).len()
                                == req.len_spec());
                        },
                        crate::condow_client::FetchResponse::StreamFailure(k) => {
                            assert(stream_bytes(ev).len() <= sub_len);
                        },
                        crate::condow_client::FetchResponse::StreamPanic(k) => {
                            assert(stream_bytes(ev).len() <= sub_len);
                        },
                        _ => {
                            assert(false);
                        },
                    }
                }
                match outcome {
                    StreamConsumeOutcome::Finished => {
                        proof {
                            let b = appended(pre_call, out@);
                            assert(items_bytes(b) == blob.subrange(sub.0 as int, sub.1 + 1));
                            assert(items_bytes(appended(out0, out@)) =~= blob.subrange(
                                req.blob_range.0 as int,
                                req.blob_range.1 + 1,
                            ));
                        }
                        let ghost pre_sink = sink@;
                        let done = SinkEvent::PartCompleted(
                            req.part_index,
                            st.chunk_index,
                            st.bytes_received,
                        );
                        let ghost done_g = done;
                        sink.push(done);
                        proof {
                            lemma_nonterminal_push(sink0, pre_sink, done_g);
                        }
                        return PartOutcome::Completed;
                    },
                    StreamConsumeOutcome::FailedTooMany => {
                        return PartOutcome::Failed;
                    },
                    StreamConsumeOutcome::FailedWrongCount => {
                        return PartOutcome::Failed;
                    },
                    StreamConsumeOutcome::Interrupted(io) => {
                        proof {
                            let b = appended(pre_call, out@);
                            assert(items_bytes(b) == stream_bytes(ev));
                        }
                        let retry = match retries {
                            Some(rc) => attempts_used < rc.max_attempts,
                            None => false,
                        };
                        if retry {
                            attempts_used = attempts_used + 1;
                            let ghost pre_sink = sink@;
                            sink.push(SinkEvent::RetryAttempt(attempts_used));
                            proof {
                                lemma_nonterminal_push(
                                    sink0,
                                    pre_sink,
                                    SinkEvent::RetryAttempt(attempts_used as usize),
                                );
                                if fetch_range_ok(*client, req.blob_range) {
                                    assert(blob.subrange(req.blob_range.0 as int, sub.0 as int)
                                        + stream_bytes(ev) =~= blob.subrange(
                                        req.blob_range.0 as int,
                                        req.blob_range.0 + st.bytes_received,
                                    ));
                                }
                            }
                        } else {
                            let ghost pre_sink = sink@;
                            sink.push(SinkEvent::PartFailed(req.part_index));
                            let IoError(msg) = io;
                            let err = CondowError::new_io(msg.as_str());
                            let ghost err_g = err;
                            let ghost pre_out = out@;
                            out.push(Err(err));
                            proof {
                                lemma_nonterminal_push(
                                    sink0,
                                    pre_sink,
                                    SinkEvent::PartFailed(req.part_index),
                                );
                                lemma_extends_push(
                                    out0,
                                    pre_out,
                                    Err::<Chunk, CondowError>(err_g),
                                );
                                lemma_items_bytes_push(
                                    appended(out0, pre_out),
                                    Err::<Chunk, CondowError>(err_g),
                                );
                                assert(appended(out0, out@).drop_last() =~= appended(
                                    out0,
                                    pre_out,
                                ));
                            }
                            return PartOutcome::Failed;
                        }
                    },
                    StreamConsumeOutcome::Panicked => {
                        proof {
                            let b = appended(pre_call, out@);
                            assert(items_bytes(b) == stream_bytes(ev));
                        }
                        if retries.is_some() {
                            let ghost pre_sink = sink@;
                            sink.push(SinkEvent::PartFailed(req.part_index));
                            let err = CondowError::new_io("panicked while retrying");
                            let ghost err_g = err;
                            let ghost pre_out = out@;
                            out.push(Err(err));
                            proof {
                                lemma_nonterminal_push(
                                    sink0,
                                    pre_sink,
                                    SinkEvent::PartFailed(req.part_index),
                                );
                                lemma_extends_push(
                                    out0,
                                    pre_out,
                                    Err::<Chunk, CondowError>(err_g),
                                );
                                lemma_items_bytes_push(
                                    appended(out0, pre_out),
                                    Err::<Chunk, CondowError>(err_g),
                                );
                                assert(appended(out0, out@).drop_last() =~= appended(
                                    out0,
                                    pre_out,
                                ));
                            }
                            return PartOutcome::Failed;
                        } else {
                            return PartOutcome::Panicked;
                        }
                    },
                }
            },
            FetchResult::Error(e) => {
                let retry = should_retry(e.is_retryable(), attempts_used, retries);
                if retry {
                    attempts_used = attempts_used + 1;
                    let ghost pre_sink = sink@;
                    sink.push(SinkEvent::RetryAttempt(attempts_used));
                    proof {
                        lemma_nonterminal_push(
                            sink0,
                            pre_sink,
                            SinkEvent::RetryAttempt(attempts_used as usize),
                        );
                    }
                } else {
                    let ghost pre_sink = sink@;
                    sink.push(SinkEvent::PartFailed(req.part_index));
                    let ghost err_g = e;
                    let ghost pre_out = out@;
                    out.push(Err(e));
                    proof {
                        lemma_nonterminal_push(
                            sink0,
                            pre_sink,
                            SinkEvent::PartFailed(req.part_index),
                        );
                        lemma_extends_push(out0, pre_out, Err::<Chunk, CondowError>(err_g));
                        lemma_items_bytes_push(
                            appended(out0, pre_out),
                            Err::<Chunk, CondowError>(err_g),
                        );
                        assert(appended(out0, out@).drop_last() =~= appended(out0, pre_out));
                    }
                    return PartOutcome::Failed;
                }
            },
            FetchResult::Panic => {
                if retries.is_some() {
                    let ghost pre_sink = sink@;
                    sink.push(SinkEvent::PartFailed(req.part_index));
                    let err = CondowError::new_io("panicked while retrying");
                    let ghost err_g = err;
                    let ghost pre_out = out@;
                    out.push(Err(err));
                    proof {
                        lemma_nonterminal_push(
                            sink0,
                            pre_sink,
                            SinkEvent::PartFailed(req.part_index),
                        );
                        lemma_extends_push(out0, pre_out, Err::<Chunk, CondowError>(err_g));
                        lemma_items_bytes_push(
                            appended(out0, pre_out),
                            Err::<Chunk, CondowError>(err_g),
                        );
                        assert(appended(out0, out@).drop_last() =~= appended(out0, pre_out));
                    }
                    return PartOutcome::Failed;
                } else {
                    return PartOutcome::Panicked;
                }
            },
        }
    }
}

/// If every event before the last is a payload buffer and the event at
/// `i` is not, then `i` is the last position.
proof fn consume_terminal_position(ev: Seq<StreamEvent>, i: int)
    requires
        0 <= i < ev.len(),
        !(ev[i] is Bytes),
    ensures
        (ev_broken(ev, false) || ev_broken(ev, true)) ==> i == ev.len() - 1,
{
    if ev_broken(ev, false) || ev_broken(ev, true) {
        if i < ev.len() - 1 {
            assert(ev[i] matches StreamEvent::Bytes(b) && b@.len() > 0);
        }
    }
}

/// The bounded queue of part requests one worker drains.
///
/// A concurrent host spawns a task per worker; the dispatcher enqueues
/// while the task drains. Here the queue is a value; the enqueue
/// contract is the dispatcher's interface.
pub struct SequentialDownloader {
    queue: Vec<RangeRequest>,
    capacity: usize,
    disconnected: bool,
}

impl SequentialDownloader {
    /// The queued part requests, oldest first.
    pub closed spec fn queue_spec(self) -> Seq<RangeRequest> {
        self.queue@
    }

    /// How many requests the queue holds at most.
    pub closed spec fn capacity_spec(self) -> int {
        self.capacity as int
    }

    /// Whether the worker is gone and the queue accepts nothing more.
    pub closed spec fn disconnected_spec(self) -> bool {
        self.disconnected
    }

    /// A connected worker queue of the given capacity.
    pub fn new(buffer_size: usize) -> (r: Self)
        requires
            buffer_size >= 1,
        ensures
            r.queue_spec() == Seq::<RangeRequest>::empty(),
            r.capacity_spec() == buffer_size,
            !r.disconnected_spec(),
    {
        let r = SequentialDownloader { queue: Vec::new(), capacity: buffer_size, disconnected: false };
        proof {
            assert(r.queue_spec() =~= Seq::<RangeRequest>::empty());
        }
        r
    }

    /// Offers one part request to this worker without blocking:
    /// `Ok(None)` when it was taken, `Ok(Some(req))` handed back when
    /// the queue is full, `Err(())` when the worker is gone.
    pub fn enqueue(&mut self, req: RangeRequest) -> (r: Result<Option<RangeRequest>, ()>)
        ensures
            final(self).capacity_spec() == old(self).capacity_spec(),
            final(self).disconnected_spec() == old(self).disconnected_spec(),
            (old(self).disconnected_spec() ==> r == Err::<Option<RangeRequest>, ()>(())
                && final(self).queue_spec() == old(self).queue_spec()),
            (!old(self).disconnected_spec() && old(self).queue_spec().len()
                >= old(self).capacity_spec() ==> r == Ok::<Option<RangeRequest>, ()>(Some(req))
                && final(self).queue_spec() == old(self).queue_spec()),
            (!old(self).disconnected_spec() && old(self).queue_spec().len()
                < old(self).capacity_spec() ==> r == Ok::<Option<RangeRequest>, ()>(None)
                && final(self).queue_spec() == old(self).queue_spec().push(req)),
    {
        if self.disconnected {
            return Err(());
        }
        if self.queue.len() >= self.capacity {
            return Ok(Some(req));
        }
        self.queue.push(req);
        Ok(None)
    }

    /// Takes the oldest queued request; the worker's drain step.
    pub fn next_request(&mut self) -> (r: Option<RangeRequest>)
        ensures
            final(self).capacity_spec() == old(self).capacity_spec(),
            final(self).disconnected_spec() == old(self).disconnected_spec(),
            (old(self).queue_spec().len() == 0 ==> r is None && final(self).queue_spec()
                == old(self).queue_spec()),
            (old(self).queue_spec().len() > 0 ==> r == Some(old(self).queue_spec()[0])
                && final(self).queue_spec() == old(self).queue_spec().skip(1)),
    {
        if self.queue.len() == 0 {
            return None;
        }
        let req = self.queue.remove(0);
        proof {
            assert(self.queue@ =~= old(self).queue_spec().skip(1));
        }
        Some(req)
    }

    /// The worker is gone; every later offer is refused.
    pub fn disconnect(&mut self)
        ensures
            final(self).disconnected_spec(),
            final(self).queue_spec() == old(self).queue_spec(),
            final(self).capacity_spec() == old(self).capacity_spec(),
    {
        self.disconnected = true;
    }
}

/// The per-worker completion flag and the decisions of the worker's
/// exit path.
///
/// A host runs the drop path on every exit: [`DownloaderContext::exit_error`]
/// says which error item, if any, the exit still owes the stream.
pub struct DownloaderContext {
    completed: bool,
}

impl DownloaderContext {
    /// Whether the worker ended in an orderly way.
    pub closed spec fn completed_spec(self) -> bool {
        self.completed
    }

    /// A context for a worker that has not finished yet.
    pub fn new() -> (r: Self)
        ensures
            !r.completed_spec(),
    {
        DownloaderContext { completed: false }
    }

    /// Marks the worker's work as done; its exit then owes nothing.
    pub fn mark_successful(&mut self)
        ensures
            final(self).completed_spec(),
    {
        self.completed = true;
    }

    /// Marks the worker as failed in an orderly way: the error was
    /// already delivered, the exit owes nothing more.
    pub fn mark_failed(&mut self)
        ensures
            final(self).completed_spec(),
    {
        self.completed = true;
    }

    /// What the worker's exit still owes the stream: nothing after an
    /// orderly end; the fixed panic error when the exit runs while
    /// unwinding; a generic error otherwise.
    pub fn exit_error(&self, panicking: bool) -> (r: Option<CondowError>)
        ensures
            (self.completed_spec() ==> r is None),
            (!self.completed_spec() && panicking ==> (r matches Some(e) && e.kind_spec()
                == CondowErrorKind::Other && e.msg_spec()
                == "download ended unexpectedly due to a panic"@)),
            (!self.completed_spec() && !panicking ==> (r matches Some(e) && e.kind_spec()
                == CondowErrorKind::Other && e.msg_spec() == "download ended unexpectedly"@)),
    {
        if self.completed {
            None
        } else if panicking {
            Some(CondowError::new_other("download ended unexpectedly due to a panic"))
        } else {
            Some(CondowError::new_other("download ended unexpectedly"))
        }
    }
}

} // verus!
