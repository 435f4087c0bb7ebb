//! The modelled store adapter.
//!
//! The machinery downloads from a [`SimClient`]: a client that serves a
//! blob held in memory, streams it in buffers of a configurable size,
//! and answers each fetch with the next scripted response. An empty
//! script means every fetch succeeds, which makes the client double as
//! a plain in-memory store.

use vstd::prelude::*;

use crate::errors::{CondowError, CondowErrorKind, IoError};
use crate::range::InclusiveRange;

verus! {

/// One event of a fetched byte stream.
#[derive(Debug)]
pub enum StreamEvent {
    /// A buffer of payload bytes.
    Bytes(Vec<u8>),
    /// The stream broke with an I/O failure.
    Fail(IoError),
    /// The stream panicked while being read.
    Panic,
}

/// What one fetch call comes back with.
#[derive(Debug)]
pub enum FetchResult {
    /// The request was accepted; the events follow.
    Stream(Vec<StreamEvent>),
    /// The request itself failed.
    Error(CondowError),
    /// The call panicked.
    Panic,
}

/// How the client answers one fetch.
#[derive(Clone, Copy, Debug, PartialEq, Eq, Structural)]
pub enum FetchResponse {
    /// Serve the requested range completely.
    Success,
    /// Fail the request with an error of this kind.
    Failure(CondowErrorKind),
    /// Serve this many bytes, then break the stream with an I/O failure.
    StreamFailure(usize),
    /// Serve this many bytes, then panic.
    StreamPanic(usize),
    /// Panic instead of answering.
    Panic,
}

/// The payload bytes of `events`, concatenated in order.
pub open spec fn stream_bytes(events: Seq<StreamEvent>) -> Seq<u8>
    decreases events.len(),
{
    if events.len() == 0 {
        Seq::empty()
    } else {
        stream_bytes(events.drop_last()) + (match events.last() {
            StreamEvent::Bytes(b) => b@,
            _ => Seq::<u8>::empty(),
        })
    }
}

/// Appending one event appends its payload.
pub proof fn lemma_stream_bytes_push(events: Seq<StreamEvent>, e: StreamEvent)
    ensures
        stream_bytes(events.push(e)) == stream_bytes(events) + (match e {
            StreamEvent::Bytes(b) => b@,
            _ => Seq::<u8>::empty(),
        }),
{
    assert(events.push(e).drop_last() =~= events);
}

/// Concatenating event sequences concatenates their payloads.
pub proof fn lemma_stream_bytes_add(a: Seq<StreamEvent>, b: Seq<StreamEvent>)
    ensures
        stream_bytes(a + b) == stream_bytes(a) + stream_bytes(b),
    decreases b.len(),
{
    if b.len() == 0 {
        assert(a + b =~= a);
        assert(stream_bytes(a + b) =~= stream_bytes(a) + stream_bytes(b));
    } else {
        let b0 = b.take(b.len() - 1);
        let x = b[b.len() - 1];
        assert(b =~= b0.push(x));
        assert(a + b =~= (a + b0).push(x));
        lemma_stream_bytes_add(a, b0);
        lemma_stream_bytes_push(a + b0, x);
        lemma_stream_bytes_push(b0, x);
        assert(stream_bytes(a + b) =~= stream_bytes(a) + stream_bytes(b));
    }
}

/// Whether every event is a non-empty payload buffer.
pub open spec fn ev_all_bytes(ev: Seq<StreamEvent>) -> bool {
    forall|i: int|
        0 <= i < ev.len() ==> ((#[trigger] ev[i]) matches StreamEvent::Bytes(b) && b@.len() > 0)
}

/// Whether the events are non-empty payload buffers followed by exactly
/// one terminal `Fail` (or `Panic` when `panics` is set).
pub open spec fn ev_broken(ev: Seq<StreamEvent>, panics: bool) -> bool {
    &&& ev.len() > 0
    &&& (if panics {
        ev.last() is Panic
    } else {
        ev.last() is Fail
    })
    &&& forall|i: int|
        0 <= i < ev.len() - 1 ==> ((#[trigger] ev[i]) matches StreamEvent::Bytes(b) && b@.len()
            > 0)
}

/// A complete, cleanly ending stream of `data`: non-empty payload
/// buffers only.
pub open spec fn ok_stream_spec(ev: Seq<StreamEvent>, data: Seq<u8>) -> bool {
    &&& ev_all_bytes(ev)
    &&& stream_bytes(ev) == data
}

/// A stream of `data` that ends in a failure: non-empty payload buffers,
/// then one terminal `Fail` (or `Panic` when `panics` is set).
pub open spec fn broken_stream_spec(ev: Seq<StreamEvent>, data: Seq<u8>, panics: bool) -> bool {
    &&& ev_broken(ev, panics)
    &&& stream_bytes(ev) == data
}

/// The store adapter of the machinery: serves a blob held in memory,
/// one scripted response per fetch.
#[derive(Clone, Debug)]
pub struct SimClient {
    blob: Vec<u8>,
    chunk_size: usize,
    responses: Vec<FetchResponse>,
    next_response: usize,
}

impl SimClient {
    /// The object this client serves.
    pub closed spec fn blob_spec(self) -> Seq<u8> {
        self.blob@
    }

    /// How many bytes one stream event carries at most.
    pub closed spec fn chunk_size_spec(self) -> int {
        self.chunk_size as int
    }

    /// The scripted responses.
    pub closed spec fn responses_spec(self) -> Seq<FetchResponse> {
        self.responses@
    }

    /// How many responses were consumed.
    pub closed spec fn next_response_spec(self) -> int {
        self.next_response as int
    }

    /// The client is well formed when it streams at least one byte per
    /// event and has not consumed more responses than it holds.
    pub open spec fn wf_spec(self) -> bool {
        &&& self.chunk_size_spec() >= 1
        &&& 0 <= self.next_response_spec() <= self.responses_spec().len()
    }

    /// The response the next fetch is answered with.
    pub open spec fn current_response_spec(self) -> FetchResponse {
        if self.next_response_spec() < self.responses_spec().len() {
            self.responses_spec()[self.next_response_spec()]
        } else {
            FetchResponse::Success
        }
    }

    /// A client serving `blob` in stream events of at most `chunk_size`
    /// bytes, with an empty script: every fetch succeeds.
    pub fn new(blob: Vec<u8>, chunk_size: usize) -> (r: Self)
        requires
            chunk_size >= 1,
        ensures
            r.wf_spec(),
            r.blob_spec() == blob@,
            r.chunk_size_spec() == chunk_size,
            r.responses_spec() == Seq::<FetchResponse>::empty(),
            r.next_response_spec() == 0,
    {
        let r = SimClient { blob, chunk_size, responses: Vec::new(), next_response: 0 };
        proof {
            assert(r.responses_spec() =~= Seq::<FetchResponse>::empty());
        }
        r
    }

    /// Scripts one more response; responses are consumed in the order
    /// they were pushed.
    pub fn push_response(&mut self, resp: FetchResponse)
        ensures
            final(self).responses_spec() == old(self).responses_spec().push(resp),
            final(self).blob_spec() == old(self).blob_spec(),
            final(self).chunk_size_spec() == old(self).chunk_size_spec(),
            final(self).next_response_spec() == old(self).next_response_spec(),
            old(self).wf_spec() ==> final(self).wf_spec(),
    {
        self.responses.push(resp);
    }

    /// A copy of the object this client serves.
    pub fn data(&self) -> (r: Vec<u8>)
        ensures
            r@ == self.blob_spec(),
    {
        copy_slice(&self.blob, 0, self.blob.len())
    }

    /// The object's size in bytes.
    pub fn get_size(&self) -> (r: u64)
        requires
            self.blob_spec().len() <= u64::MAX,
        ensures
            r == self.blob_spec().len(),
    {
        self.blob.len() as u64
    }

    /// Answers one fetch for `range` with the next scripted response.
    ///
    /// A range past the object's end is refused with `InvalidRange`
    /// without consuming a response.
    pub fn fetch(&mut self, range: InclusiveRange) -> (r: FetchResult)
        requires
            old(self).wf_spec(),
        ensures
            final(self).wf_spec(),
            final(self).blob_spec() == old(self).blob_spec(),
            final(self).chunk_size_spec() == old(self).chunk_size_spec(),
            final(self).responses_spec() == old(self).responses_spec(),
            old(self).blob_spec().len() <= usize::MAX,
            (!fetch_range_ok(*old(self), range) ==> *final(self) == *old(self)
                && fetch_invalid_range_spec(r)),
            (fetch_range_ok(*old(self), range) ==> final(self).next_response_spec()
                == advance_spec(*old(self))),
            (fetch_range_ok(*old(self), range) ==> fetch_result_spec(
                r,
                old(self).current_response_spec(),
                old(self).blob_spec(),
                range,
            )),
    {
        let blob_len = self.blob.len();
        if range.0 > range.1 || range.1 >= (blob_len as u64) {
            return FetchResult::Error(
                CondowError::new_invalid_range("range is beyond the object's end"),
            );
        }
        let resp: FetchResponse = if self.next_response < self.responses.len() {
            let resp = self.responses[self.next_response];
            self.next_response = self.next_response + 1;
            resp
        } else {
            FetchResponse::Success
        };
        let a = range.0 as usize;
        let b = range.1 as usize;
        let len = b - a + 1;
        match resp {
            FetchResponse::Success => {
                let events = self.make_events(a, len);
                FetchResult::Stream(events)
            },
            FetchResponse::Failure(kind) => {
                FetchResult::Error(CondowError::new(kind, "a simulated request failure"))
            },
            FetchResponse::StreamFailure(k) => {
                let served = if k < len {
                    k
                } else {
                    len
                };
                let mut events = self.make_events(a, served);
                let ghost pre = events@;
                let terminal = StreamEvent::Fail(IoError(String::new()));
                let ghost terminal_g = terminal;
                events.push(terminal);
                proof {
                    lemma_stream_bytes_push(pre, terminal_g);
                    assert(stream_bytes(events@) =~= stream_bytes(pre));
                }
                FetchResult::Stream(events)
            },
            FetchResponse::StreamPanic(k) => {
                let served = if k < len {
                    k
                } else {
                    len
                };
                let mut events = self.make_events(a, served);
                let ghost pre = events@;
                events.push(StreamEvent::Panic);
                proof {
                    lemma_stream_bytes_push(pre, StreamEvent::Panic);
                    assert(stream_bytes(events@) =~= stream_bytes(pre));
                }
                FetchResult::Stream(events)
            },
            FetchResponse::Panic => FetchResult::Panic,
        }
    }

    /// Streams `served` bytes of the blob from `from` on, in buffers of
    /// at most the configured chunk size.
    fn make_events(&self, from: usize, served: usize) -> (r: Vec<StreamEvent>)
        requires
            self.wf_spec(),
            from + served <= self.blob_spec().len(),
        ensures
            ok_stream_spec(r@, self.blob_spec().subrange(from as int, from + served)),
    {
        let blob_len = self.blob.len();
        let mut events: Vec<StreamEvent> = Vec::new();
        let mut pos: usize = 0;
        proof {
            assert(stream_bytes(events@) =~= self.blob_spec().subrange(from as int, from as int));
        }
        while pos < served
            invariant
                self.wf_spec(),
                self.blob_spec().len() == blob_len,
                from + served <= self.blob_spec().len(),
                0 <= pos <= served,
                forall|i: int|
                    0 <= i < events@.len() ==> ((#[trigger] events@[i])
                        matches StreamEvent::Bytes(b) && b@.len() > 0),
                stream_bytes(events@) == self.blob_spec().subrange(from as int, from + pos),
            decreases served - pos,
        {
            let take = if served - pos >= self.chunk_size {
                self.chunk_size
            } else {
                served - pos
            };
            let buf = copy_slice(&self.blob, from + pos, take);
            let ghost pre = events@;
            let ghost buf_view = buf@;
            events.push(StreamEvent::Bytes(buf));
            proof {
                lemma_stream_bytes_push(pre, events@.last());
                assert(self.blob_spec().subrange(from as int, from + pos) + buf_view
                    =~= self.blob_spec().subrange(from as int, from + pos + take));
            }
            pos = pos + take;
        }
        events
    }
}

/// Whether `range` lies within the client's object.
pub open spec fn fetch_range_ok(c: SimClient, range: InclusiveRange) -> bool {
    range.0 <= range.1 && range.1 < c.blob_spec().len()
}

/// The result of a refused fetch: an `InvalidRange` error.
pub open spec fn fetch_invalid_range_spec(r: FetchResult) -> bool {
    r matches FetchResult::Error(e) && e.kind_spec() == CondowErrorKind::InvalidRange
}

/// The response cursor after a fetch: one scripted response is consumed.
pub open spec fn advance_spec(c: SimClient) -> int {
    if c.next_response_spec() < c.responses_spec().len() {
        c.next_response_spec() + 1
    } else {
        c.next_response_spec()
    }
}

/// What a fetch of `range` delivers for each scripted response.
pub open spec fn fetch_result_spec(
    r: FetchResult,
    resp: FetchResponse,
    blob: Seq<u8>,
    range: InclusiveRange,
) -> bool {
    let a = range.0 as int;
    let len = range.1 - range.0 + 1;
    match resp {
        FetchResponse::Success => {
            r matches FetchResult::Stream(ev) && ok_stream_spec(ev@, blob.subrange(a, a + len))
        },
        FetchResponse::Failure(kind) => {
            r matches FetchResult::Error(e) && e.kind_spec() == kind
        },
        FetchResponse::StreamFailure(k) => {
            r matches FetchResult::Stream(ev) && broken_stream_spec(
                ev@,
                blob.subrange(a, a + (if k < len { k as int } else { len })),
                false,
            )
        },
        FetchResponse::StreamPanic(k) => {
            r matches FetchResult::Stream(ev) && broken_stream_spec(
                ev@,
                blob.subrange(a, a + (if k < len { k as int } else { len })),
                true,
            )
        },
        FetchResponse::Panic => r is Panic,
    }
}

/// A copy of `n` bytes of `v` from `from` on.
fn copy_slice(v: &Vec<u8>, from: usize, n: usize) -> (r: Vec<u8>)
    requires
        from + n <= v@.len(),
    ensures
        r@ == v@.subrange(from as int, from + n),
{
    let total = v.len();
    let mut out: Vec<u8> = Vec::new();
    let mut k: usize = 0;
    while k < n
        invariant
            from + n <= v@.len(),
            v@.len() == total,
            0 <= k <= n,
            out@ =~= v@.subrange(from as int, from + k),
        decreases n - k,
    {
        let b = v[from + k];
        out.push(b);
        proof {
            assert(out@ =~= v@.subrange(from as int, from + k + 1));
        }
        k = k + 1;
    }
    out
}

} // verus!
