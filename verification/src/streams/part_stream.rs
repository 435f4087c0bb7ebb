//! The part-ordered stream: demultiplexes interleaved chunks by part
//! index and hands out whole parts in strictly increasing part index
//! order.

use vstd::prelude::*;

use crate::errors::CondowError;
use crate::streams::chunk::{items_ok, Chunk, ChunkStreamItem};
use crate::streams::chunk_stream::ChunkStream;

verus! {

/// The chunks belonging to part `cursor`.
pub open spec fn is_part_chunk(cursor: u64) -> spec_fn(Chunk) -> bool {
    |c: Chunk| c.part_index == cursor
}

/// The chunks belonging to any other part.
pub open spec fn is_other_chunk(cursor: u64) -> spec_fn(Chunk) -> bool {
    |c: Chunk| c.part_index != cursor
}

/// The chunks of the `Ok` items, in delivery order.
pub open spec fn ok_chunks_spec(items: Seq<ChunkStreamItem>) -> Seq<Chunk>
    decreases items.len(),
{
    if items.len() == 0 {
        Seq::empty()
    } else {
        let rest = ok_chunks_spec(items.drop_last());
        if items.last() is Ok {
            rest.push(items.last()->Ok_0)
        } else {
            rest
        }
    }
}

/// Appending one chunk item appends its chunk.
proof fn lemma_ok_chunks_push(items: Seq<ChunkStreamItem>, item: ChunkStreamItem)
    ensures
        ok_chunks_spec(items.push(item)) == (if item is Ok {
            ok_chunks_spec(items).push(item->Ok_0)
        } else {
            ok_chunks_spec(items)
        }),
{
    assert(items.push(item).drop_last() =~= items);
}

/// Whether `chunks` holds the closing chunk of part `cursor`.
pub open spec fn holds_final_chunk(chunks: Seq<Chunk>, cursor: u64) -> bool {
    exists|i: int|
        0 <= i < chunks.len() && (#[trigger] chunks[i]).part_index == cursor && chunks[
        i
        ].bytes_left == 0
}

/// Whether `items` holds a chunk closing part `cursor`.
pub open spec fn holds_final_item(items: Seq<ChunkStreamItem>, cursor: u64) -> bool {
    exists|i: int|
        0 <= i < items.len() && ((#[trigger] items[i]) matches Ok(c) && c.part_index == cursor
            && c.bytes_left == 0)
}

/// What holds of an emitted part: it is the part the cursor named, its
/// chunks are exactly the chunks of that part seen so far (the buffered
/// ones plus those consumed from the stream, in delivery order,
/// including its closing chunk), the other chunks stay buffered, and
/// the cursor moves on.
pub open spec fn part_emitted_wf(p: Part, s0: PartStream, s1: PartStream) -> bool {
    &&& p.part_index == s0.next_part_spec()
    &&& s1.next_part_spec() == s0.next_part_spec() + 1
    &&& p.chunks@.len() > 0
    &&& forall|i: int|
        0 <= i < p.chunks@.len() ==> (#[trigger] p.chunks@[i]).part_index == p.part_index
    &&& exists|i: int| 0 <= i < p.chunks@.len() && (#[trigger] p.chunks@[i]).bytes_left == 0
    &&& items_ok(consumed_prefix(s0.stream_spec(), s1.stream_spec()))
    &&& s0.stream_spec().remaining() == consumed_prefix(s0.stream_spec(), s1.stream_spec())
        + s1.stream_spec().remaining()
    &&& p.chunks@ == (s0.buffered_spec() + ok_chunks_spec(
        consumed_prefix(s0.stream_spec(), s1.stream_spec()),
    )).filter(is_part_chunk(p.part_index))
    &&& s1.buffered_spec() == (s0.buffered_spec() + ok_chunks_spec(
        consumed_prefix(s0.stream_spec(), s1.stream_spec()),
    )).filter(is_other_chunk(p.part_index))
}

/// The items the adapter consumed from the underlying stream: the
/// prefix that is gone from `s1` relative to `s0`.
pub open spec fn consumed_prefix(s0: ChunkStream, s1: ChunkStream) -> Seq<ChunkStreamItem> {
    s0.remaining().take(s0.remaining().len() - s1.remaining().len())
}

/// One whole downloaded part: its index and its chunks in delivery
/// order.
pub struct Part {
    /// Index of this part.
    pub part_index: u64,
    /// The chunks of this part, in the order they were delivered.
    pub chunks: Vec<Chunk>,
}

/// An adapter over a [`ChunkStream`] that delivers whole parts in
/// strictly increasing part index order.
///
/// Chunks of parts that are not up yet are buffered; the buffer for a
/// part is handed out as soon as its last chunk arrived.
pub struct PartStream {
    stream: ChunkStream,
    buffered: Vec<Chunk>,
    next_part: u64,
}

impl PartStream {
    /// The part index the next emitted part will have.
    pub closed spec fn next_part_spec(self) -> int {
        self.next_part as int
    }

    /// The chunks buffered for parts that are not up yet.
    pub closed spec fn buffered_spec(self) -> Seq<Chunk> {
        self.buffered@
    }

    /// The underlying chunk stream.
    pub closed spec fn stream_spec(self) -> ChunkStream {
        self.stream
    }

    /// Builds a part stream over a chunk stream.
    ///
    /// Refuses a stream that was already iterated: chunks consumed
    /// before the adapter took over would be lost.
    pub fn from_chunk_stream(stream: ChunkStream) -> (r: Result<PartStream, CondowError>)
        ensures
            (r is Ok <==> stream.is_fresh_spec()),
            (r matches Ok(ps) ==> ps.stream_spec() == stream && ps.next_part_spec() == 0
                && ps.buffered_spec().len() == 0),
            (r matches Err(e) ==> e.kind_spec() == crate::errors::CondowErrorKind::Other),
    {
        if !stream.is_fresh() {
            return Err(CondowError::new_other("stream already iterated"));
        }
        Ok(PartStream { stream, buffered: Vec::new(), next_part: 0 })
    }

    /// Delivers the next part, in part index order.
    ///
    /// Pulls chunks from the underlying stream, buffering those of later
    /// parts, until the current part's last chunk arrived. An error of
    /// the underlying stream is handed through; a stream that ends with
    /// an unfinished part is an error of its own.
    #[verifier::rlimit(100)]
    #[verifier::loop_isolation(false)]
    pub fn next_part(&mut self) -> (r: Option<Result<Part, CondowError>>)
        ensures
            (r is Some && r->Some_0 is Ok ==> part_emitted_wf(
                r->Some_0->Ok_0,
                *old(self),
                *final(self),
            )),
            (r matches Some(p_or_e) ==> (p_or_e matches Err(e) ==> (e.kind_spec()
                == crate::errors::CondowErrorKind::Other || (exists|i: int|
                0 <= i < old(self).stream_spec().remaining().len() && old(
                    self,
                ).stream_spec().remaining()[i] == Err::<Chunk, CondowError>(e))))),
            (r is None ==> final(self).buffered_spec().len() == 0
                && final(self).stream_spec().is_closed_spec()),
            (!old(self).stream_spec().is_closed_spec() && items_ok(
                old(self).stream_spec().remaining(),
            ) && old(self).next_part_spec() < u64::MAX && (holds_final_chunk(
                old(self).buffered_spec(),
                old(self).next_part_spec() as u64,
            ) || holds_final_item(
                old(self).stream_spec().remaining(),
                old(self).next_part_spec() as u64,
            )) ==> (r matches Some(x) && x is Ok)),
    {
        let ghost s_orig = self.stream;
        let ghost mut k: int = 0;
        proof {
            assert(self.stream.remaining() =~= s_orig.remaining().skip(0));
            assert(s_orig.remaining().take(0) =~= Seq::<ChunkStreamItem>::empty());
            assert(self.buffered@ =~= old(self).buffered_spec() + ok_chunks_spec(
                s_orig.remaining().take(0),
            ));
            if holds_final_chunk(old(self).buffered_spec(), self.next_part) {
                let i = choose|i: int|
                    0 <= i < old(self).buffered_spec().len() && (#[trigger] old(
                        self,
                    ).buffered_spec()[i]).part_index == self.next_part && old(
                        self,
                    ).buffered_spec()[i].bytes_left == 0;
                assert(self.buffered@[i].part_index == self.next_part && self.buffered@[
                    i
                ].bytes_left == 0);
            }
        }
        loop
            invariant
                self.next_part == old(self).next_part_spec(),
                0 <= k <= s_orig.remaining().len(),
                s_orig == old(self).stream_spec(),
                self.stream.remaining() == s_orig.remaining().skip(k),
                items_ok(s_orig.remaining().take(k)),
                self.buffered@ == old(self).buffered_spec() + ok_chunks_spec(
                    s_orig.remaining().take(k),
                ),
                (s_orig.is_closed_spec() ==> self.stream.is_closed_spec() && k == 0),
                (!s_orig.is_closed_spec() && self.stream.is_closed_spec() ==> k
                    == s_orig.remaining().len()),
                (!s_orig.is_closed_spec() && items_ok(s_orig.remaining())
                    && old(self).next_part_spec() < u64::MAX && (holds_final_chunk(
                    old(self).buffered_spec(),
                    old(self).next_part_spec() as u64,
                ) || holds_final_item(s_orig.remaining(), old(self).next_part_spec() as u64))
                    ==> (holds_final_chunk(self.buffered@, self.next_part) || holds_final_item(
                    s_orig.remaining().skip(k),
                    self.next_part,
                ))),
            decreases
                    self.stream.remaining().len() + (if self.stream.is_closed_spec() {
                        0int
                    } else {
                        1int
                    }),
        {
            if has_final_chunk(&self.buffered, self.next_part) {
                proof {
                    assert(consumed_prefix(s_orig, self.stream) =~= s_orig.remaining().take(k));
                    assert(s_orig.remaining() =~= s_orig.remaining().take(k)
                        + s_orig.remaining().skip(k));
                }
                let taken = extract_part(&mut self.buffered, self.next_part);
                let part = Part { part_index: self.next_part, chunks: taken };
                if self.next_part == u64::MAX {
                    // Part indices are dense from 0; the store cannot
                    // hold this many parts.
                    return Some(
                        Err(CondowError::new_other("too many parts for this machine")),
                    );
                }
                self.next_part = self.next_part + 1;
                proof {
                    let s0 = *old(self);
                    let s1 = *self;
                    assert(part.part_index == s0.next_part_spec());
                    assert(s1.next_part_spec() == s0.next_part_spec() + 1);
                    assert(part.chunks@.len() > 0);
                    assert(forall|i: int|
                        0 <= i < part.chunks@.len() ==> (#[trigger] part.chunks@[i]).part_index
                            == part.part_index);
                    assert(exists|i: int|
                        0 <= i < part.chunks@.len() && (#[trigger] part.chunks@[i]).bytes_left
                            == 0);
                    assert(items_ok(consumed_prefix(s0.stream_spec(), s1.stream_spec())));
                    assert(s0.stream_spec().remaining() == consumed_prefix(
                        s0.stream_spec(),
                        s1.stream_spec(),
                    ) + s1.stream_spec().remaining());
                    assert(part.chunks@ == (s0.buffered_spec() + ok_chunks_spec(
                        consumed_prefix(s0.stream_spec(), s1.stream_spec()),
                    )).filter(is_part_chunk(part.part_index)));
                    assert(s1.buffered_spec() == (s0.buffered_spec() + ok_chunks_spec(
                        consumed_prefix(s0.stream_spec(), s1.stream_spec()),
                    )).filter(is_other_chunk(part.part_index)));
                    assert(part_emitted_wf(part, s0, s1));
                }
                return Some(Ok(part));
            }
            match self.stream.next() {
                None => {
                    if self.buffered.len() > 0 {
                        self.buffered = Vec::new();
                        return Some(
                            Err(
                                CondowError::new_other(
                                    "chunk stream ended with an unfinished part",
                                ),
                            ),
                        );
                    }
                    return None;
                },
                Some(Err(e)) => {
                    proof {
                        assert(s_orig.remaining().skip(k)[0] == s_orig.remaining()[k]);
                    }
                    self.buffered = Vec::new();
                    return Some(Err(e));
                },
                Some(Ok(chunk)) => {
                    let ghost chunk_g = chunk;
                    let ghost buf_pre = self.buffered@;
                    self.buffered.push(chunk);
                    proof {
                        assert(s_orig.remaining().skip(k)[0] == s_orig.remaining()[k]);
                        assert(s_orig.remaining().take(k + 1) =~= s_orig.remaining().take(
                            k,
                        ).push(s_orig.remaining()[k]));
                        lemma_ok_chunks_push(
                            s_orig.remaining().take(k),
                            s_orig.remaining()[k],
                        );
                        let ghost skip_pre = s_orig.remaining().skip(k);
                        k = k + 1;
                        assert(self.stream.remaining() =~= s_orig.remaining().skip(k));
                        assert(self.buffered@ =~= old(self).buffered_spec() + ok_chunks_spec(
                            s_orig.remaining().take(k),
                        ));
                        // A pending closing chunk either just moved into
                        // the buffer or is still ahead in the stream.
                        if holds_final_item(skip_pre, self.next_part) {
                            let i = choose|i: int|
                                0 <= i < skip_pre.len() && ((#[trigger] skip_pre[i])
                                    matches Ok(c) && c.part_index == self.next_part
                                    && c.bytes_left == 0);
                            if i == 0 {
                                assert(self.buffered@.last() == chunk_g);
                                assert(holds_final_chunk(self.buffered@, self.next_part));
                            } else {
                                assert(s_orig.remaining().skip(k)[i - 1] == skip_pre[i]);
                                assert(holds_final_item(
                                    s_orig.remaining().skip(k),
                                    self.next_part,
                                ));
                            }
                        }
                        if holds_final_chunk(self.buffered@.drop_last(), self.next_part) {
                            let i = choose|i: int|
                                0 <= i < self.buffered@.drop_last().len() && (
                                #[trigger] self.buffered@.drop_last()[i]).part_index
                                    == self.next_part && self.buffered@.drop_last()[
                                i
                                ].bytes_left == 0;
                            assert(self.buffered@[i] == self.buffered@.drop_last()[i]);
                            assert(holds_final_chunk(self.buffered@, self.next_part));
                        }
                    }
                },
            }
        }
    }

    /// Writes all parts' bytes into `buffer`, each chunk at its range
    /// offset.
    ///
    /// Available only before any part was taken; the underlying
    /// reassembly is [`ChunkStream::write_buffer`], whose contract
    /// carries over.
    pub fn write_buffer(self, buffer: &mut Vec<u8>) -> (r: Result<usize, CondowError>)
        requires
            self.buffered_spec().len() == 0,
        ensures
            final(buffer)@.len() == old(buffer)@.len(),
            (r is Ok <==> crate::streams::chunk_stream::write_ok_spec(
                self.stream_spec(),
                old(buffer)@.len() as int,
            )),
            (r is Ok ==> final(buffer)@ == crate::streams::chunk_stream::write_all_spec(
                old(buffer)@,
                self.stream_spec().remaining(),
            )),
            (!self.stream_spec().is_fresh_spec()
                ==> crate::streams::chunk_stream::iterated_err_spec(r) && final(buffer)@ == old(
                buffer,
            )@),
            (self.stream_spec().is_fresh_spec() && old(buffer)@.len()
                >= self.stream_spec().bytes_hint_spec().0 && crate::streams::chunk_stream::tail_err_only_spec(
                self.stream_spec().remaining(),
                old(buffer)@.len() as int,
            ) ==> crate::streams::chunk_stream::r_is_last_err_spec(
                r,
                self.stream_spec().remaining(),
            )),
    {
        self.stream.write_buffer(buffer)
    }

    /// Collects all parts' bytes into a `Vec<u8>`.
    ///
    /// Available only before any part was taken; the underlying
    /// reassembly is [`ChunkStream::into_vec`], whose contract carries
    /// over.
    pub fn into_vec(self) -> (r: Result<Vec<u8>, CondowError>)
        requires
            self.buffered_spec().len() == 0,
        ensures
            (self.stream_spec().bytes_hint_spec().is_exact_spec() ==> (r is Ok
                <==> crate::streams::chunk_stream::exact_ok_spec(self.stream_spec()))),
            (self.stream_spec().bytes_hint_spec().is_exact_spec() && r is Ok ==> r->Ok_0@.len()
                == self.stream_spec().bytes_hint_spec().0),
            (self.stream_spec().bytes_hint_spec().is_exact_spec() && r is Ok ==> r->Ok_0@
                == crate::streams::chunk_stream::write_all_spec(
                crate::streams::chunk_stream::zeros_spec(
                    self.stream_spec().bytes_hint_spec().0 as int,
                ),
                self.stream_spec().remaining(),
            )),
            (!self.stream_spec().is_fresh_spec() && self.stream_spec().bytes_hint_spec().0
                <= usize::MAX ==> crate::streams::chunk_stream::iterated_err_spec(r)),
            (self.stream_spec().bytes_hint_spec().is_exact_spec()
                && self.stream_spec().is_fresh_spec() && self.stream_spec().bytes_hint_spec().0
                <= usize::MAX && crate::streams::chunk_stream::tail_err_only_spec(
                self.stream_spec().remaining(),
                self.stream_spec().bytes_hint_spec().0 as int,
            ) ==> crate::streams::chunk_stream::r_is_last_err_spec(
                r,
                self.stream_spec().remaining(),
            )),
            (!self.stream_spec().bytes_hint_spec().is_exact_spec()
                && self.stream_spec().is_fresh_spec() && self.stream_spec().bytes_hint_spec().0
                <= usize::MAX && crate::streams::chunk_stream::tail_err_growable_spec(
                self.stream_spec().remaining(),
            ) ==> crate::streams::chunk_stream::r_is_last_err_spec(
                r,
                self.stream_spec().remaining(),
            )),
    {
        self.stream.into_vec()
    }
}

/// Whether the buffer already holds the closing chunk of part `cursor`.
fn has_final_chunk(buffered: &Vec<Chunk>, cursor: u64) -> (r: bool)
    ensures
        r == exists|i: int|
            0 <= i < buffered@.len() && (#[trigger] buffered@[i]).part_index == cursor
                && buffered@[i].bytes_left == 0,
{
    let mut k: usize = 0;
    while k < buffered.len()
        invariant
            0 <= k <= buffered@.len(),
            forall|i: int|
                0 <= i < k ==> !((#[trigger] buffered@[i]).part_index == cursor && buffered@[
                i
                ].bytes_left == 0),
        decreases buffered@.len() - k,
    {
        if buffered[k].part_index == cursor && buffered[k].bytes_left == 0 {
            return true;
        }
        k = k + 1;
    }
    false
}

/// Takes every chunk of part `cursor` out of the buffer, keeping the
/// delivery order on both sides.
fn extract_part(buffered: &mut Vec<Chunk>, cursor: u64) -> (r: Vec<Chunk>)
    ensures
        r@ == old(buffered)@.filter(is_part_chunk(cursor)),
        final(buffered)@ == old(buffered)@.filter(is_other_chunk(cursor)),
        forall|i: int| 0 <= i < r@.len() ==> (#[trigger] r@[i]).part_index == cursor,
        forall|i: int|
            0 <= i < final(buffered)@.len() ==> (#[trigger] final(buffered)@[i]).part_index
                != cursor,
        (exists|i: int|
            0 <= i < old(buffered)@.len() && (#[trigger] old(buffered)@[i]).part_index == cursor
                && old(buffered)@[i].bytes_left == 0) ==> (r@.len() > 0 && exists|i: int|
            0 <= i < r@.len() && (#[trigger] r@[i]).bytes_left == 0),
{
    let ghost orig = buffered@;
    let mut taken: Vec<Chunk> = Vec::new();
    let mut rest: Vec<Chunk> = Vec::new();
    let ghost mut scanned: int = 0;
    proof {
        reveal(Seq::filter);
        assert(orig.take(0) =~= Seq::<Chunk>::empty());
        assert(taken@ =~= orig.take(0).filter(is_part_chunk(cursor)));
        assert(rest@ =~= orig.take(0).filter(is_other_chunk(cursor)));
    }
    while buffered.len() > 0
        invariant
            buffered@ =~= orig.skip(scanned),
            0 <= scanned <= orig.len(),
            taken@ == orig.take(scanned).filter(is_part_chunk(cursor)),
            rest@ == orig.take(scanned).filter(is_other_chunk(cursor)),
            forall|i: int| 0 <= i < taken@.len() ==> (#[trigger] taken@[i]).part_index == cursor,
            forall|i: int| 0 <= i < rest@.len() ==> (#[trigger] rest@[i]).part_index != cursor,
            forall|i: int|
                0 <= i < scanned && (#[trigger] orig[i]).part_index == cursor && orig[
                i
                ].bytes_left == 0 ==> exists|j: int|
                    0 <= j < taken@.len() && (#[trigger] taken@[j]).bytes_left == 0,
        decreases buffered@.len(),
    {
        let c = buffered.remove(0);
        let ghost c_g = c;
        proof {
            assert(orig[scanned] == c_g);
            assert(buffered@ =~= orig.skip(scanned + 1));
        }
        let ghost t_pre = taken@;
        let ghost r_pre = rest@;
        if c.part_index == cursor {
            taken.push(c);
            proof {
                scanned = scanned + 1;
                reveal(Seq::filter);
                assert(orig.take(scanned) =~= orig.take(scanned - 1).push(c_g));
                assert(orig.take(scanned).drop_last() =~= orig.take(scanned - 1));
                assert(taken@ =~= orig.take(scanned).filter(is_part_chunk(cursor)));
                assert(rest@ =~= orig.take(scanned).filter(is_other_chunk(cursor)));
                assert(forall|j: int| 0 <= j < t_pre.len() ==> (#[trigger] taken@[j]) == t_pre[j]);
                assert forall|i: int|
                    0 <= i < scanned && (#[trigger] orig[i]).part_index == cursor && orig[
                    i
                ].bytes_left == 0 implies exists|j: int|
                    0 <= j < taken@.len() && (#[trigger] taken@[j]).bytes_left == 0 by {
                    if i == scanned - 1 {
                        assert(orig[i] == c_g);
                        assert(taken@[taken@.len() - 1] == c_g);
                    } else {
                        let j0 = choose|j: int|
                            0 <= j < t_pre.len() && (#[trigger] t_pre[j]).bytes_left == 0;
                        assert(taken@[j0].bytes_left == 0);
                    }
                }
            }
        } else {
            rest.push(c);
            proof {
                scanned = scanned + 1;
                reveal(Seq::filter);
                assert(orig.take(scanned) =~= orig.take(scanned - 1).push(c_g));
                assert(orig.take(scanned).drop_last() =~= orig.take(scanned - 1));
                assert(taken@ =~= orig.take(scanned).filter(is_part_chunk(cursor)));
                assert(rest@ =~= orig.take(scanned).filter(is_other_chunk(cursor)));
                assert forall|i: int|
                    0 <= i < scanned && (#[trigger] orig[i]).part_index == cursor && orig[
                    i
                ].bytes_left == 0 implies exists|j: int|
                    0 <= j < taken@.len() && (#[trigger] taken@[j]).bytes_left == 0 by {
                    if i == scanned - 1 {
                        assert(orig[i] == c_g);
                    }
                }
            }
        }
    }
    proof {
        assert(scanned == orig.len());
        assert(orig.take(scanned) =~= orig);
    }
    *buffered = rest;
    taken
}

impl ChunkStream {
    /// Turns this stream into a [`PartStream`].
    ///
    /// Fails if this stream was already iterated.
    pub fn try_into_part_stream(self) -> (r: Result<PartStream, CondowError>)
        ensures
            (r is Ok <==> self.is_fresh_spec()),
            (r matches Ok(ps) ==> ps.stream_spec() == self && ps.next_part_spec() == 0
                && ps.buffered_spec().len() == 0),
    {
        PartStream::from_chunk_stream(self)
    }
}

} // verus!
