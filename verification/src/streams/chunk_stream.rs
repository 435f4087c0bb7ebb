//! The single-consumer stream of chunks, and reassembly of the received
//! chunks into one buffer.
//!
//! Chunks of different parts may arrive in any order, so reassembly
//! addresses every chunk by its `range_offset` instead of writing
//! sequentially.

use vstd::prelude::*;

use crate::errors::{CondowError, CondowErrorKind};
use crate::streams::bytes_hint::BytesHint;
use crate::streams::chunk::{items_bytes, items_ok, Chunk, ChunkStreamItem};
use crate::streams::chunk::lemma_items_bytes_push;

verus! {

/// `buf` with `bytes` written at offset `off` (only meaningful when the
/// write fits).
pub open spec fn splice_spec(buf: Seq<u8>, off: int, bytes: Seq<u8>) -> Seq<u8> {
    buf.take(off) + bytes + buf.skip(off + bytes.len())
}

/// Whether `item` is a chunk whose write fits a buffer of `buf_len` bytes.
pub open spec fn chunk_fits(item: ChunkStreamItem, buf_len: int) -> bool {
    match item {
        Ok(c) => c.range_offset + c.bytes@.len() <= buf_len,
        Err(_) => false,
    }
}

/// Whether every item is a chunk that fits a buffer of `buf_len` bytes.
pub open spec fn writable_spec(items: Seq<ChunkStreamItem>, buf_len: int) -> bool {
    forall|i: int| 0 <= i < items.len() ==> chunk_fits(#[trigger] items[i], buf_len)
}

/// The longest prefix of items that are chunks fitting a buffer of
/// `buf_len` bytes: exactly the chunks a failing reassembly has written
/// before it stops.
pub open spec fn written_prefix_spec(items: Seq<ChunkStreamItem>, buf_len: int) -> Seq<
    ChunkStreamItem,
>
    decreases items.len(),
{
    if items.len() == 0 {
        Seq::empty()
    } else if chunk_fits(items[0], buf_len) {
        seq![items[0]] + written_prefix_spec(items.skip(1), buf_len)
    } else {
        Seq::empty()
    }
}

/// A run of fitting chunks followed by a non-fitting item is exactly
/// the written prefix.
proof fn lemma_written_prefix(
    orig: Seq<ChunkStreamItem>,
    processed: Seq<ChunkStreamItem>,
    rest: Seq<ChunkStreamItem>,
    buf_len: int,
)
    requires
        orig == processed + rest,
        forall|j: int| 0 <= j < processed.len() ==> chunk_fits(#[trigger] processed[j], buf_len),
        rest.len() > 0,
        !chunk_fits(rest[0], buf_len),
    ensures
        written_prefix_spec(orig, buf_len) == processed,
    decreases processed.len(),
{
    if processed.len() == 0 {
        assert(orig =~= rest);
        assert(!chunk_fits(orig[0], buf_len));
        assert(written_prefix_spec(orig, buf_len) =~= processed);
    } else {
        assert(orig[0] == processed[0]);
        assert(chunk_fits(orig[0], buf_len));
        assert(orig.skip(1) =~= processed.skip(1) + rest);
        lemma_written_prefix(orig.skip(1), processed.skip(1), rest, buf_len);
        assert(written_prefix_spec(orig, buf_len) =~= processed);
    }
}

/// The buffer after writing one item at its range offset; an item that
/// does not fit leaves the buffer unchanged.
pub open spec fn write_item_spec(buf: Seq<u8>, item: ChunkStreamItem) -> Seq<u8> {
    if chunk_fits(item, buf.len() as int) {
        splice_spec(buf, item.unwrap().range_offset as int, item.unwrap().bytes@)
    } else {
        buf
    }
}

/// The buffer after writing all items in delivery order.
pub open spec fn write_all_spec(buf: Seq<u8>, items: Seq<ChunkStreamItem>) -> Seq<u8>
    decreases items.len(),
{
    if items.len() == 0 {
        buf
    } else {
        write_item_spec(write_all_spec(buf, items.drop_last()), items.last())
    }
}

/// A fitting splice keeps the buffer length and is the pointwise
/// overwrite of `[off, off + |bytes|)`.
pub proof fn lemma_splice_spec(buf: Seq<u8>, off: int, bytes: Seq<u8>)
    requires
        0 <= off,
        off + bytes.len() <= buf.len(),
    ensures
        splice_spec(buf, off, bytes).len() == buf.len(),
        forall|i: int|
            0 <= i < buf.len() ==> #[trigger] splice_spec(buf, off, bytes)[i] == if off <= i < off
                + bytes.len() {
                bytes[i - off]
            } else {
                buf[i]
            },
{
}

/// Writing items never changes the buffer's length.
pub proof fn lemma_write_all_len(buf: Seq<u8>, items: Seq<ChunkStreamItem>)
    ensures
        write_all_spec(buf, items).len() == buf.len(),
    decreases items.len(),
{
    if items.len() > 0 {
        lemma_write_all_len(buf, items.drop_last());
        let w = write_all_spec(buf, items.drop_last());
        let last = items.last();
        if chunk_fits(last, w.len() as int) {
            lemma_splice_spec(w, last.unwrap().range_offset as int, last.unwrap().bytes@);
        }
    }
}

/// When writing a stream's items into a buffer of `buf_len` bytes
/// succeeds: the stream is fresh, the buffer holds at least the hinted
/// lower bound, every item is a chunk that fits, and the byte count fits
/// this machine.
pub open spec fn write_ok_spec(s: ChunkStream, buf_len: int) -> bool {
    &&& s.is_fresh_spec()
    &&& buf_len >= s.bytes_hint_spec().0
    &&& writable_spec(s.remaining(), buf_len)
    &&& items_bytes(s.remaining()).len() <= usize::MAX
}

/// The result is the "stream already iterated" error.
pub open spec fn iterated_err_spec<T>(r: Result<T, CondowError>) -> bool {
    &&& r is Err
    &&& r->Err_0.kind_spec() == CondowErrorKind::Other
    &&& r->Err_0.msg_spec() == "stream already iterated"@
}

/// The items are chunks that fit a buffer of `buf_len` bytes, except for
/// one terminal error, and their byte count fits this machine.
pub open spec fn tail_err_only_spec(items: Seq<ChunkStreamItem>, buf_len: int) -> bool {
    &&& items.len() > 0
    &&& items.last() is Err
    &&& (forall|j: int| 0 <= j < items.len() - 1 ==> chunk_fits(#[trigger] items[j], buf_len))
    &&& items_bytes(items).len() <= usize::MAX
}

/// The result is exactly the terminal error of `items`.
pub open spec fn r_is_last_err_spec<T>(r: Result<T, CondowError>, items: Seq<ChunkStreamItem>) -> bool {
    &&& r is Err
    &&& items.len() > 0
    &&& Err::<Chunk, CondowError>(r->Err_0) == items.last()
}

/// A stream of [`Chunk`]s delivered by the download machinery.
///
/// The items are delivered in the order the machinery pushed them; an
/// error item closes the stream and clamps the hint to exactly zero.
pub struct ChunkStream {
    bytes_hint: BytesHint,
    items: Vec<ChunkStreamItem>,
    is_closed: bool,
    is_fresh: bool,
}

impl ChunkStream {
    /// The hint on the remaining bytes.
    pub closed spec fn bytes_hint_spec(self) -> BytesHint {
        self.bytes_hint
    }

    /// The items still to be delivered.
    pub closed spec fn remaining(self) -> Seq<ChunkStreamItem> {
        self.items@
    }

    /// Whether the stream delivers no more items.
    pub closed spec fn is_closed_spec(self) -> bool {
        self.is_closed
    }

    /// Whether the stream has not been iterated yet.
    pub closed spec fn is_fresh_spec(self) -> bool {
        self.is_fresh
    }

    /// Builds a fresh stream that will deliver `items` and advertises
    /// `bytes_hint`.
    pub fn new(bytes_hint: BytesHint, items: Vec<ChunkStreamItem>) -> (r: Self)
        ensures
            r.bytes_hint_spec() == bytes_hint,
            r.remaining() == items@,
            !r.is_closed_spec(),
            r.is_fresh_spec(),
    {
        ChunkStream { bytes_hint, items, is_closed: false, is_fresh: true }
    }

    /// An already-closed stream of zero bytes.
    pub fn empty() -> (r: Self)
        ensures
            r.bytes_hint_spec() == BytesHint(0u64, Some(0u64)),
            r.remaining() == Seq::<ChunkStreamItem>::empty(),
            r.is_closed_spec(),
            r.is_fresh_spec(),
    {
        ChunkStream {
            bytes_hint: BytesHint::new_exact(0),
            items: Vec::new(),
            is_closed: true,
            is_fresh: true,
        }
    }

    /// The hint on the remaining bytes of this stream.
    pub fn bytes_hint(&self) -> (r: BytesHint)
        ensures
            r == self.bytes_hint_spec(),
    {
        self.bytes_hint
    }

    /// Returns `true` if this stream was not iterated before.
    pub fn is_fresh(&self) -> (r: bool)
        ensures
            r == self.is_fresh_spec(),
    {
        self.is_fresh
    }

    /// Delivers the next item.
    ///
    /// A chunk reduces the hint by its length; an error closes the
    /// stream and clamps the hint to exactly zero; a closed stream
    /// delivers nothing.
    pub fn next(&mut self) -> (r: Option<ChunkStreamItem>)
        ensures
            old(self).is_closed_spec() ==> r is None && *final(self) == *old(self),
            !old(self).is_closed_spec() && old(self).remaining().len() == 0 ==> {
                &&& r is None
                &&& final(self).is_closed_spec()
                &&& !final(self).is_fresh_spec()
                &&& final(self).remaining() == old(self).remaining()
                &&& final(self).bytes_hint_spec() == old(self).bytes_hint_spec()
            },
            !old(self).is_closed_spec() && old(self).remaining().len() > 0 ==> {
                &&& r == Some(old(self).remaining()[0])
                &&& final(self).remaining() == old(self).remaining().skip(1)
                &&& !final(self).is_fresh_spec()
                &&& match old(self).remaining()[0] {
                    Ok(c) => {
                        &&& !final(self).is_closed_spec()
                        &&& final(self).bytes_hint_spec() == old(self).bytes_hint_spec()
                            .reduce_by_spec(c.bytes@.len() as u64)
                    },
                    Err(_) => {
                        &&& final(self).is_closed_spec()
                        &&& final(self).bytes_hint_spec() == BytesHint(0u64, Some(0u64))
                    },
                }
            },
    {
        if self.is_closed {
            return None;
        }
        self.is_fresh = false;
        if self.items.len() == 0 {
            self.is_closed = true;
            return None;
        }
        let item = self.items.remove(0);
        match item {
            Ok(chunk) => {
                let len = chunk.bytes.len();
                self.bytes_hint.reduce_by(len as u64);
                Some(Ok(chunk))
            },
            Err(e) => {
                self.is_closed = true;
                self.bytes_hint = BytesHint::new_exact(0);
                Some(Err(e))
            },
        }
    }

    /// Writes all received bytes into `buffer`, each chunk at its
    /// `range_offset`, and returns the number of bytes written.
    ///
    /// Fails if the stream was already iterated, if the buffer is
    /// smaller than the hint's lower bound, if the stream delivers an
    /// error, or if a chunk would be written past the buffer's end; a
    /// chunk that does not fit is not written at all.
    pub fn write_buffer(self, buffer: &mut Vec<u8>) -> (r: Result<usize, CondowError>)
        ensures
            final(buffer)@.len() == old(buffer)@.len(),
            (r is Ok <==> write_ok_spec(self, old(buffer)@.len() as int)),
            (r matches Ok(n) ==> n == items_bytes(self.remaining()).len()),
            (r is Ok ==> final(buffer)@ == write_all_spec(old(buffer)@, self.remaining())),
            (!self.is_fresh_spec() ==> iterated_err_spec(r) && final(buffer)@ == old(buffer)@),
            (self.is_fresh_spec() && old(buffer)@.len() < self.bytes_hint_spec().0 ==> (r
                matches Err(e) && e.kind_spec() == CondowErrorKind::Other) && final(buffer)@
                == old(buffer)@),
            (self.is_fresh_spec() && old(buffer)@.len() >= self.bytes_hint_spec().0
                && tail_err_only_spec(self.remaining(), old(buffer)@.len() as int)
                ==> r_is_last_err_spec(r, self.remaining())),
            (self.is_fresh_spec() && old(buffer)@.len() >= self.bytes_hint_spec().0
                && items_bytes(self.remaining()).len() <= usize::MAX && r is Err
                ==> final(buffer)@ == write_all_spec(
                old(buffer)@,
                written_prefix_spec(self.remaining(), old(buffer)@.len() as int),
            )),
    {
        let ChunkStream { bytes_hint, mut items, is_closed: _, is_fresh } = self;
        let ghost orig = items@;
        let ghost buf0 = buffer@;
        if !is_fresh {
            return Err(CondowError::new_other("stream already iterated"));
        }
        if (buffer.len() as u64) < bytes_hint.lower_bound() {
            return Err(CondowError::new_other("target buffer too small"));
        }
        let mut written: usize = 0;
        let ghost mut processed: Seq<ChunkStreamItem> = Seq::empty();
        proof {
            assert(orig =~= processed + items@);
        }
        while items.len() > 0
            invariant
                buf0 == old(buffer)@,
                buffer@.len() == buf0.len(),
                orig == self.remaining(),
                self.is_fresh_spec(),
                buf0.len() >= self.bytes_hint_spec().0,
                orig =~= processed + items@,
                items_ok(processed),
                writable_spec(processed, buf0.len() as int),
                written == items_bytes(processed).len(),
                written <= usize::MAX,
                buffer@ == write_all_spec(buf0, processed),
            decreases items@.len(),
        {
            let ghost items_pre = items@;
            let item = items.remove(0);
            let ghost item_g = item;
            proof {
                assert(items_pre[0] == item_g);
                assert(items_pre =~= seq![item_g] + items@);
                assert(orig =~= processed.push(item_g) + items@);
            }
            match item {
                Err(e) => {
                    proof {
                        let p = processed.len() as int;
                        assert(orig[p] == item_g);
                        assert(!chunk_fits(orig[p], buf0.len() as int));
                        assert(orig =~= processed + (seq![item_g] + items@));
                        lemma_written_prefix(
                            orig,
                            processed,
                            seq![item_g] + items@,
                            buf0.len() as int,
                        );
                        // If every item before the last fits, the error
                        // must be the last item.
                        if orig.len() > 0 && orig.last() is Err && (forall|j: int|
                            0 <= j < orig.len() - 1 ==> chunk_fits(
                                #[trigger] orig[j],
                                buf0.len() as int,
                            )) {
                            assert(p == orig.len() - 1);
                            assert(orig.last() == orig[p]);
                        }
                    }
                    return Err(e);
                },
                Ok(chunk) => {
                    let off64 = chunk.range_offset;
                    let clen = chunk.bytes.len();
                    if off64 > (buffer.len() as u64) || (clen as u64) > (buffer.len() as u64)
                        - off64 {
                        proof {
                            let p = processed.len() as int;
                            assert(orig[p] == item_g);
                            assert(!chunk_fits(orig[p], buf0.len() as int));
                            assert(orig =~= processed + (seq![item_g] + items@));
                            lemma_written_prefix(
                                orig,
                                processed,
                                seq![item_g] + items@,
                                buf0.len() as int,
                            );
                            if tail_err_only_spec(orig, buf0.len() as int) {
                                if p < orig.len() - 1 {
                                    assert(chunk_fits(orig[p], buf0.len() as int));
                                } else {
                                    assert(orig.last() == orig[p]);
                                }
                                assert(false);
                            }
                        }
                        return Err(CondowError::new_other("write attempt beyond buffer end"));
                    }
                    if clen > usize::MAX - written {
                        proof {
                            let p = processed.len() as int;
                            lemma_items_bytes_push(processed, item_g);
                            crate::streams::chunk::lemma_items_bytes_add(
                                processed.push(item_g),
                                items@,
                            );
                            assert(items_bytes(orig).len() > usize::MAX);
                        }
                        return Err(CondowError::new_other("byte count overflow"));
                    }
                    let off = off64 as usize;
                    let ghost pre = buffer@;
                    let mut k: usize = 0;
                    while k < clen
                        invariant
                            off + clen <= buffer@.len(),
                            buffer@.len() <= usize::MAX,
                            buffer@.len() == pre.len(),
                            0 <= k <= clen,
                            clen == chunk.bytes@.len(),
                            forall|i: int|
                                0 <= i < buffer@.len() ==> buffer@[i] == if off <= i < off + k {
                                    chunk.bytes@[i - off]
                                } else {
                                    pre[i]
                                },
                        decreases clen - k,
                    {
                        let b = chunk.bytes[k];
                        buffer[off + k] = b;
                        k = k + 1;
                    }
                    proof {
                        lemma_splice_spec(pre, off as int, chunk.bytes@);
                        assert(buffer@ =~= splice_spec(pre, off as int, chunk.bytes@));
                        assert(processed.push(item_g).drop_last() =~= processed);
                        assert(chunk_fits(item_g, pre.len() as int));
                        assert(write_all_spec(buf0, processed.push(item_g)) == buffer@);
                        lemma_items_bytes_push(processed, item_g);
                        processed = processed.push(item_g);
                    }
                    written = written + clen;
                },
            }
        }
        proof {
            assert(orig =~= processed);
        }
        Ok(written)
    }

    /// Collects the stream into a `Vec<u8>`.
    ///
    /// With an exact hint the buffer is allocated up front and filled by
    /// [`ChunkStream::write_buffer`]; otherwise the buffer grows on
    /// demand and gaps left by out-of-order chunks are zero-filled.
    pub fn into_vec(self) -> (r: Result<Vec<u8>, CondowError>)
        ensures
            (self.bytes_hint_spec().is_exact_spec() ==> (r is Ok <==> exact_ok_spec(self))),
            (self.bytes_hint_spec().is_exact_spec() && r is Ok
                ==> r->Ok_0@.len() == self.bytes_hint_spec().0),
            (self.bytes_hint_spec().is_exact_spec() && r is Ok ==> r->Ok_0@
                == write_all_spec(zeros_spec(self.bytes_hint_spec().0 as int), self.remaining())),
            (!self.bytes_hint_spec().is_exact_spec() ==> (r is Ok <==> grow_ok_spec(self))),
            (!self.bytes_hint_spec().is_exact_spec() && r is Ok ==> r->Ok_0@
                == write_grow_spec(Seq::<u8>::empty(), self.remaining())),
            (!self.is_fresh_spec() ==> r is Err),
            (!self.is_fresh_spec() && self.bytes_hint_spec().0 <= usize::MAX
                ==> iterated_err_spec(r)),
            (self.bytes_hint_spec().is_exact_spec() && self.is_fresh_spec()
                && self.bytes_hint_spec().0 <= usize::MAX && tail_err_only_spec(
                self.remaining(),
                self.bytes_hint_spec().0 as int,
            ) ==> r_is_last_err_spec(r, self.remaining())),
            (!self.bytes_hint_spec().is_exact_spec() && self.is_fresh_spec()
                && self.bytes_hint_spec().0 <= usize::MAX && tail_err_growable_spec(
                self.remaining(),
            ) ==> r_is_last_err_spec(r, self.remaining())),
    {
        if self.bytes_hint.is_exact() {
            let total = self.bytes_hint.lower_bound();
            if total > (usize::MAX as u64) {
                return Err(CondowError::new_other("size hint does not fit this machine"));
            }
            let mut buffer: Vec<u8> = vec_of_zeros(total as usize);
            match self.write_buffer(&mut buffer) {
                Ok(_) => Ok(buffer),
                Err(e) => Err(e),
            }
        } else {
            stream_into_vec_with_unknown_size(self)
        }
    }
}

/// A sequence of `n` zero bytes.
pub open spec fn zeros_spec(n: int) -> Seq<u8> {
    Seq::new(n as nat, |i: int| 0u8)
}

/// When collecting a stream with an exact hint succeeds: the stream is
/// fresh and every item is a chunk that fits the advertised size.
pub open spec fn exact_ok_spec(s: ChunkStream) -> bool {
    &&& s.is_fresh_spec()
    &&& s.bytes_hint_spec().0 <= usize::MAX
    &&& writable_spec(s.remaining(), s.bytes_hint_spec().0 as int)
    &&& items_bytes(s.remaining()).len() <= usize::MAX
}

/// When collecting a stream of unknown size succeeds: the stream is
/// fresh and every item is a chunk whose end offset fits this machine.
pub open spec fn grow_ok_spec(s: ChunkStream) -> bool {
    &&& s.is_fresh_spec()
    &&& s.bytes_hint_spec().0 <= usize::MAX
    &&& growable_spec(s.remaining())
}

/// A vector of `n` zero bytes.
fn vec_of_zeros(n: usize) -> (r: Vec<u8>)
    ensures
        r@ =~= Seq::new(n as nat, |i: int| 0u8),
{
    let mut v: Vec<u8> = Vec::new();
    let mut k: usize = 0;
    while k < n
        invariant
            0 <= k <= n,
            v@ =~= Seq::new(k as nat, |i: int| 0u8),
        decreases n - k,
    {
        v.push(0);
        k = k + 1;
        proof {
            assert(v@ =~= Seq::new(k as nat, |i: int| 0u8));
        }
    }
    v
}

/// `buf` extended with zero bytes up to length `to` (unchanged if it is
/// already at least that long).
pub open spec fn grow_zeros_spec(buf: Seq<u8>, to: int) -> Seq<u8> {
    if to <= buf.len() {
        buf
    } else {
        buf + Seq::new((to - buf.len()) as nat, |i: int| 0u8)
    }
}

/// Whether `item` is a chunk whose end offset fits this machine.
pub open spec fn chunk_growable(item: ChunkStreamItem) -> bool {
    match item {
        Ok(c) => c.range_offset + c.bytes@.len() <= usize::MAX,
        Err(_) => false,
    }
}

/// Whether every item is a chunk whose end offset fits this machine.
pub open spec fn growable_spec(items: Seq<ChunkStreamItem>) -> bool {
    forall|i: int| 0 <= i < items.len() ==> chunk_growable(#[trigger] items[i])
}

/// The items are chunks whose end offsets fit this machine, except for
/// one terminal error.
pub open spec fn tail_err_growable_spec(items: Seq<ChunkStreamItem>) -> bool {
    &&& items.len() > 0
    &&& items.last() is Err
    &&& (forall|j: int| 0 <= j < items.len() - 1 ==> chunk_growable(#[trigger] items[j]))
}

/// The buffer after writing one item, growing it with zero-fill first
/// when the chunk ends past the current length.
pub open spec fn write_grow_item_spec(buf: Seq<u8>, item: ChunkStreamItem) -> Seq<u8> {
    if chunk_growable(item) {
        splice_spec(
            grow_zeros_spec(buf, item.unwrap().range_offset + item.unwrap().bytes@.len()),
            item.unwrap().range_offset as int,
            item.unwrap().bytes@,
        )
    } else {
        buf
    }
}

/// The buffer after writing all items with zero-filled growth.
pub open spec fn write_grow_spec(buf: Seq<u8>, items: Seq<ChunkStreamItem>) -> Seq<u8>
    decreases items.len(),
{
    if items.len() == 0 {
        buf
    } else {
        write_grow_item_spec(write_grow_spec(buf, items.drop_last()), items.last())
    }
}

/// Collects a stream whose byte count is not known up front: the buffer
/// grows on demand and gaps left by out-of-order chunks are zero-filled.
pub fn stream_into_vec_with_unknown_size(stream: ChunkStream) -> (r: Result<Vec<u8>, CondowError>)
    ensures
        (r is Ok <==> grow_ok_spec(stream)),
        (r is Ok ==> r->Ok_0@ == write_grow_spec(Seq::<u8>::empty(), stream.remaining())),
        (!stream.is_fresh_spec() ==> iterated_err_spec(r)),
        (stream.is_fresh_spec() && stream.bytes_hint_spec().0 <= usize::MAX
            && tail_err_growable_spec(stream.remaining()) ==> r_is_last_err_spec(
            r,
            stream.remaining(),
        )),
{
    let ChunkStream { bytes_hint, mut items, is_closed: _, is_fresh } = stream;
    let ghost orig = items@;
    if !is_fresh {
        return Err(CondowError::new_other("stream already iterated"));
    }
    if bytes_hint.lower_bound() > (usize::MAX as u64) {
        return Err(CondowError::new_other("size hint does not fit this machine"));
    }
    let mut buffer: Vec<u8> = Vec::new();
    let ghost mut processed: Seq<ChunkStreamItem> = Seq::empty();
    proof {
        assert(orig =~= processed + items@);
    }
    while items.len() > 0
        invariant
            orig == stream.remaining(),
            stream.is_fresh_spec(),
            stream.bytes_hint_spec().0 <= usize::MAX,
            orig =~= processed + items@,
            growable_spec(processed),
            buffer@.len() <= usize::MAX,
            buffer@ == write_grow_spec(Seq::<u8>::empty(), processed),
        decreases items@.len(),
    {
        let ghost items_pre = items@;
        let item = items.remove(0);
        let ghost item_g = item;
        proof {
            assert(items_pre[0] == item_g);
            assert(items_pre =~= seq![item_g] + items@);
            assert(orig =~= processed.push(item_g) + items@);
            assert(orig[processed.len() as int] == item_g);
        }
        match item {
            Err(e) => {
                proof {
                    let p = processed.len() as int;
                    assert(!chunk_growable(orig[p]));
                    if tail_err_growable_spec(orig) {
                        if p < orig.len() - 1 {
                            assert(chunk_growable(orig[p]));
                        } else {
                            assert(orig.last() == orig[p]);
                        }
                    }
                }
                return Err(e);
            },
            Ok(chunk) => {
                let off64 = chunk.range_offset;
                let clen = chunk.bytes.len();
                if off64 > (usize::MAX as u64) || (clen as u64) > (usize::MAX as u64) - off64 {
                    proof {
                        let p = processed.len() as int;
                        assert(!chunk_growable(orig[p]));
                        if tail_err_growable_spec(orig) {
                            if p < orig.len() - 1 {
                                assert(chunk_growable(orig[p]));
                            } else {
                                assert(orig.last() == orig[p]);
                            }
                            assert(false);
                        }
                    }
                    return Err(CondowError::new_other("usize overflow while casting from u64"));
                }
                let off = off64 as usize;
                let end_excl = off + clen;
                let ghost before_grow = buffer@;
                while buffer.len() < end_excl
                    invariant
                        end_excl <= usize::MAX,
                        buffer@.len() <= usize::MAX,
                        buffer@.len() <= end_excl || buffer@ == before_grow,
                        buffer@ =~= grow_zeros_spec(before_grow, buffer@.len() as int),
                        before_grow.len() <= buffer@.len(),
                    decreases end_excl - buffer@.len(),
                {
                    buffer.push(0);
                    proof {
                        assert(buffer@ =~= grow_zeros_spec(before_grow, buffer@.len() as int));
                    }
                }
                proof {
                    assert(buffer@ =~= grow_zeros_spec(before_grow, end_excl as int));
                }
                let ghost pre = buffer@;
                let mut k: usize = 0;
                while k < clen
                    invariant
                        off + clen <= buffer@.len(),
                        buffer@.len() <= usize::MAX,
                        buffer@.len() == pre.len(),
                        0 <= k <= clen,
                        clen == chunk.bytes@.len(),
                        forall|i: int|
                            0 <= i < buffer@.len() ==> buffer@[i] == if off <= i < off + k {
                                chunk.bytes@[i - off]
                            } else {
                                pre[i]
                            },
                    decreases clen - k,
                {
                    let b = chunk.bytes[k];
                    buffer[off + k] = b;
                    k = k + 1;
                }
                proof {
                    lemma_splice_spec(pre, off as int, chunk.bytes@);
                    assert(buffer@ =~= splice_spec(pre, off as int, chunk.bytes@));
                    assert(processed.push(item_g).drop_last() =~= processed);
                    assert(chunk_growable(item_g));
                    assert(write_grow_spec(Seq::<u8>::empty(), processed.push(item_g)) == buffer@);
                    processed = processed.push(item_g);
                }
            },
        }
    }
    proof {
        assert(orig =~= processed);
        if tail_err_growable_spec(orig) {
            assert(orig.last() is Err);
            assert(!chunk_growable(orig[orig.len() - 1]));
            assert(false);
        }
    }
    Ok(buffer)
}

/// Whether the chunk `item` holds the byte at range offset `i`.
pub open spec fn chunk_covers(item: ChunkStreamItem, i: int) -> bool {
    match item {
        Ok(c) => c.range_offset <= i < c.range_offset + c.bytes@.len(),
        Err(_) => false,
    }
}

/// Whether two items never hold a byte for the same range offset.
pub open spec fn chunks_disjoint(a: ChunkStreamItem, b: ChunkStreamItem) -> bool {
    forall|i: int| !(chunk_covers(a, i) && chunk_covers(b, i))
}

/// Whether no two items of `items` hold a byte for the same offset.
pub open spec fn no_overlap_spec(items: Seq<ChunkStreamItem>) -> bool {
    forall|i: int, j: int|
        0 <= i < j < items.len() ==> chunks_disjoint(#[trigger] items[i], #[trigger] items[j])
}

/// What reassembly computes, byte by byte: position `i` of the buffer
/// holds the byte of the (unique) chunk covering `i`, and keeps its old
/// value where no chunk covers it.
pub proof fn lemma_write_all_pointwise(buf: Seq<u8>, items: Seq<ChunkStreamItem>, i: int)
    requires
        writable_spec(items, buf.len() as int),
        no_overlap_spec(items),
        0 <= i < buf.len(),
    ensures
        forall|j: int|
            0 <= j < items.len() && chunk_covers(#[trigger] items[j], i)
                ==> write_all_spec(buf, items)[i] == items[j].unwrap().bytes@[i
                - items[j].unwrap().range_offset],
        (forall|j: int| 0 <= j < items.len() ==> !chunk_covers(#[trigger] items[j], i))
            ==> write_all_spec(buf, items)[i] == buf[i],
    decreases items.len(),
{
    if items.len() > 0 {
        let dl = items.drop_last();
        let last = items.last();
        assert(forall|j: int| 0 <= j < dl.len() ==> dl[j] == items[j]);
        lemma_write_all_pointwise(buf, dl, i);
        let w = write_all_spec(buf, dl);
        lemma_write_all_len(buf, dl);
        assert(chunk_fits(last, w.len() as int));
        let c = last.unwrap();
        lemma_splice_spec(w, c.range_offset as int, c.bytes@);
        assert(write_all_spec(buf, items) == splice_spec(w, c.range_offset as int, c.bytes@));
        if chunk_covers(last, i) {
            assert(write_all_spec(buf, items)[i] == c.bytes@[i - c.range_offset]);
            assert forall|j: int|
                0 <= j < items.len() && chunk_covers(#[trigger] items[j], i) implies write_all_spec(
                buf,
                items,
            )[i] == items[j].unwrap().bytes@[i - items[j].unwrap().range_offset] by {
                if j < items.len() - 1 {
                    assert(chunks_disjoint(items[j], items[items.len() - 1]));
                    assert(false);
                }
            }
        } else {
            assert(write_all_spec(buf, items)[i] == w[i]);
        }
    }
}

/// The reassembled buffer is a function of the set of received chunks
/// alone: two deliveries of the same chunks in different orders write
/// the same buffer.
pub proof fn lemma_write_all_order_independent(
    buf: Seq<u8>,
    items1: Seq<ChunkStreamItem>,
    items2: Seq<ChunkStreamItem>,
)
    requires
        writable_spec(items1, buf.len() as int),
        no_overlap_spec(items1),
        no_overlap_spec(items2),
        items1.to_multiset() == items2.to_multiset(),
    ensures
        write_all_spec(buf, items1) == write_all_spec(buf, items2),
{
    broadcast use vstd::seq_lib::group_to_multiset_ensures;

    assert forall|j: int| 0 <= j < items2.len() implies chunk_fits(
        #[trigger] items2[j],
        buf.len() as int,
    ) by {
        assert(items2.contains(items2[j]));
        vstd::seq_lib::to_multiset_contains::<ChunkStreamItem>(items2, items2[j]);
        vstd::seq_lib::to_multiset_contains::<ChunkStreamItem>(items1, items2[j]);
        assert(items1.contains(items2[j]));
        let j1 = choose|j1: int| 0 <= j1 < items1.len() && items1[j1] == items2[j];
        assert(chunk_fits(items1[j1], buf.len() as int));
    }
    lemma_write_all_len(buf, items1);
    lemma_write_all_len(buf, items2);
    assert forall|i: int| 0 <= i < buf.len() implies write_all_spec(buf, items1)[i]
        == write_all_spec(buf, items2)[i] by {
        lemma_write_all_pointwise(buf, items1, i);
        lemma_write_all_pointwise(buf, items2, i);
        if exists|j: int| 0 <= j < items1.len() && chunk_covers(#[trigger] items1[j], i) {
            let j = choose|j: int| 0 <= j < items1.len() && chunk_covers(#[trigger] items1[j], i);
            assert(items1.contains(items1[j]));
            vstd::seq_lib::to_multiset_contains::<ChunkStreamItem>(items1, items1[j]);
            vstd::seq_lib::to_multiset_contains::<ChunkStreamItem>(items2, items1[j]);
            assert(items2.contains(items1[j]));
            let j2 = choose|j2: int| 0 <= j2 < items2.len() && items2[j2] == items1[j];
            assert(chunk_covers(items2[j2], i));
            assert(write_all_spec(buf, items1)[i] == items1[j].unwrap().bytes@[i
                - items1[j].unwrap().range_offset]);
            assert(write_all_spec(buf, items2)[i] == items2[j2].unwrap().bytes@[i
                - items2[j2].unwrap().range_offset]);
        } else {
            assert forall|j2: int| 0 <= j2 < items2.len() implies !chunk_covers(
                #[trigger] items2[j2],
                i,
            ) by {
                if chunk_covers(items2[j2], i) {
                    assert(items2.contains(items2[j2]));
                    vstd::seq_lib::to_multiset_contains::<ChunkStreamItem>(items2, items2[j2]);
                    vstd::seq_lib::to_multiset_contains::<ChunkStreamItem>(items1, items2[j2]);
                    assert(items1.contains(items2[j2]));
                    let j1 = choose|j1: int|
                        0 <= j1 < items1.len() && items1[j1] == items2[j2];
                    assert(chunk_covers(items1[j1], i));
                    assert(false);
                }
            }
            assert(write_all_spec(buf, items1)[i] == buf[i]);
            assert(write_all_spec(buf, items2)[i] == buf[i]);
        }
    }
    assert(write_all_spec(buf, items1) =~= write_all_spec(buf, items2));
}

/// Whether `items` are chunks delivered in range order without gaps,
/// starting at range offset `start`.
pub open spec fn items_sequential_from(items: Seq<ChunkStreamItem>, start: int) -> bool {
    &&& items_ok(items)
    &&& forall|j: int|
        0 <= j < items.len() ==> (#[trigger] items[j]).unwrap().range_offset == start
            + items_bytes(items.take(j)).len()
}

/// Reassembling chunks that arrive in range order without gaps writes
/// exactly their concatenated bytes at `start`.
#[verifier::rlimit(100)]
pub proof fn lemma_write_all_sequential(buf: Seq<u8>, items: Seq<ChunkStreamItem>, start: int)
    requires
        items_sequential_from(items, start),
        0 <= start,
        start + items_bytes(items).len() <= buf.len(),
    ensures
        write_all_spec(buf, items) =~= buf.take(start) + items_bytes(items) + buf.skip(
            start + items_bytes(items).len(),
        ),
    decreases items.len(),
{
    if items.len() == 0 {
        assert(write_all_spec(buf, items) =~= buf.take(start) + items_bytes(items) + buf.skip(
            start + items_bytes(items).len(),
        ));
    } else {
        let dl = items.drop_last();
        let last = items.last();
        let c = last.unwrap();
        assert(forall|j: int| 0 <= j < dl.len() ==> dl[j] == items[j]);
        assert forall|j: int| 0 <= j < dl.len() implies (#[trigger] dl[j]).unwrap().range_offset
            == start + items_bytes(dl.take(j)).len() by {
            assert(items.take(j) =~= dl.take(j));
            assert(items[j].unwrap().range_offset == start + items_bytes(items.take(j)).len());
        }
        let total_dl = items_bytes(dl).len() as int;
        assert(items.take(items.len() - 1) =~= dl);
        assert(c.range_offset == start + total_dl);
        assert(items_bytes(items) == items_bytes(dl) + c.bytes@);
        lemma_write_all_sequential(buf, dl, start);
        let w = write_all_spec(buf, dl);
        assert(w =~= buf.take(start) + items_bytes(dl) + buf.skip(start + total_dl));
        assert(w.len() == buf.len());
        assert(chunk_fits(last, w.len() as int));
        lemma_splice_spec(w, c.range_offset as int, c.bytes@);
        assert(write_all_spec(buf, items) == splice_spec(w, c.range_offset as int, c.bytes@));
        assert(write_all_spec(buf, items) =~= buf.take(start) + items_bytes(items) + buf.skip(
            start + items_bytes(items).len(),
        ));
    }
}

} // verus!
