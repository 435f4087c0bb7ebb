//! Addressed byte chunks and spec-level helpers over sequences of
//! delivered items.

use vstd::prelude::*;

use crate::errors::CondowError;

verus! {

/// A chunk belonging to a downloaded part.
///
/// All chunks of one part are delivered in order of their `chunk_index`,
/// but chunks of different parts can be intermingled by a concurrent
/// download.
#[derive(Debug)]
pub struct Chunk {
    /// Index of the part this chunk belongs to.
    pub part_index: u64,
    /// Index of the chunk within the part, counted from 0.
    pub chunk_index: usize,
    /// Offset of the chunk within the BLOB.
    pub blob_offset: u64,
    /// Offset of the chunk within the downloaded range.
    pub range_offset: u64,
    /// The bytes.
    pub bytes: Vec<u8>,
    /// Bytes still to come in later chunks of the same part. If 0 this is
    /// the last chunk of the part.
    pub bytes_left: u64,
}

impl Chunk {
    /// Returns `true` if this is the last chunk of its part.
    pub fn is_last(&self) -> (r: bool)
        ensures
            r == (self.bytes_left == 0),
    {
        self.bytes_left == 0
    }

    /// Returns the number of bytes in this chunk.
    pub fn len(&self) -> (r: usize)
        ensures
            r == self.bytes@.len(),
    {
        self.bytes.len()
    }

    /// Returns `true` if there are no bytes in this chunk.
    pub fn is_empty(&self) -> (r: bool)
        ensures
            r == (self.bytes@.len() == 0),
    {
        self.bytes.len() == 0
    }
}

/// The items a chunk stream delivers: chunks, or one terminal error.
pub type ChunkStreamItem = Result<Chunk, CondowError>;

/// Whether every item of `items` is a chunk.
pub open spec fn items_ok(items: Seq<ChunkStreamItem>) -> bool {
    forall|i: int| 0 <= i < items.len() ==> items[i] is Ok
}

/// The bytes of one item: a chunk's bytes, or nothing for an error.
pub open spec fn item_bytes(item: ChunkStreamItem) -> Seq<u8> {
    match item {
        Ok(c) => c.bytes@,
        Err(_) => Seq::empty(),
    }
}

/// The bytes of `items`, concatenated in delivery order.
pub open spec fn items_bytes(items: Seq<ChunkStreamItem>) -> Seq<u8>
    decreases items.len(),
{
    if items.len() == 0 {
        Seq::empty()
    } else {
        items_bytes(items.drop_last()) + item_bytes(items.last())
    }
}

/// How many items of `items` are errors.
pub open spec fn err_count(items: Seq<ChunkStreamItem>) -> int
    decreases items.len(),
{
    if items.len() == 0 {
        0int
    } else {
        err_count(items.drop_last()) + if items.last() is Err {
            1int
        } else {
            0int
        }
    }
}

/// Appending one item appends its bytes.
pub proof fn lemma_items_bytes_push(items: Seq<ChunkStreamItem>, item: ChunkStreamItem)
    ensures
        items_bytes(items.push(item)) == items_bytes(items) + item_bytes(item),
{
    assert(items.push(item).drop_last() =~= items);
}

/// Appending one item adds its error count.
pub proof fn lemma_err_count_push(items: Seq<ChunkStreamItem>, item: ChunkStreamItem)
    ensures
        err_count(items.push(item)) == err_count(items) + if item is Err {
            1int
        } else {
            0int
        },
{
    assert(items.push(item).drop_last() =~= items);
}

/// Concatenating item sequences concatenates their bytes.
pub proof fn lemma_items_bytes_add(a: Seq<ChunkStreamItem>, b: Seq<ChunkStreamItem>)
    ensures
        items_bytes(a + b) == items_bytes(a) + items_bytes(b),
    decreases b.len(),
{
    if b.len() == 0 {
        assert(a + b =~= a);
        assert(items_bytes(a + b) =~= items_bytes(a) + items_bytes(b));
    } else {
        let b0 = b.take(b.len() - 1);
        let x = b[b.len() - 1];
        assert(b =~= b0.push(x));
        assert(a + b =~= (a + b0).push(x));
        lemma_items_bytes_add(a, b0);
        lemma_items_bytes_push(a + b0, x);
        lemma_items_bytes_push(b0, x);
        assert(items_bytes(a + b) =~= items_bytes(a) + items_bytes(b));
    }
}

/// An all-chunk sequence has no errors.
pub proof fn lemma_items_ok_err_count(items: Seq<ChunkStreamItem>)
    requires
        items_ok(items),
    ensures
        err_count(items) == 0,
    decreases items.len(),
{
    if items.len() > 0 {
        assert(items.last() is Ok);
        assert(items_ok(items.drop_last()));
        lemma_items_ok_err_count(items.drop_last());
    }
}

} // verus!
