//! The range planner: splits a resolved absolute range into a dense
//! sequence of part requests of at most the configured part size.

use vstd::prelude::*;

use crate::range::InclusiveRange;

verus! {

/// One part of a split download: the `part_index`-th sub-range of the
/// requested range.
///
/// `range_offset` is the offset of this part's first byte within the
/// requested range (not within the BLOB).
#[derive(Clone, Copy, Debug, PartialEq, Eq, Structural)]
pub struct RangeRequest {
    /// Index of this part, counted densely from 0.
    pub part_index: u64,
    /// The absolute sub-range of the BLOB this part covers.
    pub blob_range: InclusiveRange,
    /// Offset of this part's first byte within the requested range.
    pub range_offset: u64,
}

impl RangeRequest {
    /// The number of bytes of this part.
    pub open spec fn len_spec(self) -> int {
        self.blob_range.len_spec()
    }

    /// The number of bytes of this part.
    pub fn len(&self) -> (r: u64)
        requires
            self.blob_range.wf(),
        ensures
            r == self.len_spec(),
    {
        self.blob_range.len()
    }
}

/// How many parts a range of `len` bytes splits into with parts of
/// `part_size` bytes: `ceil(len / part_size)`.
pub open spec fn n_parts_spec(len: int, part_size: int) -> int {
    (len + part_size - 1) / part_size
}

/// The `i`-th planned part of splitting `range` with `part_size`:
/// it spans `[range.0 + i * part_size, min(range.0 + (i+1) * part_size - 1, range.1)]`
/// and starts at offset `i * part_size` within the requested range.
pub open spec fn planned_part_spec(range: InclusiveRange, part_size: int, i: int) -> RangeRequest {
    RangeRequest {
        part_index: i as u64,
        blob_range: InclusiveRange(
            (range.0 + i * part_size) as u64,
            if range.0 + (i + 1) * part_size - 1 <= range.1 {
                (range.0 + (i + 1) * part_size - 1) as u64
            } else {
                range.1
            },
        ),
        range_offset: (i * part_size) as u64,
    }
}

/// Whether `parts` is exactly the plan for `range` with `part_size`.
pub open spec fn is_plan_spec(range: InclusiveRange, part_size: int, parts: Seq<RangeRequest>) -> bool {
    &&& parts.len() == n_parts_spec(range.len_spec(), part_size)
    &&& forall|i: int| 0 <= i < parts.len() ==> parts[i] == planned_part_spec(range, part_size, i)
}

/// The range planner.
pub struct RangeStream;

impl RangeStream {
    /// Splits `range` into its parts.
    ///
    /// Returns the number of parts and the part requests in part index
    /// order.
    pub fn create(range: InclusiveRange, part_size: u64) -> (r: (u64, Vec<RangeRequest>))
        requires
            range.wf(),
            part_size > 0,
        ensures
            r.0 == n_parts_spec(range.len_spec(), part_size as int),
            is_plan_spec(range, part_size as int, r.1@),
    {
        let len = range.len();
        proof {
            assert(len % part_size != 0 ==> len / part_size + 1 <= u64::MAX) by (nonlinear_arith)
                requires
                    part_size > 0,
                    len <= u64::MAX,
            ;
        }
        let n_parts = len / part_size + if len % part_size != 0 { 1u64 } else { 0u64 };
        proof {
            assert(n_parts == n_parts_spec(range.len_spec(), part_size as int)) by (nonlinear_arith)
                requires
                    part_size > 0,
                    len == range.len_spec(),
                    len > 0,
                    n_parts == len / part_size + if len % part_size != 0 { 1u64 } else { 0u64 },
            ;
        }

        let mut parts: Vec<RangeRequest> = Vec::new();
        let mut i: u64 = 0;
        let mut start: u64 = range.0;
        while i < n_parts
            invariant
                range.wf(),
                part_size > 0,
                n_parts == n_parts_spec(range.len_spec(), part_size as int),
                0 <= i <= n_parts,
                i < n_parts ==> start == range.0 + i * part_size && start <= range.1,
                parts@.len() == i,
                forall|j: int| 0 <= j < i ==> parts@[j] == planned_part_spec(range, part_size as int, j),
            decreases n_parts - i,
        {
            let end_incl = if range.1 - start >= part_size - 1 {
                start + (part_size - 1)
            } else {
                range.1
            };
            let req = RangeRequest {
                part_index: i,
                blob_range: InclusiveRange(start, end_incl),
                range_offset: start - range.0,
            };
            proof {
                assert(req == planned_part_spec(range, part_size as int, i as int)) by (nonlinear_arith)
                    requires
                        part_size > 0,
                        range.0 <= range.1,
                        start == range.0 + i * part_size,
                        start <= range.1,
                        end_incl == if range.1 - start >= part_size - 1 {
                            (start + (part_size - 1)) as int
                        } else {
                            range.1 as int
                        },
                        req == (RangeRequest {
                            part_index: i,
                            blob_range: InclusiveRange(start, end_incl),
                            range_offset: (start - range.0) as u64,
                        }),
                ;
            }
            parts.push(req);
            i = i + 1;
            if i < n_parts {
                proof {
                    assert(range.0 + i * part_size <= range.1
                        && range.0 + i * part_size == start + part_size) by (nonlinear_arith)
                        requires
                            part_size > 0,
                            i < n_parts,
                            n_parts == n_parts_spec(range.len_spec(), part_size as int),
                            range.len_spec() == range.1 - range.0 + 1,
                            range.0 <= range.1,
                            start == range.0 + (i - 1) * part_size,
                    ;
                }
                start = start + part_size;
            }
        }
        (n_parts, parts)
    }
}

/// The planner is a pure function of `(range, part_size)`: any two
/// sequences that both satisfy the plan predicate are equal.
pub proof fn lemma_planner_idempotent(
    range: InclusiveRange,
    part_size: int,
    parts1: Seq<RangeRequest>,
    parts2: Seq<RangeRequest>,
)
    requires
        is_plan_spec(range, part_size, parts1),
        is_plan_spec(range, part_size, parts2),
    ensures
        parts1 == parts2,
{
    assert(parts1 =~= parts2);
}

/// The planned parts tile the requested range: part 0 starts at the
/// range's first byte, consecutive parts are contiguous, every part but
/// the last spans exactly `part_size` bytes, and the last part ends at
/// the range's last byte.
pub proof fn lemma_plan_covers(range: InclusiveRange, part_size: int, parts: Seq<RangeRequest>)
    requires
        range.wf(),
        part_size > 0,
        is_plan_spec(range, part_size, parts),
    ensures
        parts.len() > 0,
        parts[0].blob_range.0 == range.0,
        parts[parts.len() - 1].blob_range.1 == range.1,
        forall|i: int|
            0 <= i < parts.len() - 1 ==> (#[trigger] parts[i]).blob_range.1 + 1
                == parts[i + 1].blob_range.0,
        forall|i: int|
            0 <= i < parts.len() - 1 ==> (#[trigger] parts[i]).blob_range.len_spec() == part_size,
        forall|i: int|
            0 <= i < parts.len() ==> (#[trigger] parts[i]).blob_range.len_spec() <= part_size,
        forall|i: int|
            0 <= i < parts.len() ==> (#[trigger] parts[i]).blob_range.0
                == range.0 + parts[i].range_offset,
        forall|i: int| 0 <= i < parts.len() ==> (#[trigger] parts[i]).range_offset < range.len_spec(),
        forall|i: int| 0 <= i < parts.len() ==> (#[trigger] parts[i]).blob_range.wf(),
{
    let n = n_parts_spec(range.len_spec(), part_size);
    assert(n > 0 && (n - 1) * part_size < range.len_spec() <= n * part_size) by (nonlinear_arith)
        requires
            part_size > 0,
            range.len_spec() > 0,
            n == n_parts_spec(range.len_spec(), part_size),
    ;
    assert forall|i: int| 0 <= i < parts.len() implies (#[trigger] parts[i]).blob_range.0
        == range.0 + parts[i].range_offset && parts[i].blob_range.len_spec() <= part_size && (i
        < parts.len() - 1 ==> parts[i].blob_range.len_spec() == part_size && parts[i].blob_range.1
        + 1 == parts[i + 1].blob_range.0) && parts[i].range_offset < range.len_spec()
        && parts[i].blob_range.wf() by {
        assert(parts[i] == planned_part_spec(range, part_size, i));
        assert(range.0 + i * part_size <= range.1 && (i < n - 1 ==> range.0 + (i + 1) * part_size
            - 1 <= range.1) && (i * part_size + part_size == (i + 1) * part_size) && ((i + 1)
            * part_size + part_size == (i + 2) * part_size)) by (nonlinear_arith)
            requires
                part_size > 0,
                0 <= i < n,
                range.len_spec() == range.1 - range.0 + 1,
                (n - 1) * part_size < range.len_spec() <= n * part_size,
        ;
        if i < parts.len() - 1 {
            assert(parts[i + 1] == planned_part_spec(range, part_size, i + 1));
        }
    }
    assert(parts[n - 1].blob_range.1 == range.1) by {
        assert(parts[n - 1] == planned_part_spec(range, part_size, n - 1));
        assert((n - 1 + 1) * part_size == n * part_size) by (nonlinear_arith);
        if range.0 + n * part_size - 1 <= range.1 {
            assert(n * part_size <= range.len_spec());
            assert(range.0 + n * part_size - 1 == range.1);
        }
    }
}

} // verus!
