//! Observability events of a download.
//!
//! The machinery records every event it would hand to an observability
//! sink as a value, in order. A host that wires a real sink replays the
//! recorded events; timing them is the host's business.

use vstd::prelude::*;

verus! {

/// One event of a download, in the order the machinery emitted it.
#[derive(Clone, Copy, Debug, PartialEq, Eq, Structural)]
pub enum SinkEvent {
    /// The download began; emitted once, before any part.
    DownloadStarted,
    /// The whole download succeeded; terminal, at most once.
    DownloadCompleted,
    /// The download failed; terminal, at most once.
    DownloadFailed,
    /// Every worker queue was full for a whole dispatch lap.
    QueueFull,
    /// Work on the part began.
    PartStarted(u64),
    /// All bytes of the part were delivered: part index, number of
    /// chunks, number of bytes.
    PartCompleted(u64, usize, u64),
    /// The part failed.
    PartFailed(u64),
    /// One chunk of the part was delivered: part index, chunk index,
    /// number of bytes.
    ChunkCompleted(u64, usize, usize),
    /// A worker ended by panicking.
    PanicDetected,
    /// A retry is about to run: which attempt it is.
    RetryAttempt(usize),
}

impl SinkEvent {
    /// Whether this event ends a download.
    pub open spec fn is_terminal_spec(self) -> bool {
        self is DownloadCompleted || self is DownloadFailed
    }
}

/// How many terminal events `events` holds.
pub open spec fn terminal_count(events: Seq<SinkEvent>) -> int
    decreases events.len(),
{
    if events.len() == 0 {
        0int
    } else {
        terminal_count(events.drop_last()) + if events.last().is_terminal_spec() {
            1int
        } else {
            0int
        }
    }
}

/// Appending one event adds its terminal count.
pub proof fn lemma_terminal_count_push(events: Seq<SinkEvent>, e: SinkEvent)
    ensures
        terminal_count(events.push(e)) == terminal_count(events) + if e.is_terminal_spec() {
            1int
        } else {
            0int
        },
{
    assert(events.push(e).drop_last() =~= events);
}

/// A sequence without terminal events counts zero.
pub proof fn lemma_no_terminal_count(events: Seq<SinkEvent>)
    requires
        forall|i: int| 0 <= i < events.len() ==> !(#[trigger] events[i]).is_terminal_spec(),
    ensures
        terminal_count(events) == 0,
    decreases events.len(),
{
    if events.len() > 0 {
        assert(!events[events.len() - 1].is_terminal_spec());
        lemma_no_terminal_count(events.drop_last());
    }
}

} // verus!
