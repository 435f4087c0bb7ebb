//! Completion accounting shared by the workers of one download.

use vstd::prelude::*;

use crate::reporter::SinkEvent;

verus! {

/// Counts the live workers of a download and remembers whether any of
/// them failed; the last worker out fires the one terminal event.
///
/// A concurrent host keeps the counter and the flag behind atomics and
/// calls [`DownloadersWatcher::on_worker_exit`] from every worker's
/// exit path, so the terminal event fires exactly once, on every exit
/// path.
pub struct DownloadersWatcher {
    live: usize,
    is_failed: bool,
}

impl DownloadersWatcher {
    /// How many workers have not exited yet.
    pub closed spec fn live_spec(self) -> int {
        self.live as int
    }

    /// Whether any worker failed.
    pub closed spec fn is_failed_spec(self) -> bool {
        self.is_failed
    }

    /// A watcher for one download, with one worker registered.
    pub fn new() -> (r: Self)
        ensures
            r.live_spec() == 1,
            !r.is_failed_spec(),
    {
        DownloadersWatcher { live: 1, is_failed: false }
    }

    /// Registers one more worker.
    pub fn register(&mut self)
        requires
            old(self).live_spec() < usize::MAX,
        ensures
            final(self).live_spec() == old(self).live_spec() + 1,
            final(self).is_failed_spec() == old(self).is_failed_spec(),
    {
        self.live = self.live + 1;
    }

    /// Records that a worker failed; never reset.
    pub fn mark_failed(&mut self)
        ensures
            final(self).is_failed_spec(),
            final(self).live_spec() == old(self).live_spec(),
    {
        self.is_failed = true;
    }

    /// One worker exited. Exactly when the last one leaves, the one
    /// terminal event is produced: `DownloadFailed` if any worker
    /// failed, else `DownloadCompleted`.
    pub fn on_worker_exit(&mut self) -> (r: Option<SinkEvent>)
        requires
            old(self).live_spec() > 0,
        ensures
            final(self).live_spec() == old(self).live_spec() - 1,
            final(self).is_failed_spec() == old(self).is_failed_spec(),
            (r is Some <==> old(self).live_spec() == 1),
            (r matches Some(e) ==> e == (if old(self).is_failed_spec() {
                SinkEvent::DownloadFailed
            } else {
                SinkEvent::DownloadCompleted
            })),
    {
        self.live = self.live - 1;
        if self.live == 0 {
            if self.is_failed {
                Some(SinkEvent::DownloadFailed)
            } else {
                Some(SinkEvent::DownloadCompleted)
            }
        } else {
            None
        }
    }
}

} // verus!
