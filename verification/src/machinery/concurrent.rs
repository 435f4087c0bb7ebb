//! The dispatcher: owns the workers' queues and deals part requests
//! round-robin across them.

use vstd::prelude::*;

use vstd::arithmetic::div_mod::{lemma_mod_multiples_vanish, lemma_small_mod};

use crate::machinery::range_stream::RangeRequest;
use crate::machinery::sequential::SequentialDownloader;
use crate::machinery::KillSwitch;

verus! {

/// How one dispatch lap ended.
pub enum DispatchOutcome {
    /// The request was taken by the worker with this index.
    Enqueued(usize),
    /// Every worker's queue was full for the whole lap; the request is
    /// handed back, the host pauses and tries again.
    AllFull(RangeRequest),
    /// A worker is gone; the kill switch was armed, dispatching stops.
    Gone,
}

/// The dispatcher of one download: `max_concurrency` worker queues, a
/// cursor for round-robin fairness, and the shared kill switch.
///
/// A concurrent host calls [`ConcurrentDownloader::dispatch`] for each
/// planned part in order; on `AllFull` it sleeps for the configured
/// pause while the workers drain, then offers the same request again.
pub struct ConcurrentDownloader {
    downloaders: Vec<SequentialDownloader>,
    counter: usize,
    kill_switch: KillSwitch,
}

impl ConcurrentDownloader {
    /// The workers' queues.
    pub closed spec fn downloaders_spec(self) -> Seq<SequentialDownloader> {
        self.downloaders@
    }

    /// How many requests were dispatched so far.
    pub closed spec fn counter_spec(self) -> int {
        self.counter as int
    }

    /// The shared abort flag.
    pub closed spec fn kill_switch_spec(self) -> KillSwitch {
        self.kill_switch
    }

    /// A dispatcher over `n_concurrent` fresh workers with queues of
    /// `buffer_size` requests each.
    pub fn new(n_concurrent: usize, buffer_size: usize) -> (r: Self)
        requires
            n_concurrent >= 1,
            buffer_size >= 1,
        ensures
            r.downloaders_spec().len() == n_concurrent,
            forall|i: int|
                0 <= i < n_concurrent ==> (#[trigger] r.downloaders_spec()[i]).queue_spec().len()
                    == 0 && !r.downloaders_spec()[i].disconnected_spec()
                    && r.downloaders_spec()[i].capacity_spec() == buffer_size,
            r.counter_spec() == 0,
            !r.kill_switch_spec().is_pushed_spec(),
    {
        let mut downloaders: Vec<SequentialDownloader> = Vec::new();
        let mut i: usize = 0;
        while i < n_concurrent
            invariant
                0 <= i <= n_concurrent,
                buffer_size >= 1,
                downloaders@.len() == i,
                forall|j: int|
                    0 <= j < i ==> (#[trigger] downloaders@[j]).queue_spec().len() == 0
                        && !downloaders@[j].disconnected_spec() && downloaders@[j].capacity_spec()
                        == buffer_size,
            decreases n_concurrent - i,
        {
            downloaders.push(SequentialDownloader::new(buffer_size));
            i = i + 1;
        }
        ConcurrentDownloader { downloaders, counter: 0, kill_switch: KillSwitch::new() }
    }

    /// The cursor stays inside the worker list.
    pub open spec fn wf_spec(self) -> bool {
        &&& self.downloaders_spec().len() >= 1
        &&& 0 <= self.counter_spec() < self.downloaders_spec().len()
    }

    /// The `t`-th worker the round-robin lap visits: counting from just
    /// past the cursor, wrapping around.
    pub open spec fn rotation_spec(self, t: int) -> int {
        ((self.counter_spec() + 1 + t) % (self.downloaders_spec().len() as int))
    }

    /// Offers one part request to the workers, one lap round-robin from
    /// just past the cursor.
    ///
    /// The first worker with room takes it; when the whole lap finds
    /// every queue full, the request is handed back; a vanished worker
    /// arms the kill switch and ends the dispatch.
    #[verifier::loop_isolation(false)]
    pub fn dispatch(&mut self, req: RangeRequest) -> (r: DispatchOutcome)
        requires
            old(self).wf_spec(),
        ensures
            final(self).wf_spec(),
            final(self).downloaders_spec().len() == old(self).downloaders_spec().len(),
            (r matches DispatchOutcome::Enqueued(w) ==> {
                &&& 0 <= w < old(self).downloaders_spec().len()
                &&& final(self).downloaders_spec()[w as int].queue_spec() == old(
                    self,
                ).downloaders_spec()[w as int].queue_spec().push(req)
                &&& forall|j: int|
                    0 <= j < old(self).downloaders_spec().len() && j != w
                        ==> (#[trigger] final(self).downloaders_spec()[j]).queue_spec() == old(
                        self,
                    ).downloaders_spec()[j].queue_spec()
                &&& final(self).kill_switch_spec() == old(self).kill_switch_spec()
            }),
            (r matches DispatchOutcome::AllFull(back) ==> back == req && (forall|j: int|
                0 <= j < old(self).downloaders_spec().len()
                    ==> (#[trigger] final(self).downloaders_spec()[j]).queue_spec() == old(
                    self,
                ).downloaders_spec()[j].queue_spec() && old(self).downloaders_spec()[
                j
                ].queue_spec().len() >= old(self).downloaders_spec()[j].capacity_spec())
                && final(self).kill_switch_spec() == old(self).kill_switch_spec()),
            (r is Gone ==> final(self).kill_switch_spec().is_pushed_spec()),
            (r is Gone ==> exists|j: int|
                0 <= j < old(self).downloaders_spec().len() && (#[trigger] old(
                    self,
                ).downloaders_spec()[j]).disconnected_spec()),
            ((forall|j: int|
                0 <= j < old(self).downloaders_spec().len() ==> !(#[trigger] old(
                    self,
                ).downloaders_spec()[j]).disconnected_spec()) && (exists|j: int|
                0 <= j < old(self).downloaders_spec().len() && (#[trigger] old(
                    self,
                ).downloaders_spec()[j]).queue_spec().len() < old(self).downloaders_spec()[
                j
                ].capacity_spec()) ==> r is Enqueued),
            (r matches DispatchOutcome::Enqueued(w) ==> exists|t: int|
                0 <= t < old(self).downloaders_spec().len() && w == #[trigger] old(
                    self,
                ).rotation_spec(t) && (forall|u: int|
                0 <= u < t ==> {
                    let v = #[trigger] old(self).rotation_spec(u);
                    &&& old(self).downloaders_spec()[v].queue_spec().len() >= old(
                        self,
                    ).downloaders_spec()[v].capacity_spec()
                    &&& !old(self).downloaders_spec()[v].disconnected_spec()
                })),
            (r is Enqueued ==> final(self).counter_spec() == (if old(self).counter_spec() + 1
                == old(self).downloaders_spec().len() {
                0int
            } else {
                old(self).counter_spec() + 1
            })),
    {
        let n = self.downloaders.len();
        let start = if self.counter + 1 == n {
            0
        } else {
            self.counter + 1
        };
        let mut j = start;
        while j < n
            invariant
                n == self.downloaders@.len(),
                start <= j <= n,
                self.downloaders@.len() == old(self).downloaders_spec().len(),
                self.counter == old(self).counter_spec(),
                self.kill_switch == old(self).kill_switch_spec(),
                forall|k: int|
                    0 <= k < n ==> (#[trigger] self.downloaders@[k]).queue_spec() == old(
                        self,
                    ).downloaders_spec()[k].queue_spec() && self.downloaders@[k].capacity_spec()
                        == old(self).downloaders_spec()[k].capacity_spec()
                        && self.downloaders@[k].disconnected_spec() == old(
                        self,
                    ).downloaders_spec()[k].disconnected_spec(),
                forall|k: int|
                    start <= k < j ==> (#[trigger] self.downloaders@[k]).queue_spec().len()
                        >= self.downloaders@[k].capacity_spec() && !self.downloaders@[
                    k
                    ].disconnected_spec(),
                0 <= self.counter < n,
            decreases n - j,
        {
            match self.downloaders[j].enqueue(req) {
                Ok(None) => {
                    proof {
                        lemma_lap_position(*old(self), start as int, j as int, 0);
                        let t = j as int - start as int;
                        assert(old(self).rotation_spec(t) == j as int);
                        assert forall|u: int| 0 <= u < t implies {
                            let v = #[trigger] old(self).rotation_spec(u);
                            &&& old(self).downloaders_spec()[v].queue_spec().len() >= old(
                                self,
                            ).downloaders_spec()[v].capacity_spec()
                            &&& !old(self).downloaders_spec()[v].disconnected_spec()
                        } by {
                            assert(old(self).rotation_spec(u) == start + u);
                            let v = start as int + u;
                            assert(v < j as int);
                            assert(self.downloaders@[v].queue_spec().len() >= self.downloaders@[
                                v
                            ].capacity_spec());
                            assert(!self.downloaders@[v].disconnected_spec());
                            assert(self.downloaders@[v].queue_spec() == old(
                                self,
                            ).downloaders_spec()[v].queue_spec());
                            assert(self.downloaders@[v].capacity_spec() == old(
                                self,
                            ).downloaders_spec()[v].capacity_spec());
                        }
                    }
                    self.counter = if self.counter + 1 == n {
                        0
                    } else {
                        self.counter + 1
                    };
                    return DispatchOutcome::Enqueued(j);
                },
                Ok(Some(_)) => {},
                Err(()) => {
                    proof {
                        assert(old(self).downloaders_spec()[j as int].disconnected_spec());
                    }
                    self.kill_switch.push_the_button();
                    return DispatchOutcome::Gone;
                },
            }
            j = j + 1;
        }
        let mut j2: usize = 0;
        while j2 < start
            invariant
                n == self.downloaders@.len(),
                0 <= j2 <= start <= n,
                self.downloaders@.len() == old(self).downloaders_spec().len(),
                self.counter == old(self).counter_spec(),
                self.kill_switch == old(self).kill_switch_spec(),
                forall|k: int|
                    0 <= k < n ==> (#[trigger] self.downloaders@[k]).queue_spec() == old(
                        self,
                    ).downloaders_spec()[k].queue_spec() && self.downloaders@[k].capacity_spec()
                        == old(self).downloaders_spec()[k].capacity_spec()
                        && self.downloaders@[k].disconnected_spec() == old(
                        self,
                    ).downloaders_spec()[k].disconnected_spec(),
                forall|k: int|
                    start <= k < n ==> (#[trigger] self.downloaders@[k]).queue_spec().len()
                        >= self.downloaders@[k].capacity_spec() && !self.downloaders@[
                    k
                    ].disconnected_spec(),
                forall|k: int|
                    0 <= k < j2 ==> (#[trigger] self.downloaders@[k]).queue_spec().len()
                        >= self.downloaders@[k].capacity_spec() && !self.downloaders@[
                    k
                    ].disconnected_spec(),
            decreases start - j2,
        {
            match self.downloaders[j2].enqueue(req) {
                Ok(None) => {
                    proof {
                        lemma_lap_position(
                            *old(self),
                            start as int,
                            j2 as int,
                            n as int - start as int,
                        );
                        let t = n as int - start as int + j2 as int;
                        assert(old(self).rotation_spec(t) == j2 as int);
                        assert forall|u: int| 0 <= u < t implies {
                            let v = #[trigger] old(self).rotation_spec(u);
                            &&& old(self).downloaders_spec()[v].queue_spec().len() >= old(
                                self,
                            ).downloaders_spec()[v].capacity_spec()
                            &&& !old(self).downloaders_spec()[v].disconnected_spec()
                        } by {
                            let v = if u < n as int - start as int {
                                start as int + u
                            } else {
                                u - (n as int - start as int)
                            };
                            assert(old(self).rotation_spec(u) == v);
                            assert(v != j2 as int);
                            assert(self.downloaders@[v].queue_spec().len() >= self.downloaders@[
                                v
                            ].capacity_spec());
                            assert(!self.downloaders@[v].disconnected_spec());
                            assert(self.downloaders@[v].queue_spec() == old(
                                self,
                            ).downloaders_spec()[v].queue_spec());
                            assert(self.downloaders@[v].capacity_spec() == old(
                                self,
                            ).downloaders_spec()[v].capacity_spec());
                        }
                    }
                    self.counter = if self.counter + 1 == n {
                        0
                    } else {
                        self.counter + 1
                    };
                    return DispatchOutcome::Enqueued(j2);
                },
                Ok(Some(_)) => {},
                Err(()) => {
                    proof {
                        assert(old(self).downloaders_spec()[j2 as int].disconnected_spec());
                    }
                    self.kill_switch.push_the_button();
                    return DispatchOutcome::Gone;
                },
            }
            j2 = j2 + 1;
        }
        proof {
            assert forall|k: int|
                0 <= k < self.downloaders@.len() implies (#[trigger] self.downloaders@[
                k
            ]).queue_spec().len() >= self.downloaders@[k].capacity_spec() by {
                if k >= start {
                    assert(self.downloaders@[k].queue_spec().len() >= self.downloaders@[
                        k
                    ].capacity_spec());
                }
            }
            if exists|jj: int|
                0 <= jj < old(self).downloaders_spec().len() && (#[trigger] old(
                    self,
                ).downloaders_spec()[jj]).queue_spec().len() < old(self).downloaders_spec()[
                jj
                ].capacity_spec() {
                let jj = choose|jj: int|
                    0 <= jj < old(self).downloaders_spec().len() && (#[trigger] old(
                        self,
                    ).downloaders_spec()[jj]).queue_spec().len() < old(self).downloaders_spec()[
                    jj
                    ].capacity_spec();
                assert(self.downloaders@[jj].queue_spec().len() >= self.downloaders@[
                    jj
                ].capacity_spec());
                assert(false);
            }
        }
        DispatchOutcome::AllFull(req)
    }
}

/// The worker a dispatch attempt targets: `attempt` positions past the
/// cursor, wrapping around the pool.
pub fn round_robin_index(counter: usize, attempt: usize, n: usize) -> (r: usize)
    requires
        n >= 1,
        counter + attempt <= usize::MAX,
    ensures
        r == ((counter + attempt) as int) % (n as int),
        r < n,
{
    (counter + attempt) % n
}

/// The worker at index `w` is the `(wrap + w - start)`-th position of
/// the lap that starts just past the cursor: positions before the
/// wrap-around point are `start + t`, later ones wrap to `t - (n -
/// start)`.
proof fn lemma_lap_position(c: ConcurrentDownloader, start: int, w: int, wrap: int)
    requires
        c.wf_spec(),
        start == (if c.counter_spec() + 1 == c.downloaders_spec().len() {
            0int
        } else {
            c.counter_spec() + 1
        }),
        (wrap == 0 && start <= w < c.downloaders_spec().len()) || (wrap
            == c.downloaders_spec().len() - start && 0 <= w < start),
    ensures
        c.rotation_spec(wrap + w - (if wrap == 0 {
            start
        } else {
            0int
        })) == w,
        forall|u: int|
            0 <= u < wrap + w - (if wrap == 0 {
                start
            } else {
                0int
            }) ==> #[trigger] c.rotation_spec(u) == (if u < c.downloaders_spec().len() - start {
                start + u
            } else {
                u - (c.downloaders_spec().len() - start)
            }),
{
    let n = c.downloaders_spec().len() as int;
    assert forall|u: int| 0 <= u < n implies #[trigger] c.rotation_spec(u) == (if u < n - start {
        start + u
    } else {
        u - (n - start)
    }) by {
        if c.counter_spec() + 1 == n {
            assert(start == 0);
            if u < n {
                lemma_mod_multiples_vanish(1, u - n + (c.counter_spec() + 1), n);
                if u < n - start {
                    lemma_small_mod(u as nat, n as nat);
                }
            }
        } else {
            if u < n - start {
                lemma_small_mod((start + u) as nat, n as nat);
            } else {
                lemma_mod_multiples_vanish(1, start + u - n, n);
                lemma_small_mod((start + u - n) as nat, n as nat);
            }
        }
    }
}

} // verus!
