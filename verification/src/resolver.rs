//! The scheduling core: find an idle worker or queue the caller.
//!
//! Workers are scanned in index order, so ties between idle workers are
//! broken deterministically, lowest index first. When every worker is
//! busy the submission joins a FIFO queue of waiters; a completed job
//! either hands its worker directly to the head waiter — without ever
//! marking it idle in between, so no other caller can grab it — or, when
//! the queue is empty, marks the worker idle.

use crate::job::{Job, JobView};
use crate::thread::{tviews, Thread, ThreadView};
use vstd::prelude::*;

verus! {

/// A caller blocked on "give me any idle worker": the ticket of its
/// submission and the job it wants run.
pub struct Waiter {
    pub ticket: u64,
    pub job: Job,
}

/// The mathematical value of a [`Waiter`].
#[verifier::ext_equal]
pub struct WaiterView {
    pub ticket: u64,
    pub job: JobView,
}

impl View for Waiter {
    type V = WaiterView;

    open spec fn view(&self) -> WaiterView {
        WaiterView { ticket: self.ticket, job: self.job@ }
    }
}

/// Every worker is busy.
pub open spec fn all_busy(ts: Seq<ThreadView>) -> bool {
    forall|i: int| 0 <= i < ts.len() ==> ts[i].busy
}

/// `i` is the lowest index of an idle worker.
pub open spec fn is_first_idle(ts: Seq<ThreadView>, i: int) -> bool {
    &&& 0 <= i < ts.len()
    &&& !ts[i].busy
    &&& forall|j: int| 0 <= j < i ==> ts[j].busy
}

/// What a worker assignment hands back: either an idle worker was found
/// at once, or the submission was queued behind the saturated pool.
pub enum Resolution {
    /// The worker at this index was marked busy and assigned; the job is
    /// handed back for dispatch.
    Assigned(usize, Job),
    /// All workers were busy; the job now waits in the FIFO queue.
    Queued,
}

/// The FIFO queue of waiters.
pub struct Resolver {
    queue: Vec<Waiter>,
}

impl View for Resolver {
    type V = Seq<WaiterView>;

    closed spec fn view(&self) -> Seq<WaiterView> {
        self.queue@.map_values(|w: Waiter| w@)
    }
}

impl Resolver {
    /// An empty queue.
    pub fn new() -> (r: Resolver)
        ensures
            r@.len() == 0,
    {
        Resolver { queue: Vec::new() }
    }

    /// Scans the workers in index order. The first idle worker is marked
    /// busy and assigned immediately; if none is idle, the submission is
    /// appended to the waiter queue.
    pub fn resolve_runnable(
        &mut self,
        threads: &mut Vec<Thread>,
        ticket: u64,
        job: Job,
    ) -> (r: Resolution)
        ensures
            match r {
                Resolution::Assigned(i, j) => {
                    &&& j == job
                    &&& is_first_idle(tviews(old(threads)@), i as int)
                    &&& tviews(final(threads)@) == tviews(old(threads)@).update(
                        i as int,
                        ThreadView { busy: true, ..tviews(old(threads)@)[i as int] },
                    )
                    &&& final(self)@ == old(self)@
                },
                Resolution::Queued => {
                    &&& all_busy(tviews(old(threads)@))
                    &&& final(threads)@ == old(threads)@
                    &&& final(self)@ == old(self)@.push(WaiterView { ticket, job: job@ })
                },
            },
    {
        let n = threads.len();
        let mut i: usize = 0;
        while i < n
            invariant
                n == threads.len(),
                i <= n,
                threads@ == old(threads)@,
                forall|j: int| 0 <= j < i ==> tviews(threads@)[j].busy,
            decreases n - i,
        {
            let busy = threads[i].get_busy();
            if !busy {
                proof {
                    assert(tviews(threads@)[i as int] == threads@[i as int]@);
                }
                let t = &mut threads[i];
                t.set_busy(true);
                proof {
                    assert(tviews(threads@) =~= tviews(old(threads)@).update(
                        i as int,
                        ThreadView { busy: true, ..tviews(old(threads)@)[i as int] },
                    ));
                }
                return Resolution::Assigned(i, job);
            }
            i = i + 1;
        }
        self.queue.push(Waiter { ticket, job });
        proof {
            assert(self@ =~= old(self)@.push(WaiterView { ticket, job: job@ }));
        }
        Resolution::Queued
    }

    /// Called exactly once per completed job, whatever its outcome. If a
    /// waiter is queued, the head waiter is popped and receives the same
    /// worker, which stays busy throughout; otherwise the worker is
    /// marked idle.
    pub fn notify_job_complete(&mut self, threads: &mut Vec<Thread>, i: usize) -> (r: Option<
        Waiter,
    >)
        requires
            i < old(threads).len(),
            tviews(old(threads)@)[i as int].busy,
        ensures
            match r {
                Some(w) => {
                    &&& old(self)@.len() > 0
                    &&& w@ == old(self)@[0]
                    &&& final(self)@ == old(self)@.drop_first()
                    &&& final(threads)@ == old(threads)@
                },
                None => {
                    &&& old(self)@.len() == 0
                    &&& final(self)@ == old(self)@
                    &&& tviews(final(threads)@) == tviews(old(threads)@).update(
                        i as int,
                        ThreadView { busy: false, ..tviews(old(threads)@)[i as int] },
                    )
                },
            },
    {
        if self.queue.len() > 0 {
            let w = self.queue.remove(0);
            proof {
                assert(self@ =~= old(self)@.drop_first());
            }
            Some(w)
        } else {
            proof {
                assert(tviews(threads@)[i as int] == threads@[i as int]@);
            }
            let t = &mut threads[i];
            t.set_busy(false);
            proof {
                assert(tviews(threads@) =~= tviews(old(threads)@).update(
                    i as int,
                    ThreadView { busy: false, ..tviews(old(threads)@)[i as int] },
                ));
            }
            None
        }
    }

    /// Drains the waiter queue for pool shutdown, pairing each waiter's
    /// ticket with a cancellation sequence number in queue order.
    pub fn cancel_pending_jobs(&mut self) -> (r: Vec<(u64, u64)>)
        ensures
            final(self)@.len() == 0,
            r@.len() == old(self)@.len(),
            forall|k: int|
                0 <= k < r@.len() ==> r@[k] == (old(self)@[k].ticket, k as u64),
    {
        let mut r: Vec<(u64, u64)> = Vec::new();
        let mut k: usize = 0;
        while k < self.queue.len()
            invariant
                k <= self.queue.len(),
                self@ == old(self)@,
                r@.len() == k,
                forall|j: int| 0 <= j < k ==> r@[j] == (old(self)@[j].ticket, j as u64),
            decreases self.queue.len() - k,
        {
            proof {
                assert(self@[k as int] == self.queue@[k as int]@);
            }
            r.push((self.queue[k].ticket, k as u64));
            k = k + 1;
        }
        self.queue = Vec::new();
        proof {
            assert(self@ =~= Seq::<WaiterView>::empty());
        }
        r
    }

    /// The number of submissions waiting for a free worker (not the
    /// number of in-flight executions).
    pub fn count_pending_jobs(&self) -> (r: usize)
        ensures
            r == self@.len(),
    {
        self.queue.len()
    }
}

} // verus!
