//! The pool: a fixed set of workers, one FIFO resolver, and a ledger of
//! settled submissions.
//!
//! The pool is a state machine driven by the host. A submission either
//! starts at once on an idle worker — the pool hands the host a request
//! message to carry — or waits in the FIFO queue. The host feeds worker
//! replies back through [`ThreadPool::on_message`] and channel failures
//! through [`ThreadPool::on_worker_error`]; each such event settles
//! exactly one submission and may start the next queued job on the freed
//! worker. Teardown cancels queued waiters first, then terminates every
//! worker, so a freed worker is never matched to a waiter that is about
//! to be rejected.

use crate::atw::{atw_decode_result_msg, ReqMsg, ResultMsg, TransportView};
use crate::job::{clone_bytes, Fault, Job, JobView, Outcome, OutcomeView};
use crate::resolver::{all_busy, is_first_idle, Resolution, Resolver, Waiter, WaiterView};
use crate::thread::{tviews, Thread, ThreadView};
use vstd::prelude::*;

verus! {

/// A settled submission: the ticket it was issued and what became of it.
pub struct Settled {
    pub ticket: u64,
    pub outcome: Outcome,
}

/// The mathematical value of a [`Settled`] record.
#[verifier::ext_equal]
pub struct SettledView {
    pub ticket: u64,
    pub outcome: OutcomeView,
}

impl View for Settled {
    type V = SettledView;

    open spec fn view(&self) -> SettledView {
        SettledView { ticket: self.ticket, outcome: self.outcome@ }
    }
}

/// An instruction to the host: post this request message to this worker.
pub struct Dispatch {
    pub worker: usize,
    pub msg: ReqMsg,
}

/// What a submission hands back: the ticket that will identify its
/// outcome, and the dispatch to perform now, if a worker was idle.
pub struct Submission {
    pub ticket: u64,
    pub dispatch: Option<Dispatch>,
}

/// What one worker event settles: the ticket and outcome of the finished
/// submission, and the dispatch that starts the next queued job on the
/// freed worker, if any was waiting.
pub struct Completion {
    pub ticket: u64,
    pub outcome: Outcome,
    pub next: Option<Dispatch>,
}

/// The report of a teardown sweep: the queued tickets that were canceled,
/// each with its cancellation sequence number, and the in-flight tickets
/// that were rejected when their workers were terminated.
pub struct TerminateReport {
    pub canceled: Vec<(u64, u64)>,
    pub aborted: Vec<u64>,
}

/// The abstract content of an `Option<Dispatch>`: worker index,
/// correlation id, and the job being dispatched.
pub open spec fn dispatch_view(d: Option<Dispatch>) -> Option<(int, u128, JobView)> {
    match d {
        Some(dd) => Some((dd.worker as int, dd.msg.id, dd.msg.task@)),
        None => None,
    }
}

/// A fixed-size worker pool.
pub struct ThreadPool {
    size: usize,
    threads: Vec<Thread>,
    resolver: Resolver,
    is_initialized: bool,
    is_terminated: bool,
    next_ticket: u64,
    outcomes: Vec<Settled>,
}

/// The mathematical value of a [`ThreadPool`].
#[verifier::ext_equal]
pub struct PoolView {
    pub size: nat,
    pub threads: Seq<ThreadView>,
    pub queue: Seq<WaiterView>,
    pub initialized: bool,
    pub terminated: bool,
    pub next_ticket: nat,
    pub outcomes: Seq<SettledView>,
}

impl View for ThreadPool {
    type V = PoolView;

    closed spec fn view(&self) -> PoolView {
        PoolView {
            size: self.size as nat,
            threads: tviews(self.threads@),
            queue: self.resolver@,
            initialized: self.is_initialized,
            terminated: self.is_terminated,
            next_ticket: self.next_ticket as nat,
            outcomes: self.outcomes@.map_values(|s: Settled| s@),
        }
    }
}

impl PoolView {
    /// Every worker handle is well formed.
    pub open spec fn threads_wf(self) -> bool {
        forall|w: int| 0 <= w < self.threads.len() ==> (#[trigger] self.threads[w]).wf()
    }

    /// Every worker has completed its bootstrap handshake.
    pub open spec fn workers_ready(self) -> bool {
        forall|w: int| 0 <= w < self.threads.len() ==> (#[trigger] self.threads[w]).initialized
    }

    /// A worker carries at most one request; an idle worker carries none;
    /// a busy worker whose channel is open carries exactly one.
    pub open spec fn busy_matches_load(self) -> bool {
        forall|w: int|
            0 <= w < self.threads.len() ==> {
                let t = #[trigger] self.threads[w];
                &&& t.chan.pending.len() <= 1
                &&& (!t.busy ==> t.chan.pending.len() == 0)
                &&& (t.busy && !t.chan.terminated ==> t.chan.pending.len() == 1)
            }
    }

    /// No worker channel has been terminated.
    pub open spec fn channels_open(self) -> bool {
        forall|w: int| 0 <= w < self.threads.len() ==> !(#[trigger] self.threads[w]).chan.terminated
    }

    /// Every worker channel has been terminated.
    pub open spec fn channels_closed(self) -> bool {
        forall|w: int| 0 <= w < self.threads.len() ==> (#[trigger] self.threads[w]).chan.terminated
    }

    /// Every ticket the pool has handed out is below `next_ticket`.
    pub open spec fn tickets_bounded(self) -> bool {
        &&& forall|k: int|
            0 <= k < self.queue.len() ==> (#[trigger] self.queue[k]).ticket < self.next_ticket
        &&& forall|w: int, p: int|
            0 <= w < self.threads.len() && 0 <= p < self.threads[w].chan.pending.len() ==> (
            #[trigger] self.threads[w].chan.pending[p]).1 < self.next_ticket
        &&& forall|k: int|
            0 <= k < self.outcomes.len() ==> (#[trigger] self.outcomes[k]).ticket
                < self.next_ticket
    }

    /// A ticket settles at most once, waits at most once, and runs on at
    /// most one worker — and never two of these at the same time.
    pub open spec fn tickets_distinct(self) -> bool {
        &&& forall|k1: int, k2: int|
            0 <= k1 < k2 < self.queue.len() ==> (#[trigger] self.queue[k1]).ticket != (
            #[trigger] self.queue[k2]).ticket
        &&& forall|w1: int, p1: int, w2: int, p2: int|
            0 <= w1 < self.threads.len() && 0 <= p1 < self.threads[w1].chan.pending.len() && 0 <= w2
                < self.threads.len() && 0 <= p2 < self.threads[w2].chan.pending.len() && (w1 != w2
                || p1 != p2) ==> (#[trigger] self.threads[w1].chan.pending[p1]).1 != (
            #[trigger] self.threads[w2].chan.pending[p2]).1
        &&& forall|k: int, w: int, p: int|
            0 <= k < self.queue.len() && 0 <= w < self.threads.len() && 0 <= p
                < self.threads[w].chan.pending.len() ==> (#[trigger] self.queue[k]).ticket != (
            #[trigger] self.threads[w].chan.pending[p]).1
        &&& forall|k1: int, k2: int|
            0 <= k1 < k2 < self.outcomes.len() ==> (#[trigger] self.outcomes[k1]).ticket != (
            #[trigger] self.outcomes[k2]).ticket
        &&& forall|k: int, q: int|
            0 <= k < self.outcomes.len() && 0 <= q < self.queue.len() ==> (
            #[trigger] self.outcomes[k]).ticket != (#[trigger] self.queue[q]).ticket
        &&& forall|k: int, w: int, p: int|
            0 <= k < self.outcomes.len() && 0 <= w < self.threads.len() && 0 <= p
                < self.threads[w].chan.pending.len() ==> (#[trigger] self.outcomes[k]).ticket != (
            #[trigger] self.threads[w].chan.pending[p]).1
    }

    /// The pool invariant. It holds after every public operation: the
    /// scheduler never over-commits a worker, a waiter is queued only
    /// while every worker is busy, and every submission is in exactly one
    /// place — queued, running, or settled.
    pub open spec fn wf(self) -> bool {
        &&& self.size >= 1
        &&& (self.initialized ==> self.threads.len() == self.size)
        &&& (!self.initialized ==> self.threads.len() == 0 && self.queue.len() == 0
            && self.outcomes.len() == 0 && self.next_ticket == 0)
        &&& self.threads_wf()
        &&& self.workers_ready()
        &&& self.busy_matches_load()
        &&& (!self.terminated ==> self.channels_open())
        &&& (self.terminated ==> self.channels_closed() && self.queue.len() == 0)
        &&& (self.queue.len() > 0 ==> all_busy(self.threads))
        &&& self.tickets_bounded()
        &&& self.tickets_distinct()
    }
}

/// How one submission transforms the pool. `dispatch` describes the
/// request that was started — worker index, correlation id and job — or
/// is `None` when every worker was busy and the job joined the queue.
pub open spec fn submit_transition(
    pre: PoolView,
    job: JobView,
    post: PoolView,
    ticket: u64,
    dispatch: Option<(int, u128, JobView)>,
) -> bool {
    &&& ticket as nat == pre.next_ticket
    &&& post.next_ticket == pre.next_ticket + 1
    &&& post.size == pre.size
    &&& post.initialized == pre.initialized
    &&& post.terminated == pre.terminated
    &&& post.outcomes == pre.outcomes
    &&& match dispatch {
        Some((w, id, j)) => {
            &&& j == job
            &&& is_first_idle(pre.threads, w)
            &&& post.queue == pre.queue
            &&& post.threads == pre.threads.update(
                w,
                ThreadView {
                    busy: true,
                    chan: TransportView {
                        pending: pre.threads[w].chan.pending.push((id, ticket)),
                        terminated: false,
                    },
                    ..pre.threads[w]
                },
            )
        },
        None => {
            &&& all_busy(pre.threads)
            &&& post.threads == pre.threads
            &&& post.queue == pre.queue.push(WaiterView { ticket, job })
        },
    }
}

/// A submission transforms a well-formed pool into a well-formed pool.
pub proof fn lemma_submit_preserves_wf(
    pre: PoolView,
    job: JobView,
    post: PoolView,
    ticket: u64,
    dispatch: Option<(int, u128, JobView)>,
)
    requires
        pre.wf(),
        pre.initialized,
        !pre.terminated,
        submit_transition(pre, job, post, ticket, dispatch),
    ensures
        post.wf(),
{
    match dispatch {
        Some((w, id, j)) => {
            assert(!pre.threads[w].busy);
            assert(pre.threads[w].chan.pending.len() == 0);
            assert(!pre.threads[w].chan.terminated);
            assert(pre.queue.len() == 0) by {
                if pre.queue.len() > 0 {
                    assert(pre.threads[w].busy);
                }
            }
            let nt = post.threads[w];
            assert(nt.chan.pending =~= seq![(id, ticket)]);
            assert forall|w2: int|
                0 <= w2 < post.threads.len() implies (#[trigger] post.threads[w2]).wf()
                && post.threads[w2].initialized by {
                if w2 != w {
                    assert(post.threads[w2] == pre.threads[w2]);
                }
            }
            assert(post.busy_matches_load()) by {
                assert forall|w2: int|
                    0 <= w2 < post.threads.len() implies {
                    let t = #[trigger] post.threads[w2];
                    &&& t.chan.pending.len() <= 1
                    &&& (!t.busy ==> t.chan.pending.len() == 0)
                    &&& (t.busy && !t.chan.terminated ==> t.chan.pending.len() == 1)
                } by {
                    if w2 != w {
                        assert(post.threads[w2] == pre.threads[w2]);
                    }
                }
            }
            assert(post.channels_open()) by {
                assert forall|w2: int|
                    0 <= w2 < post.threads.len() implies !(
                #[trigger] post.threads[w2]).chan.terminated by {
                    if w2 != w {
                        assert(post.threads[w2] == pre.threads[w2]);
                    }
                }
            }
            assert(post.tickets_bounded()) by {
                assert forall|w2: int, p: int|
                    0 <= w2 < post.threads.len() && 0 <= p
                        < post.threads[w2].chan.pending.len() implies (
                #[trigger] post.threads[w2].chan.pending[p]).1 < post.next_ticket by {
                    if w2 != w {
                        assert(post.threads[w2] == pre.threads[w2]);
                    } else {
                        assert(post.threads[w2].chan.pending[p] == (id, ticket));
                    }
                }
            }
            assert(post.tickets_distinct()) by {
                assert forall|w1: int, p1: int, w2: int, p2: int|
                    0 <= w1 < post.threads.len() && 0 <= p1 < post.threads[w1].chan.pending.len()
                        && 0 <= w2 < post.threads.len() && 0 <= p2
                        < post.threads[w2].chan.pending.len() && (w1 != w2 || p1 != p2) implies (
                #[trigger] post.threads[w1].chan.pending[p1]).1 != (
                #[trigger] post.threads[w2].chan.pending[p2]).1 by {
                    if w1 != w {
                        assert(post.threads[w1] == pre.threads[w1]);
                    }
                    if w2 != w {
                        assert(post.threads[w2] == pre.threads[w2]);
                    }
                }
                assert forall|k: int, w2: int, p: int|
                    0 <= k < post.outcomes.len() && 0 <= w2 < post.threads.len() && 0 <= p
                        < post.threads[w2].chan.pending.len() implies (
                #[trigger] post.outcomes[k]).ticket != (
                #[trigger] post.threads[w2].chan.pending[p]).1 by {
                    if w2 != w {
                        assert(post.threads[w2] == pre.threads[w2]);
                    } else {
                        assert(post.threads[w2].chan.pending[p] == (id, ticket));
                    }
                }
            }
        },
        None => {
            assert(post.queue.len() > 0 ==> all_busy(post.threads));
            assert(post.tickets_bounded()) by {
                assert forall|k: int|
                    0 <= k < post.queue.len() implies (#[trigger] post.queue[k]).ticket
                    < post.next_ticket by {
                    if k < pre.queue.len() {
                        assert(post.queue[k] == pre.queue[k]);
                    }
                }
            }
            assert(post.tickets_distinct()) by {
                assert forall|k1: int, k2: int|
                    0 <= k1 < k2 < post.queue.len() implies (#[trigger] post.queue[k1]).ticket
                    != (#[trigger] post.queue[k2]).ticket by {
                    assert(post.queue[k1] == pre.queue[k1]);
                    if k2 < pre.queue.len() {
                        assert(post.queue[k2] == pre.queue[k2]);
                    }
                }
                assert forall|k: int, w: int, p: int|
                    0 <= k < post.queue.len() && 0 <= w < post.threads.len() && 0 <= p
                        < post.threads[w].chan.pending.len() implies (
                #[trigger] post.queue[k]).ticket != (
                #[trigger] post.threads[w].chan.pending[p]).1 by {
                    if k < pre.queue.len() {
                        assert(post.queue[k] == pre.queue[k]);
                    }
                }
                assert forall|k: int, q: int|
                    0 <= k < post.outcomes.len() && 0 <= q < post.queue.len() implies (
                #[trigger] post.outcomes[k]).ticket != (#[trigger] post.queue[q]).ticket by {
                    if q < pre.queue.len() {
                        assert(post.queue[q] == pre.queue[q]);
                    }
                }
            }
        },
    }
}

/// How one settled request transforms the pool. Worker `w` reported the
/// result of the request with correlation id `id`; the submission holding
/// `ticket` settles with `outcome`, and either the head waiter's job is
/// dispatched on the same worker (`next`) — which stays busy throughout,
/// so no other caller can grab it — or the worker is marked idle.
pub open spec fn complete_transition(
    pre: PoolView,
    w: int,
    id: u128,
    is_ok: bool,
    data: Seq<u8>,
    post: PoolView,
    ticket: u64,
    outcome: OutcomeView,
    next: Option<(int, u128, JobView)>,
) -> bool {
    &&& 0 <= w < pre.threads.len()
    &&& pre.threads[w].chan.pending == seq![(id, ticket)]
    &&& outcome == if is_ok {
        OutcomeView::Success(data)
    } else {
        OutcomeView::JobError(data)
    }
    &&& settle_transition(pre, w, post, ticket, outcome, next)
}

/// The common core of settling one in-flight request on worker `w`: its
/// submission's outcome joins the ledger, and the worker is either handed
/// to the head waiter or marked idle.
pub open spec fn settle_transition(
    pre: PoolView,
    w: int,
    post: PoolView,
    ticket: u64,
    outcome: OutcomeView,
    next: Option<(int, u128, JobView)>,
) -> bool {
    &&& 0 <= w < pre.threads.len()
    &&& pre.threads[w].chan.pending.len() == 1
    &&& pre.threads[w].chan.pending[0].1 == ticket
    &&& post.outcomes == pre.outcomes.push(SettledView { ticket, outcome })
    &&& post.next_ticket == pre.next_ticket
    &&& post.size == pre.size
    &&& post.initialized == pre.initialized
    &&& post.terminated == pre.terminated
    &&& match next {
        Some((w2, id2, j2)) => {
            &&& w2 == w
            &&& pre.queue.len() > 0
            &&& j2 == pre.queue[0].job
            &&& post.queue == pre.queue.drop_first()
            &&& post.threads == pre.threads.update(
                w,
                ThreadView {
                    chan: TransportView {
                        pending: seq![(id2, pre.queue[0].ticket)],
                        terminated: false,
                    },
                    ..pre.threads[w]
                },
            )
        },
        None => {
            &&& pre.queue.len() == 0
            &&& post.queue == pre.queue
            &&& post.threads == pre.threads.update(
                w,
                ThreadView {
                    busy: false,
                    chan: TransportView { pending: Seq::empty(), terminated: false },
                    ..pre.threads[w]
                },
            )
        },
    }
}

/// A settled request transforms a well-formed pool into a well-formed
/// pool.
pub proof fn lemma_settle_preserves_wf(
    pre: PoolView,
    w: int,
    post: PoolView,
    ticket: u64,
    outcome: OutcomeView,
    next: Option<(int, u128, JobView)>,
)
    requires
        pre.wf(),
        settle_transition(pre, w, post, ticket, outcome, next),
    ensures
        post.wf(),
{
    assert(pre.threads[w].chan.pending[0].1 == ticket);
    assert(pre.threads[w].busy);
    assert(!pre.threads[w].chan.terminated);
    assert(!pre.terminated);
    assert(ticket < pre.next_ticket);
    assert forall|k: int|
        0 <= k < pre.outcomes.len() implies (#[trigger] pre.outcomes[k]).ticket != ticket by {
        assert(pre.outcomes[k].ticket != pre.threads[w].chan.pending[0].1);
    }
    match next {
        Some((w2, id2, j2)) => {
            let qt = pre.queue[0].ticket;
            assert(qt != ticket) by {
                assert(pre.queue[0].ticket != pre.threads[w].chan.pending[0].1);
            }
            assert(post.threads[w].chan.pending =~= seq![(id2, qt)]);
            assert forall|w2a: int|
                0 <= w2a < post.threads.len() implies (#[trigger] post.threads[w2a]).wf()
                && post.threads[w2a].initialized by {
                if w2a != w {
                    assert(post.threads[w2a] == pre.threads[w2a]);
                }
            }
            assert(post.busy_matches_load()) by {
                assert forall|wa: int|
                    0 <= wa < post.threads.len() implies {
                    let t = #[trigger] post.threads[wa];
                    &&& t.chan.pending.len() <= 1
                    &&& (!t.busy ==> t.chan.pending.len() == 0)
                    &&& (t.busy && !t.chan.terminated ==> t.chan.pending.len() == 1)
                } by {
                    if wa != w {
                        assert(post.threads[wa] == pre.threads[wa]);
                    }
                }
            }
            assert(post.channels_open()) by {
                assert forall|wa: int|
                    0 <= wa < post.threads.len() implies !(
                #[trigger] post.threads[wa]).chan.terminated by {
                    if wa != w {
                        assert(post.threads[wa] == pre.threads[wa]);
                    }
                }
            }
            assert(post.queue.len() > 0 ==> all_busy(post.threads)) by {
                if post.queue.len() > 0 {
                    assert(all_busy(pre.threads));
                    assert forall|wa: int|
                        0 <= wa < post.threads.len() implies (#[trigger] post.threads[wa]).busy by {
                        if wa != w {
                            assert(post.threads[wa] == pre.threads[wa]);
                        } else {
                            assert(pre.threads[w].busy);
                        }
                    }
                }
            }
            assert(post.tickets_bounded()) by {
                assert forall|k: int|
                    0 <= k < post.queue.len() implies (#[trigger] post.queue[k]).ticket
                    < post.next_ticket by {
                    assert(post.queue[k] == pre.queue[k + 1]);
                }
                assert forall|wa: int, p: int|
                    0 <= wa < post.threads.len() && 0 <= p
                        < post.threads[wa].chan.pending.len() implies (
                #[trigger] post.threads[wa].chan.pending[p]).1 < post.next_ticket by {
                    if wa != w {
                        assert(post.threads[wa] == pre.threads[wa]);
                    } else {
                        assert(post.threads[wa].chan.pending[p] == (id2, qt));
                    }
                }
                assert forall|k: int|
                    0 <= k < post.outcomes.len() implies (#[trigger] post.outcomes[k]).ticket
                    < post.next_ticket by {
                    if k < pre.outcomes.len() {
                        assert(post.outcomes[k] == pre.outcomes[k]);
                    }
                }
            }
            assert(post.tickets_distinct()) by {
                assert forall|k1: int, k2: int|
                    0 <= k1 < k2 < post.queue.len() implies (#[trigger] post.queue[k1]).ticket != (
                #[trigger] post.queue[k2]).ticket by {
                    assert(post.queue[k1] == pre.queue[k1 + 1]);
                    assert(post.queue[k2] == pre.queue[k2 + 1]);
                }
                assert forall|w1: int, p1: int, w2a: int, p2: int|
                    0 <= w1 < post.threads.len() && 0 <= p1 < post.threads[w1].chan.pending.len()
                        && 0 <= w2a < post.threads.len() && 0 <= p2
                        < post.threads[w2a].chan.pending.len() && (w1 != w2a || p1 != p2) implies (
                #[trigger] post.threads[w1].chan.pending[p1]).1 != (
                #[trigger] post.threads[w2a].chan.pending[p2]).1 by {
                    if w1 != w {
                        assert(post.threads[w1] == pre.threads[w1]);
                    } else {
                        assert(post.threads[w1].chan.pending[p1] == (id2, qt));
                    }
                    if w2a != w {
                        assert(post.threads[w2a] == pre.threads[w2a]);
                    } else {
                        assert(post.threads[w2a].chan.pending[p2] == (id2, qt));
                    }
                }
                assert forall|k: int, wa: int, p: int|
                    0 <= k < post.queue.len() && 0 <= wa < post.threads.len() && 0 <= p
                        < post.threads[wa].chan.pending.len() implies (
                #[trigger] post.queue[k]).ticket != (#[trigger] post.threads[wa].chan.pending[p]).1
                    by {
                    assert(post.queue[k] == pre.queue[k + 1]);
                    if wa != w {
                        assert(post.threads[wa] == pre.threads[wa]);
                    } else {
                        assert(post.threads[wa].chan.pending[p] == (id2, qt));
                    }
                }
                assert forall|k1: int, k2: int|
                    0 <= k1 < k2 < post.outcomes.len() implies (
                #[trigger] post.outcomes[k1]).ticket != (#[trigger] post.outcomes[k2]).ticket by {
                    assert(post.outcomes[k1] == pre.outcomes[k1]);
                    if k2 < pre.outcomes.len() {
                        assert(post.outcomes[k2] == pre.outcomes[k2]);
                    }
                }
                assert forall|k: int, q: int|
                    0 <= k < post.outcomes.len() && 0 <= q < post.queue.len() implies (
                #[trigger] post.outcomes[k]).ticket != (#[trigger] post.queue[q]).ticket by {
                    assert(post.queue[q] == pre.queue[q + 1]);
                    if k < pre.outcomes.len() {
                        assert(post.outcomes[k] == pre.outcomes[k]);
                    }
                }
                assert forall|k: int, wa: int, p: int|
                    0 <= k < post.outcomes.len() && 0 <= wa < post.threads.len() && 0 <= p
                        < post.threads[wa].chan.pending.len() implies (
                #[trigger] post.outcomes[k]).ticket != (
                #[trigger] post.threads[wa].chan.pending[p]).1 by {
                    if wa != w {
                        assert(post.threads[wa] == pre.threads[wa]);
                    } else {
                        assert(post.threads[wa].chan.pending[p] == (id2, qt));
                    }
                    if k < pre.outcomes.len() {
                        assert(post.outcomes[k] == pre.outcomes[k]);
                    } else {
                        assert(post.outcomes[k].ticket == ticket);
                    }
                }
            }
        },
        None => {
            assert forall|w2a: int|
                0 <= w2a < post.threads.len() implies (#[trigger] post.threads[w2a]).wf()
                && post.threads[w2a].initialized by {
                if w2a != w {
                    assert(post.threads[w2a] == pre.threads[w2a]);
                }
            }
            assert(post.busy_matches_load()) by {
                assert forall|wa: int|
                    0 <= wa < post.threads.len() implies {
                    let t = #[trigger] post.threads[wa];
                    &&& t.chan.pending.len() <= 1
                    &&& (!t.busy ==> t.chan.pending.len() == 0)
                    &&& (t.busy && !t.chan.terminated ==> t.chan.pending.len() == 1)
                } by {
                    if wa != w {
                        assert(post.threads[wa] == pre.threads[wa]);
                    }
                }
            }
            assert(post.channels_open()) by {
                assert forall|wa: int|
                    0 <= wa < post.threads.len() implies !(
                #[trigger] post.threads[wa]).chan.terminated by {
                    if wa != w {
                        assert(post.threads[wa] == pre.threads[wa]);
                    }
                }
            }
            assert(post.tickets_bounded()) by {
                assert forall|wa: int, p: int|
                    0 <= wa < post.threads.len() && 0 <= p
                        < post.threads[wa].chan.pending.len() implies (
                #[trigger] post.threads[wa].chan.pending[p]).1 < post.next_ticket by {
                    assert(wa != w);
                    assert(post.threads[wa] == pre.threads[wa]);
                }
                assert forall|k: int|
                    0 <= k < post.outcomes.len() implies (#[trigger] post.outcomes[k]).ticket
                    < post.next_ticket by {
                    if k < pre.outcomes.len() {
                        assert(post.outcomes[k] == pre.outcomes[k]);
                    }
                }
            }
            assert(post.tickets_distinct()) by {
                assert forall|w1: int, p1: int, w2a: int, p2: int|
                    0 <= w1 < post.threads.len() && 0 <= p1 < post.threads[w1].chan.pending.len()
                        && 0 <= w2a < post.threads.len() && 0 <= p2
                        < post.threads[w2a].chan.pending.len() && (w1 != w2a || p1 != p2) implies (
                #[trigger] post.threads[w1].chan.pending[p1]).1 != (
                #[trigger] post.threads[w2a].chan.pending[p2]).1 by {
                    assert(w1 != w && w2a != w);
                    assert(post.threads[w1] == pre.threads[w1]);
                    assert(post.threads[w2a] == pre.threads[w2a]);
                }
                assert forall|k1: int, k2: int|
                    0 <= k1 < k2 < post.outcomes.len() implies (
                #[trigger] post.outcomes[k1]).ticket != (#[trigger] post.outcomes[k2]).ticket by {
                    assert(post.outcomes[k1] == pre.outcomes[k1]);
                    if k2 < pre.outcomes.len() {
                        assert(post.outcomes[k2] == pre.outcomes[k2]);
                    }
                }
                assert forall|k: int, wa: int, p: int|
                    0 <= k < post.outcomes.len() && 0 <= wa < post.threads.len() && 0 <= p
                        < post.threads[wa].chan.pending.len() implies (
                #[trigger] post.outcomes[k]).ticket != (
                #[trigger] post.threads[wa].chan.pending[p]).1 by {
                    assert(wa != w);
                    assert(post.threads[wa] == pre.threads[wa]);
                    if k < pre.outcomes.len() {
                        assert(post.outcomes[k] == pre.outcomes[k]);
                    } else {
                        assert(post.outcomes[k].ticket == ticket);
                    }
                }
            }
        },
    }
}

/// The abstract content of an `Option<Completion>`: settled ticket,
/// outcome, and the follow-up dispatch.
pub open spec fn completion_view(r: Option<Completion>) -> Option<
    (u64, OutcomeView, Option<(int, u128, JobView)>),
> {
    match r {
        Some(c) => Some((c.ticket, c.outcome@, dispatch_view(c.next))),
        None => None,
    }
}

/// How a worker's channel failure transforms the pool. The in-flight
/// request on worker `w`, if any, is rejected: its submission settles
/// with a transport error and the worker is handed on or freed exactly as
/// on an ordinary completion. A failure on a worker with nothing in
/// flight changes nothing.
pub open spec fn worker_error_transition(
    pre: PoolView,
    w: int,
    post: PoolView,
    r: Option<(u64, OutcomeView, Option<(int, u128, JobView)>)>,
) -> bool {
    &&& 0 <= w < pre.threads.len()
    &&& match r {
        None => {
            &&& pre.threads[w].chan.pending.len() == 0
            &&& post == pre
        },
        Some((ticket, outcome, next)) => {
            &&& outcome == OutcomeView::TransportError
            &&& settle_transition(pre, w, post, ticket, outcome, next)
        },
    }
}

/// The tickets in flight across the workers, in worker order.
pub open spec fn running_tickets(ts: Seq<ThreadView>) -> Seq<u64>
    decreases ts.len(),
{
    if ts.len() == 0 {
        Seq::empty()
    } else {
        running_tickets(ts.drop_last()) + match ts.last().running_ticket() {
            Some(t) => seq![t],
            None => Seq::<u64>::empty(),
        }
    }
}

/// Every in-flight ticket appears in `running_tickets`, every entry of
/// `running_tickets` is some worker's in-flight ticket, and — when no two
/// workers share a ticket — the entries are pairwise distinct.
pub proof fn lemma_running_tickets_props(ts: Seq<ThreadView>)
    requires
        forall|w1: int, p1: int, w2: int, p2: int|
            0 <= w1 < ts.len() && 0 <= p1 < ts[w1].chan.pending.len() && 0 <= w2 < ts.len() && 0
                <= p2 < ts[w2].chan.pending.len() && (w1 != w2 || p1 != p2) ==> (
            #[trigger] ts[w1].chan.pending[p1]).1 != (#[trigger] ts[w2].chan.pending[p2]).1,
    ensures
        forall|n: int|
            0 <= n < running_tickets(ts).len() ==> exists|w: int|
                0 <= w < ts.len() && 0 < ts[w].chan.pending.len() && (#[trigger] running_tickets(
                    ts,
                )[n]) == ts[w].chan.pending[0].1,
        forall|w: int|
            0 <= w < ts.len() && 0 < (#[trigger] ts[w]).chan.pending.len() ==> running_tickets(
                ts,
            ).contains(ts[w].chan.pending[0].1),
        forall|n1: int, n2: int|
            0 <= n1 < n2 < running_tickets(ts).len() ==> (#[trigger] running_tickets(ts)[n1]) != (
            #[trigger] running_tickets(ts)[n2]),
    decreases ts.len(),
{
    if ts.len() == 0 {
    } else {
        let dl = ts.drop_last();
        let last = ts.last();
        assert forall|w1: int, p1: int, w2: int, p2: int|
            0 <= w1 < dl.len() && 0 <= p1 < dl[w1].chan.pending.len() && 0 <= w2 < dl.len() && 0
                <= p2 < dl[w2].chan.pending.len() && (w1 != w2 || p1 != p2) implies (
        #[trigger] dl[w1].chan.pending[p1]).1 != (#[trigger] dl[w2].chan.pending[p2]).1 by {
            assert(dl[w1] == ts[w1]);
            assert(dl[w2] == ts[w2]);
        }
        lemma_running_tickets_props(dl);
        let rt = running_tickets(ts);
        let rtd = running_tickets(dl);
        assert forall|n: int|
            0 <= n < rt.len() implies exists|w: int|
                0 <= w < ts.len() && 0 < ts[w].chan.pending.len() && (#[trigger] rt[n])
                    == ts[w].chan.pending[0].1 by {
            if n < rtd.len() {
                let w = choose|w: int|
                    0 <= w < dl.len() && 0 < dl[w].chan.pending.len() && rtd[n]
                        == dl[w].chan.pending[0].1;
                assert(dl[w] == ts[w]);
                assert(rt[n] == rtd[n]);
                assert(0 <= w < ts.len() && 0 < ts[w].chan.pending.len() && rt[n]
                    == ts[w].chan.pending[0].1);
            } else {
                assert(last.running_ticket() is Some);
                assert(rt[n] == ts[ts.len() - 1].chan.pending[0].1);
                assert(0 <= ts.len() - 1 < ts.len() && 0 < ts[ts.len() - 1].chan.pending.len()
                    && rt[n] == ts[ts.len() - 1].chan.pending[0].1);
            }
        }
        assert forall|w: int|
            0 <= w < ts.len() && 0 < (#[trigger] ts[w]).chan.pending.len() implies rt.contains(
            ts[w].chan.pending[0].1) by {
            if w < ts.len() - 1 {
                assert(dl[w] == ts[w]);
                assert(rtd.contains(ts[w].chan.pending[0].1));
                let n = choose|n: int| 0 <= n < rtd.len() && rtd[n] == ts[w].chan.pending[0].1;
                assert(rt[n] == ts[w].chan.pending[0].1);
            } else {
                assert(last.running_ticket() == Some(ts[w].chan.pending[0].1));
                assert(rt[rt.len() - 1] == ts[w].chan.pending[0].1);
            }
        }
        assert forall|n1: int, n2: int|
            0 <= n1 < n2 < rt.len() implies (#[trigger] rt[n1]) != (#[trigger] rt[n2]) by {
            if n2 < rtd.len() {
                assert(rt[n1] == rtd[n1] && rt[n2] == rtd[n2]);
            } else {
                assert(last.running_ticket() is Some);
                assert(n2 == rt.len() - 1);
                assert(rt[n2] == ts[ts.len() - 1].chan.pending[0].1);
                assert(rt[n1] == rtd[n1]);
                let w = choose|w: int|
                    0 <= w < dl.len() && 0 < dl[w].chan.pending.len() && rtd[n1]
                        == dl[w].chan.pending[0].1;
                assert(dl[w] == ts[w]);
                assert(ts[w].chan.pending[0].1 != ts[ts.len() - 1].chan.pending[0].1);
            }
        }
    }
}

/// The ledger records that the teardown sweep made for the queued
/// waiters: each is canceled with its position as sequence number.
pub open spec fn canceled_outcomes(q: Seq<WaiterView>) -> Seq<SettledView> {
    Seq::new(
        q.len(),
        |k: int| SettledView { ticket: q[k].ticket, outcome: OutcomeView::Canceled(k as u64) },
    )
}

/// The ledger records that the teardown sweep made for the in-flight
/// requests: each is rejected with a transport error.
pub open spec fn aborted_outcomes(ts: Seq<u64>) -> Seq<SettledView> {
    ts.map_values(|t: u64| SettledView { ticket: t, outcome: OutcomeView::TransportError })
}

/// How teardown transforms the pool. The first call cancels every queued
/// waiter — before any worker is terminated, so a freed worker is never
/// matched to a waiter about to be rejected — then terminates every
/// worker, rejecting whatever was in flight. Later calls change nothing.
pub open spec fn terminate_transition(
    pre: PoolView,
    post: PoolView,
    canceled: Seq<(u64, u64)>,
    aborted: Seq<u64>,
) -> bool {
    if pre.terminated {
        &&& post == pre
        &&& canceled.len() == 0
        &&& aborted.len() == 0
    } else {
        &&& canceled.len() == pre.queue.len()
        &&& forall|k: int|
            0 <= k < canceled.len() ==> canceled[k] == (pre.queue[k].ticket, k as u64)
        &&& aborted == running_tickets(pre.threads)
        &&& post.queue.len() == 0
        &&& post.threads.len() == pre.threads.len()
        &&& forall|w: int|
            0 <= w < post.threads.len() ==> post.threads[w] == (ThreadView {
                chan: TransportView { pending: Seq::empty(), terminated: true },
                ..pre.threads[w]
            })
        &&& post.outcomes == pre.outcomes + canceled_outcomes(pre.queue) + aborted_outcomes(
            running_tickets(pre.threads),
        )
        &&& post.terminated
        &&& post.initialized == pre.initialized
        &&& post.next_ticket == pre.next_ticket
        &&& post.size == pre.size
    }
}

/// Teardown transforms a well-formed pool into a well-formed pool.
pub proof fn lemma_terminate_preserves_wf(
    pre: PoolView,
    post: PoolView,
    canceled: Seq<(u64, u64)>,
    aborted: Seq<u64>,
)
    requires
        pre.wf(),
        terminate_transition(pre, post, canceled, aborted),
    ensures
        post.wf(),
{
    if pre.terminated {
    } else {
        lemma_running_tickets_props(pre.threads);
        let rt = running_tickets(pre.threads);
        let co = canceled_outcomes(pre.queue);
        let ao = aborted_outcomes(rt);
        assert forall|w2a: int|
            0 <= w2a < post.threads.len() implies (#[trigger] post.threads[w2a]).wf()
            && post.threads[w2a].initialized && post.threads[w2a].chan.terminated
            && post.threads[w2a].chan.pending.len() <= 1 by {}
        assert(post.busy_matches_load());
        assert(post.channels_closed());
        assert(post.outcomes.len() == pre.outcomes.len() + co.len() + ao.len());
        assert forall|k: int|
            0 <= k < post.outcomes.len() implies (#[trigger] post.outcomes[k]).ticket
            < post.next_ticket by {
            if k < pre.outcomes.len() {
                assert(post.outcomes[k] == pre.outcomes[k]);
            } else if k < pre.outcomes.len() + co.len() {
                let q = k - pre.outcomes.len();
                assert(post.outcomes[k] == co[q]);
                assert(co[q].ticket == pre.queue[q].ticket);
            } else {
                let n = k - pre.outcomes.len() - co.len();
                assert(post.outcomes[k] == ao[n]);
                assert(ao[n].ticket == rt[n]);
                let w = choose|w: int|
                    0 <= w < pre.threads.len() && 0 < pre.threads[w].chan.pending.len() && rt[n]
                        == pre.threads[w].chan.pending[0].1;
                assert(pre.threads[w].chan.pending[0].1 < pre.next_ticket);
            }
        }
        assert(post.tickets_bounded());
        assert forall|k1: int, k2: int|
            0 <= k1 < k2 < post.outcomes.len() implies (#[trigger] post.outcomes[k1]).ticket != (
        #[trigger] post.outcomes[k2]).ticket by {
            let ob = pre.outcomes.len() as int;
            let cb = ob + co.len() as int;
            if k1 < ob {
                assert(post.outcomes[k1] == pre.outcomes[k1]);
            } else if k1 < cb {
                assert(post.outcomes[k1] == co[k1 - ob]);
            } else {
                assert(post.outcomes[k1] == ao[k1 - cb]);
            }
            if k2 < ob {
                assert(post.outcomes[k2] == pre.outcomes[k2]);
            } else if k2 < cb {
                assert(post.outcomes[k2] == co[k2 - ob]);
            } else {
                assert(post.outcomes[k2] == ao[k2 - cb]);
            }
            if k2 < ob {
            } else if k2 < cb {
                let q2 = k2 - ob;
                assert(co[q2].ticket == pre.queue[q2].ticket);
                if k1 < ob {
                    assert(pre.outcomes[k1].ticket != pre.queue[q2].ticket);
                } else {
                    let q1 = k1 - ob;
                    assert(co[q1].ticket == pre.queue[q1].ticket);
                    assert(pre.queue[q1].ticket != pre.queue[q2].ticket);
                }
            } else {
                let n2 = k2 - cb;
                assert(ao[n2].ticket == rt[n2]);
                let w2 = choose|w: int|
                    0 <= w < pre.threads.len() && 0 < pre.threads[w].chan.pending.len() && rt[n2]
                        == pre.threads[w].chan.pending[0].1;
                if k1 < ob {
                    assert(pre.outcomes[k1].ticket != pre.threads[w2].chan.pending[0].1);
                } else if k1 < cb {
                    let q1 = k1 - ob;
                    assert(co[q1].ticket == pre.queue[q1].ticket);
                    assert(pre.queue[q1].ticket != pre.threads[w2].chan.pending[0].1);
                } else {
                    let n1 = k1 - cb;
                    assert(ao[n1].ticket == rt[n1]);
                    assert(rt[n1] != rt[n2]);
                }
            }
        }
        assert(post.tickets_distinct());
        assert(post.wf());
    }
}

/// The view of worker `w` as `init` creates it: handshaken, idle,
/// channel open and empty, named by the decimal string of its index.
pub open spec fn fresh_worker(w: int) -> ThreadView {
    ThreadView {
        chan: TransportView { pending: Seq::empty(), terminated: false },
        id: Some(crate::utils::decimal_digits(w as nat)),
        busy: false,
        initialized: true,
    }
}

impl ThreadPool {
    /// A pool of `size` workers. A zero-sized pool is a usage error and
    /// is ruled out at the call site. The workers themselves are created
    /// by [`ThreadPool::init`], which must run before any submission.
    pub fn new(size: usize) -> (r: ThreadPool)
        requires
            size >= 1,
        ensures
            r@.wf(),
            r@ == (PoolView {
                size: size as nat,
                threads: Seq::<ThreadView>::empty(),
                queue: Seq::<WaiterView>::empty(),
                initialized: false,
                terminated: false,
                next_ticket: 0,
                outcomes: Seq::<SettledView>::empty(),
            }),
    {
        let r = ThreadPool {
            size,
            threads: Vec::new(),
            resolver: Resolver::new(),
            is_initialized: false,
            is_terminated: false,
            next_ticket: 0,
            outcomes: Vec::new(),
        };
        proof {
            assert(r@.threads =~= Seq::<ThreadView>::empty());
            assert(r@.queue =~= Seq::<WaiterView>::empty());
            assert(r@.outcomes =~= Seq::<SettledView>::empty());
        }
        r
    }

    /// Performs the one-time construction of all workers. Calling it
    /// twice is a programming error and is ruled out at the call site.
    pub fn init(&mut self)
        requires
            old(self)@.wf(),
            !old(self)@.initialized,
            !old(self)@.terminated,
        ensures
            final(self)@.wf(),
            final(self)@.initialized,
            final(self)@.size == old(self)@.size,
            final(self)@.queue == old(self)@.queue,
            final(self)@.terminated == old(self)@.terminated,
            final(self)@.next_ticket == old(self)@.next_ticket,
            final(self)@.outcomes == old(self)@.outcomes,
            final(self)@.threads.len() == old(self)@.size,
            forall|w: int|
                0 <= w < final(self)@.threads.len() ==> final(self)@.threads[w] == fresh_worker(w),
    {
        let n = self.size;
        let mut i: usize = 0;
        while i < n
            invariant
                i <= n,
                self.threads@.len() == i,
                self@.size == old(self)@.size,
                self@.queue == old(self)@.queue,
                self@.initialized == old(self)@.initialized,
                self@.terminated == old(self)@.terminated,
                self@.next_ticket == old(self)@.next_ticket,
                self@.outcomes == old(self)@.outcomes,
                forall|w: int| 0 <= w < i ==> tviews(self.threads@)[w] == fresh_worker(w),
            decreases n - i,
        {
            let mut t = Thread::new();
            t.init();
            t.set_id(crate::utils::decimal_string(i));
            proof {
                assert(t@.chan.pending =~= Seq::<(u128, u64)>::empty());
                assert(t@ == fresh_worker(i as int));
            }
            let ghost pre = self.threads@;
            self.threads.push(t);
            proof {
                assert forall|w: int|
                    0 <= w < i + 1 implies tviews(self.threads@)[w] == fresh_worker(w) by {
                    if w < i {
                        assert(tviews(pre)[w] == fresh_worker(w));
                        assert(self.threads@[w] == pre[w]);
                        assert(tviews(self.threads@)[w] == self.threads@[w]@);
                    } else {
                        assert(self.threads@[w] == t);
                        assert(tviews(self.threads@)[w] == t@);
                    }
                }
            }
            i = i + 1;
        }
        self.is_initialized = true;
        proof {
            assert forall|w: int|
                0 <= w < self@.threads.len() implies {
                let t = #[trigger] self@.threads[w];
                &&& t == fresh_worker(w)
                &&& t.wf()
                &&& t.initialized
                &&& !t.busy
                &&& !t.chan.terminated
                &&& t.chan.pending.len() == 0
            } by {
                assert(tviews(self.threads@)[w] == fresh_worker(w));
            }
        }
    }

    /// Initializes the pool and hands it back, for call chaining.
    pub fn and_init(self) -> (r: ThreadPool)
        requires
            self@.wf(),
            !self@.initialized,
            !self@.terminated,
        ensures
            r@.wf(),
            r@.initialized,
            r@.size == self@.size,
            r@.queue == self@.queue,
            r@.terminated == self@.terminated,
            r@.next_ticket == self@.next_ticket,
            r@.outcomes == self@.outcomes,
            r@.threads.len() == self@.size,
            forall|w: int| 0 <= w < r@.threads.len() ==> r@.threads[w] == fresh_worker(w),
    {
        let mut p = self;
        p.init();
        p
    }

    /// The number of submissions waiting for a free worker — not the
    /// number of in-flight executions.
    pub fn count_pending_jobs(&self) -> (r: usize)
        ensures
            r == self@.queue.len(),
    {
        self.resolver.count_pending_jobs()
    }

    /// The number of workers the pool was built for.
    pub fn size(&self) -> (r: usize)
        ensures
            r as nat == self@.size,
    {
        self.size
    }

    /// Whether `init` has run.
    pub fn initialized(&self) -> (r: bool)
        ensures
            r == self@.initialized,
    {
        self.is_initialized
    }

    /// Whether the pool has been torn down.
    pub fn terminated(&self) -> (r: bool)
        ensures
            r == self@.terminated,
    {
        self.is_terminated
    }

    /// Admits one job: hands back the ticket that will identify its
    /// outcome and, when a worker was idle, the request message the host
    /// must now post to that worker. When every worker is busy the job
    /// joins the FIFO queue and is dispatched later by
    /// [`ThreadPool::on_message`]. The pool must be initialized and not
    /// torn down; the ticket space must not be exhausted.
    pub fn submit(&mut self, job: Job) -> (r: Submission)
        requires
            old(self)@.wf(),
            old(self)@.initialized,
            !old(self)@.terminated,
            old(self)@.next_ticket < u64::MAX,
        ensures
            final(self)@.wf(),
            submit_transition(
                old(self)@,
                job@,
                final(self)@,
                r.ticket,
                dispatch_view(r.dispatch),
            ),
    {
        let ticket = self.next_ticket;
        self.next_ticket = self.next_ticket + 1;
        let ghost jv = job@;
        match self.resolver.resolve_runnable(&mut self.threads, ticket, job) {
            Resolution::Assigned(i, job2) => {
                proof {
                    assert(is_first_idle(tviews(old(self).threads@), i as int));
                    assert(!old(self)@.threads[i as int].busy);
                    assert(old(self)@.threads[i as int].chan.pending.len() == 0);
                    assert(!old(self)@.threads[i as int].chan.terminated);
                    assert(tviews(self.threads@)[i as int] == ThreadView {
                        busy: true,
                        ..old(self)@.threads[i as int]
                    });
                }
                let ghost ts1 = self.threads@;
                let ghost tv1 = tviews(self.threads@);
                proof {
                    assert(tv1.len() == tviews(old(self).threads@).len());
                    assert(tv1.len() == ts1.len());
                    assert(i < ts1.len());
                }
                let t = &mut self.threads[i];
                proof {
                    assert(*t == ts1[i as int]);
                    assert(tv1[i as int] == ts1[i as int]@);
                    assert(t@ == tv1[i as int]);
                }
                let res = t.submit_job(job2, ticket);
                match res {
                    Ok(msg) => {
                        proof {
                            let target = ThreadView {
                                busy: true,
                                chan: TransportView {
                                    pending: old(self)@.threads[i as int].chan.pending.push(
                                        (msg.id, ticket),
                                    ),
                                    terminated: false,
                                },
                                ..old(self)@.threads[i as int]
                            };
                            assert forall|w: int|
                                0 <= w < tviews(self.threads@).len() implies tviews(
                                self.threads@,
                            )[w] == old(self)@.threads.update(i as int, target)[w] by {
                                assert(tviews(self.threads@)[w] == self.threads@[w]@);
                                if w != i {
                                    assert(self.threads@[w]@ == tv1[w]);
                                    assert(tv1[w] == old(self)@.threads[w]);
                                }
                            }
                            assert(tviews(self.threads@) =~= old(self)@.threads.update(
                                i as int,
                                target,
                            ));
                            assert(submit_transition(
                                old(self)@,
                                jv,
                                self@,
                                ticket,
                                Some((i as int, msg.id, msg.task@)),
                            ));
                            lemma_submit_preserves_wf(
                                old(self)@,
                                jv,
                                self@,
                                ticket,
                                Some((i as int, msg.id, msg.task@)),
                            );
                        }
                        Submission { ticket, dispatch: Some(Dispatch { worker: i, msg }) }
                    },
                    Err(_) => {
                        proof {
                            assert(false);
                        }
                        vstd::pervasive::unreached()
                    },
                }
            },
            Resolution::Queued => {
                proof {
                    assert(submit_transition(old(self)@, jv, self@, ticket, None));
                    lemma_submit_preserves_wf(old(self)@, jv, self@, ticket, None);
                }
                Submission { ticket, dispatch: None }
            },
        }
    }

    /// Submits a serialized synchronous closure.
    pub fn execute(&mut self, payload: Vec<u8>) -> (r: Submission)
        requires
            old(self)@.wf(),
            old(self)@.initialized,
            !old(self)@.terminated,
            old(self)@.next_ticket < u64::MAX,
        ensures
            final(self)@.wf(),
            submit_transition(
                old(self)@,
                JobView::Clos(payload@),
                final(self)@,
                r.ticket,
                dispatch_view(r.dispatch),
            ),
    {
        self.submit(Job::Clos(payload))
    }

    /// Submits a serialized asynchronous closure.
    pub fn execute_async(&mut self, payload: Vec<u8>) -> (r: Submission)
        requires
            old(self)@.wf(),
            old(self)@.initialized,
            !old(self)@.terminated,
            old(self)@.next_ticket < u64::MAX,
        ensures
            final(self)@.wf(),
            submit_transition(
                old(self)@,
                JobView::AClos(payload@),
                final(self)@,
                r.ticket,
                dispatch_view(r.dispatch),
            ),
    {
        self.submit(Job::AClos(payload))
    }

    /// Submits synchronous source text.
    pub fn execute_js(&mut self, source: String) -> (r: Submission)
        requires
            old(self)@.wf(),
            old(self)@.initialized,
            !old(self)@.terminated,
            old(self)@.next_ticket < u64::MAX,
        ensures
            final(self)@.wf(),
            submit_transition(
                old(self)@,
                JobView::Js(source@),
                final(self)@,
                r.ticket,
                dispatch_view(r.dispatch),
            ),
    {
        self.submit(Job::Js(source))
    }

    /// Submits asynchronous source text.
    pub fn execute_js_async(&mut self, source: String) -> (r: Submission)
        requires
            old(self)@.wf(),
            old(self)@.initialized,
            !old(self)@.terminated,
            old(self)@.next_ticket < u64::MAX,
        ensures
            final(self)@.wf(),
            submit_transition(
                old(self)@,
                JobView::JsAsync(source@),
                final(self)@,
                r.ticket,
                dispatch_view(r.dispatch),
            ),
    {
        self.submit(Job::JsAsync(source))
    }

    /// After worker `worker` has been freed of its request, either hands
    /// it straight to the head waiter — the worker stays busy and the
    /// waiter's job is dispatched on it — or marks it idle. That the
    /// granted worker is still busy at this point is a scheduling
    /// invariant; it is proved here (the precondition of
    /// `notify_job_complete`) rather than re-checked and failed at run
    /// time.
    fn grant_next(&mut self, worker: usize) -> (r: Option<Dispatch>)
        requires
            worker < old(self)@.threads.len(),
            old(self)@.threads[worker as int].wf(),
            old(self)@.threads[worker as int].busy,
            old(self)@.threads[worker as int].chan.pending.len() == 0,
            !old(self)@.threads[worker as int].chan.terminated,
        ensures
            final(self)@.size == old(self)@.size,
            final(self)@.initialized == old(self)@.initialized,
            final(self)@.terminated == old(self)@.terminated,
            final(self)@.next_ticket == old(self)@.next_ticket,
            final(self)@.outcomes == old(self)@.outcomes,
            match r {
                Some(d) => {
                    &&& d.worker == worker
                    &&& old(self)@.queue.len() > 0
                    &&& d.msg.task@ == old(self)@.queue[0].job
                    &&& final(self)@.queue == old(self)@.queue.drop_first()
                    &&& final(self)@.threads == old(self)@.threads.update(
                        worker as int,
                        ThreadView {
                            chan: TransportView {
                                pending: seq![(d.msg.id, old(self)@.queue[0].ticket)],
                                terminated: false,
                            },
                            ..old(self)@.threads[worker as int]
                        },
                    )
                },
                None => {
                    &&& old(self)@.queue.len() == 0
                    &&& final(self)@.queue == old(self)@.queue
                    &&& final(self)@.threads == old(self)@.threads.update(
                        worker as int,
                        ThreadView {
                            busy: false,
                            chan: TransportView { pending: Seq::empty(), terminated: false },
                            ..old(self)@.threads[worker as int]
                        },
                    )
                },
            },
    {
        match self.resolver.notify_job_complete(&mut self.threads, worker) {
            Some(wtr) => {
                let Waiter { ticket: wt, job } = wtr;
                let ghost ts1 = self.threads@;
                proof {
                    assert(tviews(ts1) == tviews(old(self).threads@));
                    assert(tviews(ts1)[worker as int] == old(self)@.threads[worker as int]);
                }
                let t = &mut self.threads[worker];
                proof {
                    assert(*t == ts1[worker as int]);
                    assert(t@ == tviews(ts1)[worker as int]);
                }
                let res = t.submit_job(job, wt);
                match res {
                    Ok(m) => {
                        proof {
                            let target = ThreadView {
                                chan: TransportView {
                                    pending: seq![(m.id, old(self)@.queue[0].ticket)],
                                    terminated: false,
                                },
                                ..old(self)@.threads[worker as int]
                            };
                            assert(t@.chan.pending =~= seq![(m.id, wt)]);
                            assert(t@ =~= target);
                            assert forall|w: int|
                                0 <= w < tviews(self.threads@).len() implies tviews(
                                self.threads@,
                            )[w] == old(self)@.threads.update(worker as int, target)[w] by {
                                assert(tviews(self.threads@)[w] == self.threads@[w]@);
                                if w != worker {
                                    assert(self.threads@[w] == ts1[w]);
                                }
                            }
                            assert(tviews(self.threads@) =~= old(self)@.threads.update(
                                worker as int,
                                target,
                            ));
                        }
                        Some(Dispatch { worker, msg: m })
                    },
                    Err(_) => {
                        proof {
                            assert(false);
                        }
                        vstd::pervasive::unreached()
                    },
                }
            },
            None => {
                proof {
                    let target = ThreadView {
                        busy: false,
                        chan: TransportView { pending: Seq::empty(), terminated: false },
                        ..old(self)@.threads[worker as int]
                    };
                    assert(tviews(self.threads@)[worker as int].chan.pending
                        =~= Seq::<(u128, u64)>::empty());
                    assert(tviews(self.threads@)[worker as int] =~= target);
                    assert forall|w: int|
                        0 <= w < tviews(self.threads@).len() implies tviews(self.threads@)[w]
                        == old(self)@.threads.update(worker as int, target)[w] by {}
                    assert(tviews(self.threads@) =~= old(self)@.threads.update(
                        worker as int,
                        target,
                    ));
                }
                None
            },
        }
    }

    /// Feeds one worker reply into the pool. The reply settles the
    /// submission whose request carries the reply's correlation id: the
    /// outcome is recorded in the ledger and returned, and the freed
    /// worker either starts the head waiter's job — the returned dispatch
    /// the host must now post — or goes idle. A reply with an unknown
    /// correlation id is a protocol violation: the pool is untouched and
    /// the fault is returned for the host to fail fast on.
    pub fn on_message(&mut self, worker: usize, msg: ResultMsg) -> (r: Result<Completion, Fault>)
        requires
            old(self)@.wf(),
            worker < old(self)@.threads.len(),
        ensures
            final(self)@.wf(),
            match r {
                Ok(c) => complete_transition(
                    old(self)@,
                    worker as int,
                    msg.id,
                    msg.is_ok,
                    msg.data@,
                    final(self)@,
                    c.ticket,
                    c.outcome@,
                    dispatch_view(c.next),
                ),
                Err(f) => {
                    &&& f == Fault::UnknownRequest
                    &&& final(self)@ == old(self)@
                    &&& !old(self)@.threads[worker as int].chan.contains_id(msg.id)
                },
            },
    {
        let ghost pre = old(self)@;
        let (id, data, is_ok) = atw_decode_result_msg(msg);
        let ghost ts0 = self.threads@;
        let t = &mut self.threads[worker];
        proof {
            assert(*t == ts0[worker as int]);
            assert(t@ == tviews(ts0)[worker as int]);
            assert(t@.wf());
        }
        let res = t.on_result(id);
        let ticket = match res {
            Ok(tk) => tk,
            Err(f) => {
                proof {
                    assert forall|w: int|
                        0 <= w < tviews(self.threads@).len() implies tviews(self.threads@)[w]
                        == tviews(ts0)[w] by {
                        assert(tviews(self.threads@)[w] == self.threads@[w]@);
                        if w != worker {
                            assert(self.threads@[w] == ts0[w]);
                        }
                    }
                    assert(tviews(self.threads@) =~= tviews(ts0));
                    assert(self@ =~= pre);
                }
                return Err(f);
            },
        };
        proof {
            assert(pre.threads[worker as int].chan.pending =~= seq![(id, ticket)]);
            assert(t@.chan.pending =~= Seq::<(u128, u64)>::empty());
            assert(pre.threads[worker as int].busy);
            assert(!pre.threads[worker as int].chan.terminated);
        }
        let data2 = clone_bytes(&data);
        let outcome_ret = if is_ok {
            Outcome::Success(data)
        } else {
            Outcome::JobError(data)
        };
        let outcome_led = if is_ok {
            Outcome::Success(data2)
        } else {
            Outcome::JobError(data2)
        };
        self.outcomes.push(Settled { ticket, outcome: outcome_led });
        let ghost mid = self@;
        proof {
            assert(mid.outcomes =~= pre.outcomes.push(SettledView { ticket, outcome: outcome_ret@ }));
            assert forall|w: int|
                0 <= w < mid.threads.len() implies mid.threads[w] == if w == worker as int {
                ThreadView {
                    chan: TransportView { pending: Seq::empty(), terminated: false },
                    ..pre.threads[worker as int]
                }
            } else {
                pre.threads[w]
            } by {
                assert(mid.threads[w] == self.threads@[w]@);
                if w != worker {
                    assert(self.threads@[w] == ts0[w]);
                } else {
                    assert(self.threads@[w]@.chan.pending =~= Seq::<(u128, u64)>::empty());
                    assert(self.threads@[w]@ =~= ThreadView {
                        chan: TransportView { pending: Seq::empty(), terminated: false },
                        ..pre.threads[worker as int]
                    });
                }
            }
            assert(mid.queue == pre.queue);
        }
        let next = self.grant_next(worker);
        proof {
            let outcome_v = if is_ok {
                OutcomeView::Success(data@)
            } else {
                OutcomeView::JobError(data@)
            };
            assert(outcome_ret@ == outcome_v);
            match &next {
                Some(d) => {
                    assert(self@.threads =~= pre.threads.update(
                        worker as int,
                        ThreadView {
                            chan: TransportView {
                                pending: seq![(d.msg.id, pre.queue[0].ticket)],
                                terminated: false,
                            },
                            ..pre.threads[worker as int]
                        },
                    ));
                },
                None => {
                    assert(self@.threads =~= pre.threads.update(
                        worker as int,
                        ThreadView {
                            busy: false,
                            chan: TransportView { pending: Seq::empty(), terminated: false },
                            ..pre.threads[worker as int]
                        },
                    ));
                },
            }
            assert(complete_transition(
                pre,
                worker as int,
                id,
                is_ok,
                data@,
                self@,
                ticket,
                outcome_v,
                dispatch_view(next),
            ));
            lemma_settle_preserves_wf(
                pre,
                worker as int,
                self@,
                ticket,
                outcome_v,
                dispatch_view(next),
            );
        }
        Ok(Completion { ticket, outcome: outcome_ret, next })
    }

    /// Feeds one worker's channel failure into the pool — the worker's
    /// execution context crashed or became unreachable. The in-flight
    /// request on that worker, if any, is rejected: its submission
    /// settles with a transport error, and the worker is handed on or
    /// freed exactly as on an ordinary completion. This is a hard failure
    /// boundary, not a retry.
    pub fn on_worker_error(&mut self, worker: usize) -> (r: Option<Completion>)
        requires
            old(self)@.wf(),
            worker < old(self)@.threads.len(),
        ensures
            final(self)@.wf(),
            worker_error_transition(old(self)@, worker as int, final(self)@, completion_view(r)),
    {
        let ghost pre = old(self)@;
        let ghost ts0 = self.threads@;
        let t = &mut self.threads[worker];
        proof {
            assert(*t == ts0[worker as int]);
            assert(t@ == tviews(ts0)[worker as int]);
            assert(t@.wf());
        }
        let ts = t.cancel_pending_requests();
        if ts.len() == 0 {
            proof {
                assert(pre.threads[worker as int].chan.pending.len() == 0);
                assert(t@.chan.pending =~= pre.threads[worker as int].chan.pending);
                assert(t@ =~= pre.threads[worker as int]);
                assert forall|w: int|
                    0 <= w < tviews(self.threads@).len() implies tviews(self.threads@)[w]
                    == tviews(ts0)[w] by {
                    assert(tviews(self.threads@)[w] == self.threads@[w]@);
                    if w != worker {
                        assert(self.threads@[w] == ts0[w]);
                    }
                }
                assert(tviews(self.threads@) =~= tviews(ts0));
                assert(self@ =~= pre);
            }
            return None;
        }
        let ticket = ts[0];
        proof {
            assert(pre.threads[worker as int].chan.tickets().len() == pre.threads[worker
                as int].chan.pending.len());
            assert(pre.threads[worker as int].chan.pending.len() == 1);
            assert(ticket == pre.threads[worker as int].chan.pending[0].1);
            assert(pre.threads[worker as int].busy);
            assert(!pre.threads[worker as int].chan.terminated);
            assert(t@.chan.pending =~= Seq::<(u128, u64)>::empty());
        }
        self.outcomes.push(Settled { ticket, outcome: Outcome::TransportError });
        proof {
            assert(self@.outcomes =~= pre.outcomes.push(
                SettledView { ticket, outcome: OutcomeView::TransportError },
            ));
            assert forall|w: int|
                0 <= w < self@.threads.len() implies self@.threads[w] == if w == worker as int {
                ThreadView {
                    chan: TransportView { pending: Seq::empty(), terminated: false },
                    ..pre.threads[worker as int]
                }
            } else {
                pre.threads[w]
            } by {
                assert(self@.threads[w] == self.threads@[w]@);
                if w != worker {
                    assert(self.threads@[w] == ts0[w]);
                } else {
                    assert(self.threads@[w]@.chan.pending =~= Seq::<(u128, u64)>::empty());
                    assert(self.threads@[w]@ =~= ThreadView {
                        chan: TransportView { pending: Seq::empty(), terminated: false },
                        ..pre.threads[worker as int]
                    });
                }
            }
            assert(self@.queue == pre.queue);
        }
        let next = self.grant_next(worker);
        proof {
            match &next {
                Some(d) => {
                    assert(self@.threads =~= pre.threads.update(
                        worker as int,
                        ThreadView {
                            chan: TransportView {
                                pending: seq![(d.msg.id, pre.queue[0].ticket)],
                                terminated: false,
                            },
                            ..pre.threads[worker as int]
                        },
                    ));
                },
                None => {
                    assert(self@.threads =~= pre.threads.update(
                        worker as int,
                        ThreadView {
                            busy: false,
                            chan: TransportView { pending: Seq::empty(), terminated: false },
                            ..pre.threads[worker as int]
                        },
                    ));
                },
            }
            assert(settle_transition(
                pre,
                worker as int,
                self@,
                ticket,
                OutcomeView::TransportError,
                dispatch_view(next),
            ));
            lemma_settle_preserves_wf(
                pre,
                worker as int,
                self@,
                ticket,
                OutcomeView::TransportError,
                dispatch_view(next),
            );
        }
        Some(Completion { ticket, outcome: Outcome::TransportError, next })
    }

    /// Tears the pool down: cancels every queued waiter — each settles
    /// with a cancellation outcome carrying its sequence number — then
    /// terminates every worker, rejecting whatever was still in flight
    /// with a transport error. Canceling the queue first guarantees that
    /// no freed worker is matched to a waiter that is about to be
    /// rejected. Termination is idempotent: a second call changes nothing
    /// and reports nothing.
    pub fn terminate(&mut self) -> (r: TerminateReport)
        requires
            old(self)@.wf(),
        ensures
            final(self)@.wf(),
            final(self)@.terminated,
            terminate_transition(old(self)@, final(self)@, r.canceled@, r.aborted@),
    {
        let ghost pre = old(self)@;
        if self.is_terminated {
            return TerminateReport { canceled: Vec::new(), aborted: Vec::new() };
        }
        let canceled = self.resolver.cancel_pending_jobs();
        let mut k: usize = 0;
        while k < canceled.len()
            invariant
                pre.wf(),
                !pre.terminated,
                k <= canceled.len(),
                canceled@.len() == pre.queue.len(),
                forall|j: int|
                    0 <= j < canceled@.len() ==> canceled@[j] == (pre.queue[j].ticket, j as u64),
                self@.queue.len() == 0,
                self@.threads == pre.threads,
                self@.size == pre.size,
                self@.initialized == pre.initialized,
                self@.terminated == false,
                self@.next_ticket == pre.next_ticket,
                self@.outcomes == pre.outcomes + canceled_outcomes(pre.queue).take(k as int),
            decreases canceled.len() - k,
        {
            let (t, s) = canceled[k];
            let ghost led1 = self@.outcomes;
            self.outcomes.push(Settled { ticket: t, outcome: Outcome::Canceled(s) });
            proof {
                let co = canceled_outcomes(pre.queue);
                assert((t, s) == canceled@[k as int]);
                assert(canceled@[k as int] == (pre.queue[k as int].ticket, k as u64));
                assert(co[k as int] == SettledView {
                    ticket: t,
                    outcome: OutcomeView::Canceled(s),
                });
                assert(self@.outcomes =~= led1.push(
                    SettledView { ticket: t, outcome: OutcomeView::Canceled(s) },
                ));
                assert(self@.outcomes =~= pre.outcomes + co.take(k as int + 1));
            }
            k = k + 1;
        }
        proof {
            assert(canceled_outcomes(pre.queue).take(canceled@.len() as int) =~= canceled_outcomes(
                pre.queue,
            ));
        }
        let ghost base = pre.outcomes + canceled_outcomes(pre.queue);
        let mut aborted: Vec<u64> = Vec::new();
        let n = self.threads.len();
        proof {
            assert(n == pre.threads.len());
            assert(running_tickets(pre.threads.take(0)) =~= Seq::<u64>::empty());
            assert(aborted_outcomes(Seq::<u64>::empty()) =~= Seq::<SettledView>::empty());
            assert(base + aborted_outcomes(Seq::<u64>::empty()) =~= base);
        }
        let mut w: usize = 0;
        while w < n
            invariant
                pre.wf(),
                !pre.terminated,
                w <= n,
                n == pre.threads.len(),
                self@.threads.len() == n,
                self.threads@.len() == n,
                forall|j: int|
                    0 <= j < w ==> self@.threads[j] == (ThreadView {
                        chan: TransportView { pending: Seq::empty(), terminated: true },
                        ..pre.threads[j]
                    }),
                forall|j: int| w <= j < n ==> self@.threads[j] == pre.threads[j],
                aborted@ == running_tickets(pre.threads.take(w as int)),
                self@.outcomes == base + aborted_outcomes(aborted@),
                self@.queue.len() == 0,
                self@.size == pre.size,
                self@.initialized == pre.initialized,
                self@.terminated == false,
                self@.next_ticket == pre.next_ticket,
            decreases n - w,
        {
            let ghost ts1 = self.threads@;
            let ghost ab1 = aborted@;
            proof {
                assert(tviews(ts1)[w as int] == pre.threads[w as int]);
                assert(pre.threads[w as int].wf());
                assert(!pre.threads[w as int].chan.terminated);
                assert(pre.threads[w as int].chan.pending.len() <= 1);
            }
            let t = &mut self.threads[w];
            proof {
                assert(*t == ts1[w as int]);
                assert(t@ == tviews(ts1)[w as int]);
            }
            let ts = t.terminate();
            proof {
                assert(ts@ == pre.threads[w as int].chan.tickets());
                assert(ts@.len() == pre.threads[w as int].chan.pending.len());
            }
            if ts.len() > 0 {
                let tk = ts[0];
                proof {
                    assert(tk == pre.threads[w as int].chan.pending[0].1);
                }
                let ghost led1 = self@.outcomes;
                aborted.push(tk);
                self.outcomes.push(Settled { ticket: tk, outcome: Outcome::TransportError });
                proof {
                    assert(self@.outcomes =~= led1.push(
                        SettledView { ticket: tk, outcome: OutcomeView::TransportError },
                    ));
                }
            }
            proof {
                let tw = pre.threads.take(w as int);
                let tw1 = pre.threads.take(w as int + 1);
                assert(tw1.drop_last() =~= tw);
                assert(tw1.last() == pre.threads[w as int]);
                if pre.threads[w as int].chan.pending.len() > 0 {
                    assert(pre.threads[w as int].running_ticket() == Some(
                        pre.threads[w as int].chan.pending[0].1,
                    ));
                    assert(running_tickets(tw1) == running_tickets(tw) + seq![
                        pre.threads[w as int].chan.pending[0].1,
                    ]);
                    assert(aborted@ =~= running_tickets(tw1));
                    assert(aborted_outcomes(aborted@) =~= aborted_outcomes(ab1).push(
                        SettledView {
                            ticket: pre.threads[w as int].chan.pending[0].1,
                            outcome: OutcomeView::TransportError,
                        },
                    ));
                    assert(self@.outcomes =~= base + aborted_outcomes(aborted@));
                } else {
                    assert(pre.threads[w as int].running_ticket() is None);
                    assert(running_tickets(tw1) == running_tickets(tw) + Seq::<u64>::empty());
                    assert(running_tickets(tw1) =~= running_tickets(tw));
                    assert(aborted@ == running_tickets(tw1));
                }
                assert forall|j: int|
                    0 <= j < w + 1 implies self@.threads[j] == (ThreadView {
                    chan: TransportView { pending: Seq::empty(), terminated: true },
                    ..pre.threads[j]
                }) by {
                    assert(self@.threads[j] == self.threads@[j]@);
                    if j < w {
                        assert(self.threads@[j] == ts1[j]);
                        assert(tviews(ts1)[j] == ts1[j]@);
                    } else {
                        assert(self.threads@[j]@.chan.pending =~= Seq::<(u128, u64)>::empty());
                        assert(self.threads@[j]@ =~= ThreadView {
                            chan: TransportView { pending: Seq::empty(), terminated: true },
                            ..pre.threads[j]
                        });
                    }
                }
                assert forall|j: int| w + 1 <= j < n implies self@.threads[j] == pre.threads[j] by {
                    assert(self@.threads[j] == self.threads@[j]@);
                    assert(self.threads@[j] == ts1[j]);
                    assert(tviews(ts1)[j] == ts1[j]@);
                }
            }
            w = w + 1;
        }
        self.is_terminated = true;
        proof {
            assert(pre.threads.take(n as int) =~= pre.threads);
            assert(terminate_transition(pre, self@, canceled@, aborted@));
            lemma_terminate_preserves_wf(pre, self@, canceled@, aborted@);
        }
        TerminateReport { canceled, aborted }
    }

    /// The identity of the worker at index `w`: after `init`, the
    /// decimal string of its index. `None` when the index is out of
    /// range or the worker has no identity yet.
    pub fn worker_id(&self, w: usize) -> (r: Option<&String>)
        ensures
            match r {
                Some(s) => w < self@.threads.len() && self@.threads[w as int].id == Some(s@),
                None => w >= self@.threads.len() || self@.threads[w as int].id is None,
            },
    {
        if w < self.threads.len() {
            proof {
                assert(self@.threads[w as int] == self.threads@[w as int]@);
            }
            self.threads[w].get_id()
        } else {
            None
        }
    }

    /// How many tickets have been issued so far. Each submission takes
    /// the next one; the supply is practically inexhaustible, but a
    /// caller can check it before submitting.
    pub fn tickets_issued(&self) -> (r: u64)
        ensures
            r as nat == self@.next_ticket,
    {
        self.next_ticket
    }

    /// The ledger of settled submissions, in settlement order.
    pub fn settled(&self) -> (r: &Vec<Settled>)
        ensures
            r@.map_values(|s: Settled| s@) == self@.outcomes,
    {
        &self.outcomes
    }
}

} // verus!
