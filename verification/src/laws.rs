//! The scheduler's guarantees, stated and proved against the pool's
//! transitions.
//!
//! Each proof function here is a theorem about [`crate::pool`]'s
//! transition relations: capacity and backpressure, FIFO fairness,
//! idempotent termination, exactly-once outcome delivery, and the
//! teardown sweep. They hold of every pool the verified operations can
//! produce, since each operation ensures its transition relation and
//! preserves well-formedness.

use crate::job::{JobView, OutcomeView};
use crate::pool::{
    complete_transition, submit_transition, terminate_transition, PoolView, SettledView,
};
use crate::resolver::WaiterView;
use crate::thread::ThreadView;
use vstd::prelude::*;

verus! {

/// How many workers are busy.
pub open spec fn busy_count(ts: Seq<ThreadView>) -> nat
    decreases ts.len(),
{
    if ts.len() == 0 {
        0
    } else {
        busy_count(ts.drop_last()) + if ts.last().busy {
            1nat
        } else {
            0nat
        }
    }
}

/// How many requests are in flight across all workers.
pub open spec fn in_flight_count(ts: Seq<ThreadView>) -> nat
    decreases ts.len(),
{
    if ts.len() == 0 {
        0
    } else {
        in_flight_count(ts.drop_last()) + ts.last().chan.pending.len()
    }
}

/// How many ledger entries settle ticket `t`.
pub open spec fn outcome_count(outs: Seq<SettledView>, t: u64) -> nat
    decreases outs.len(),
{
    if outs.len() == 0 {
        0
    } else {
        outcome_count(outs.drop_last(), t) + if outs.last().ticket == t {
            1nat
        } else {
            0nat
        }
    }
}

proof fn lemma_counts_le(ts: Seq<ThreadView>)
    requires
        forall|w: int|
            0 <= w < ts.len() ==> {
                let t = #[trigger] ts[w];
                &&& t.chan.pending.len() <= 1
                &&& (!t.busy ==> t.chan.pending.len() == 0)
            },
    ensures
        in_flight_count(ts) <= busy_count(ts),
        busy_count(ts) <= ts.len(),
    decreases ts.len(),
{
    if ts.len() > 0 {
        let dl = ts.drop_last();
        assert forall|w: int|
            0 <= w < dl.len() implies {
            let t = #[trigger] dl[w];
            &&& t.chan.pending.len() <= 1
            &&& (!t.busy ==> t.chan.pending.len() == 0)
        } by {
            assert(dl[w] == ts[w]);
        }
        lemma_counts_le(dl);
        assert(ts.last() == ts[ts.len() - 1]);
    }
}

proof fn lemma_counts_saturated(ts: Seq<ThreadView>)
    requires
        forall|w: int|
            0 <= w < ts.len() ==> (#[trigger] ts[w]).busy && ts[w].chan.pending.len() == 1,
    ensures
        busy_count(ts) == ts.len(),
        in_flight_count(ts) == ts.len(),
    decreases ts.len(),
{
    if ts.len() > 0 {
        let dl = ts.drop_last();
        assert forall|w: int|
            0 <= w < dl.len() implies (#[trigger] dl[w]).busy && dl[w].chan.pending.len() == 1 by {
            assert(dl[w] == ts[w]);
        }
        lemma_counts_saturated(dl);
        assert(ts.last() == ts[ts.len() - 1]);
    }
}

/// Capacity and backpressure. In a well-formed, initialized pool, at
/// most `size` jobs are ever in flight — one per busy worker — and the
/// queue holds exactly `max(0, active − size)` submissions, where
/// `active` counts the submissions admitted but not yet settled.
pub proof fn lemma_capacity(v: PoolView)
    requires
        v.wf(),
        v.initialized,
    ensures
        in_flight_count(v.threads) <= busy_count(v.threads),
        busy_count(v.threads) <= v.size,
        v.queue.len() == if in_flight_count(v.threads) + v.queue.len() <= v.size {
            0int
        } else {
            in_flight_count(v.threads) + v.queue.len() - v.size
        },
{
    lemma_counts_le(v.threads);
    if v.queue.len() > 0 {
        assert(!v.terminated);
        assert forall|w: int|
            0 <= w < v.threads.len() implies (#[trigger] v.threads[w]).busy
            && v.threads[w].chan.pending.len() == 1 by {
            assert(!v.threads[w].chan.terminated);
        }
        lemma_counts_saturated(v.threads);
    }
}

/// FIFO admission. Two submissions made while the pool is saturated
/// join the back of the queue in submission order, with increasing
/// tickets.
pub proof fn lemma_fifo_saturated_submissions(
    pre: PoolView,
    j1: JobView,
    mid: PoolView,
    t1: u64,
    j2: JobView,
    post: PoolView,
    t2: u64,
)
    requires
        submit_transition(pre, j1, mid, t1, None),
        submit_transition(mid, j2, post, t2, None),
    ensures
        t1 < t2,
        post.queue == pre.queue + seq![
            WaiterView { ticket: t1, job: j1 },
            WaiterView { ticket: t2, job: j2 },
        ],
{
    assert(post.queue =~= pre.queue + seq![
        WaiterView { ticket: t1, job: j1 },
        WaiterView { ticket: t2, job: j2 },
    ]);
}

/// FIFO service. When at least two waiters are queued, two successive
/// completions hand their freed workers to the first and second waiter,
/// in that order: each completion dispatches exactly the head waiter's
/// job on the worker that finished.
pub proof fn lemma_fifo_completions(
    pre: PoolView,
    w1: int,
    id1: u128,
    ok1: bool,
    d1: Seq<u8>,
    mid: PoolView,
    tk1: u64,
    o1: OutcomeView,
    n1: Option<(int, u128, JobView)>,
    w2: int,
    id2: u128,
    ok2: bool,
    d2: Seq<u8>,
    post: PoolView,
    tk2: u64,
    o2: OutcomeView,
    n2: Option<(int, u128, JobView)>,
)
    requires
        pre.queue.len() >= 2,
        complete_transition(pre, w1, id1, ok1, d1, mid, tk1, o1, n1),
        complete_transition(mid, w2, id2, ok2, d2, post, tk2, o2, n2),
    ensures
        n1 matches Some((gw1, gid1, gj1)) && gw1 == w1 && gj1 == pre.queue[0].job,
        n2 matches Some((gw2, gid2, gj2)) && gw2 == w2 && gj2 == pre.queue[1].job,
        post.queue == pre.queue.skip(2),
{
    assert(mid.queue == pre.queue.drop_first());
    assert(mid.queue[0] == pre.queue[1]);
    assert(post.queue =~= pre.queue.skip(2));
}

/// Idempotent termination. A second teardown sweep changes nothing and
/// rejects nothing: no settled submission is ever rejected twice.
pub proof fn lemma_terminate_idempotent(
    pre: PoolView,
    mid: PoolView,
    post: PoolView,
    c1: Seq<(u64, u64)>,
    a1: Seq<u64>,
    c2: Seq<(u64, u64)>,
    a2: Seq<u64>,
)
    requires
        terminate_transition(pre, mid, c1, a1),
        terminate_transition(mid, post, c2, a2),
    ensures
        post == mid,
        c2.len() == 0,
        a2.len() == 0,
{
    assert(mid.terminated);
}

/// No submission settles twice: in a well-formed pool the ledger holds
/// at most one outcome per ticket, so an already-settled request is
/// never rejected or resolved again.
pub proof fn lemma_settled_at_most_once(v: PoolView, t: u64)
    requires
        v.wf(),
    ensures
        outcome_count(v.outcomes, t) <= 1,
{
    lemma_outcome_count_distinct(v.outcomes, t);
}

proof fn lemma_outcome_count_distinct(outs: Seq<SettledView>, t: u64)
    requires
        forall|k1: int, k2: int|
            0 <= k1 < k2 < outs.len() ==> (#[trigger] outs[k1]).ticket != (
            #[trigger] outs[k2]).ticket,
    ensures
        outcome_count(outs, t) <= 1,
    decreases outs.len(),
{
    if outs.len() > 0 {
        let dl = outs.drop_last();
        assert forall|k1: int, k2: int|
            0 <= k1 < k2 < dl.len() implies (#[trigger] dl[k1]).ticket != (
        #[trigger] dl[k2]).ticket by {
            assert(dl[k1] == outs[k1]);
            assert(dl[k2] == outs[k2]);
        }
        if outs.last().ticket == t {
            assert forall|k: int| 0 <= k < dl.len() implies (#[trigger] dl[k]).ticket != t by {
                assert(dl[k] == outs[k]);
                assert(outs[k].ticket != outs[outs.len() - 1].ticket);
            }
            lemma_outcome_count_absent(dl, t);
        } else {
            lemma_outcome_count_distinct(dl, t);
        }
    }
}

proof fn lemma_outcome_count_absent(outs: Seq<SettledView>, t: u64)
    requires
        forall|k: int| 0 <= k < outs.len() ==> (#[trigger] outs[k]).ticket != t,
    ensures
        outcome_count(outs, t) == 0,
    decreases outs.len(),
{
    if outs.len() > 0 {
        let dl = outs.drop_last();
        assert forall|k: int| 0 <= k < dl.len() implies (#[trigger] dl[k]).ticket != t by {
            assert(dl[k] == outs[k]);
        }
        lemma_outcome_count_absent(dl, t);
        assert(outs.last() == outs[outs.len() - 1]);
    }
}

/// Round trip. A job submitted while a worker is idle and completed
/// successfully with value `data` settles its own ticket with
/// `Success(data)` — and that outcome is recorded in the ledger exactly
/// once.
pub proof fn lemma_round_trip(
    pre: PoolView,
    job: JobView,
    mid: PoolView,
    ticket: u64,
    w: int,
    id: u128,
    jv: JobView,
    data: Seq<u8>,
    post: PoolView,
    tk: u64,
    oc: OutcomeView,
    nx: Option<(int, u128, JobView)>,
)
    requires
        pre.wf(),
        pre.initialized,
        !pre.terminated,
        submit_transition(pre, job, mid, ticket, Some((w, id, jv))),
        complete_transition(mid, w, id, true, data, post, tk, oc, nx),
    ensures
        tk == ticket,
        oc == OutcomeView::Success(data),
        post.outcomes == pre.outcomes.push(
            SettledView { ticket, outcome: OutcomeView::Success(data) },
        ),
        outcome_count(post.outcomes, ticket) == 1,
{
    assert(!pre.threads[w].busy);
    assert(pre.threads[w].chan.pending.len() == 0);
    assert(mid.threads[w].chan.pending =~= seq![(id, ticket)]);
    assert(tk == ticket);
    assert(mid.outcomes == pre.outcomes);
    assert forall|k: int|
        0 <= k < pre.outcomes.len() implies (#[trigger] pre.outcomes[k]).ticket != ticket by {
        assert(pre.outcomes[k].ticket < pre.next_ticket);
    }
    lemma_outcome_count_absent(pre.outcomes, ticket);
    let pushed = post.outcomes;
    assert(pushed.drop_last() =~= pre.outcomes);
    assert(pushed.last().ticket == ticket);
    assert(outcome_count(pushed, ticket) == outcome_count(pre.outcomes, ticket) + 1);
}

/// Round trip for a queued submission. When a completion hands the
/// freed worker to the head waiter, and that waiter's job in turn
/// completes successfully with value `data`, the waiter's own ticket
/// settles with `Success(data)` — recorded in the ledger exactly once.
/// Together with [`lemma_round_trip`] (the idle-worker case) and FIFO
/// service, every submission that runs to success yields its value
/// exactly once, however long it waited.
pub proof fn lemma_round_trip_queued(
    pre: PoolView,
    w: int,
    id0: u128,
    ok0: bool,
    d0: Seq<u8>,
    mid: PoolView,
    tk0: u64,
    o0: OutcomeView,
    id1: u128,
    j1: JobView,
    data: Seq<u8>,
    post: PoolView,
    tk1: u64,
    o1: OutcomeView,
    nx: Option<(int, u128, JobView)>,
)
    requires
        pre.wf(),
        complete_transition(pre, w, id0, ok0, d0, mid, tk0, o0, Some((w, id1, j1))),
        complete_transition(mid, w, id1, true, data, post, tk1, o1, nx),
    ensures
        tk1 == pre.queue[0].ticket,
        j1 == pre.queue[0].job,
        o1 == OutcomeView::Success(data),
        post.outcomes == mid.outcomes.push(SettledView { ticket: tk1, outcome: o1 }),
        outcome_count(post.outcomes, tk1) == 1,
{
    assert(mid.threads[w].chan.pending == seq![(id1, pre.queue[0].ticket)]);
    assert(tk1 == pre.queue[0].ticket);
    assert(mid.outcomes == pre.outcomes.push(SettledView { ticket: tk0, outcome: o0 }));
    assert(tk0 == pre.threads[w].chan.pending[0].1);
    assert(tk0 != tk1) by {
        assert(pre.queue[0].ticket != pre.threads[w].chan.pending[0].1);
    }
    assert forall|k: int|
        0 <= k < mid.outcomes.len() implies (#[trigger] mid.outcomes[k]).ticket != tk1 by {
        if k < pre.outcomes.len() {
            assert(mid.outcomes[k] == pre.outcomes[k]);
            assert(pre.outcomes[k].ticket != pre.queue[0].ticket);
        } else {
            assert(mid.outcomes[k].ticket == tk0);
        }
    }
    lemma_outcome_count_absent(mid.outcomes, tk1);
    assert(post.outcomes.drop_last() =~= mid.outcomes);
    assert(post.outcomes.last().ticket == tk1);
    assert(outcome_count(post.outcomes, tk1) == outcome_count(mid.outcomes, tk1) + 1);
}

/// Shutdown drains. After a teardown sweep nothing is queued, every
/// waiter that was queued has its cancellation outcome in the ledger —
/// numbered by its queue position — and every request that was in flight
/// has a transport-error outcome.
pub proof fn lemma_shutdown_drains(
    pre: PoolView,
    post: PoolView,
    canceled: Seq<(u64, u64)>,
    aborted: Seq<u64>,
)
    requires
        pre.wf(),
        !pre.terminated,
        terminate_transition(pre, post, canceled, aborted),
    ensures
        post.queue.len() == 0,
        forall|k: int|
            0 <= k < pre.queue.len() ==> post.outcomes.contains(
                SettledView {
                    ticket: (#[trigger] pre.queue[k]).ticket,
                    outcome: OutcomeView::Canceled(k as u64),
                },
            ),
        forall|w: int|
            0 <= w < pre.threads.len() && 0 < (#[trigger] pre.threads[w]).chan.pending.len()
                ==> post.outcomes.contains(
                SettledView {
                    ticket: pre.threads[w].chan.pending[0].1,
                    outcome: OutcomeView::TransportError,
                },
            ),
{
    let co = crate::pool::canceled_outcomes(pre.queue);
    let rt = crate::pool::running_tickets(pre.threads);
    let ao = crate::pool::aborted_outcomes(rt);
    let ob = pre.outcomes.len() as int;
    assert forall|k: int|
        0 <= k < pre.queue.len() implies post.outcomes.contains(
        SettledView {
            ticket: (#[trigger] pre.queue[k]).ticket,
            outcome: OutcomeView::Canceled(k as u64),
        },
    ) by {
        assert(post.outcomes[ob + k] == co[k]);
        assert(co[k] == SettledView {
            ticket: pre.queue[k].ticket,
            outcome: OutcomeView::Canceled(k as u64),
        });
    }
    crate::pool::lemma_running_tickets_props(pre.threads);
    assert forall|w: int|
        0 <= w < pre.threads.len() && 0 < (#[trigger] pre.threads[w]).chan.pending.len()
            implies post.outcomes.contains(
        SettledView {
            ticket: pre.threads[w].chan.pending[0].1,
            outcome: OutcomeView::TransportError,
        },
    ) by {
        let t = pre.threads[w].chan.pending[0].1;
        assert(rt.contains(t));
        let n = choose|n: int| 0 <= n < rt.len() && rt[n] == t;
        assert(ao[n] == SettledView { ticket: t, outcome: OutcomeView::TransportError });
        assert(post.outcomes[ob + co.len() + n] == ao[n]);
    }
}

} // verus!
