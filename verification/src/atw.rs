//! The correlation layer: turning a one-way, asynchronous message channel
//! into a call/response primitive.
//!
//! Each outgoing request is tagged with a fresh correlation id and recorded
//! in a pending table; the matching reply settles exactly that record. A
//! channel failure or an explicit termination rejects every pending record
//! at once — a hard failure boundary, not a retry.

use crate::job::{Fault, Job, SendError};
use vstd::prelude::*;

verus! {

/// How many correlation ids are drawn before a persistent collision is
/// treated as a fatal internal error. Collisions of random 128-bit ids are
/// next to impossible; the bound only guards an otherwise-infinite loop.
pub const ID_ATTEMPTS: usize = 5;

/// A request message, ready for the host to carry to a worker: a fresh
/// correlation id plus the job.
pub struct ReqMsg {
    pub id: u128,
    pub task: Job,
}

/// A reply message as the host brings it back: the correlation id of the
/// request it answers, whether the job succeeded, and the result payload.
pub struct ResultMsg {
    pub id: u128,
    pub is_ok: bool,
    pub data: Vec<u8>,
}

/// Builds the message for one request.
pub fn atw_encode_req_msg(id: u128, task: Job) -> (r: ReqMsg)
    ensures
        r.id == id,
        r.task == task,
{
    ReqMsg { id, task }
}

/// Takes a request message apart into its correlation id and job.
pub fn atw_decode_req_msg(msg: ReqMsg) -> (r: (u128, Job))
    ensures
        r.0 == msg.id,
        r.1 == msg.task,
{
    let ReqMsg { id, task } = msg;
    (id, task)
}

/// Builds the message for one reply.
pub fn atw_encode_result_msg(id: u128, data: Vec<u8>, is_ok: bool) -> (r: ResultMsg)
    ensures
        r.id == id,
        r.data == data,
        r.is_ok == is_ok,
{
    ResultMsg { id, data, is_ok }
}

/// Takes a reply message apart into its correlation id, payload and
/// success flag.
pub fn atw_decode_result_msg(msg: ResultMsg) -> (r: (u128, Vec<u8>, bool))
    ensures
        r.0 == msg.id,
        r.1 == msg.data,
        r.2 == msg.is_ok,
{
    let ResultMsg { id, is_ok, data } = msg;
    (id, data, is_ok)
}

/// One pending request: its correlation id and the submission ticket whose
/// outcome it will settle.
struct Pending {
    id: u128,
    ticket: u64,
}

/// One end of a message channel to a single worker, with the table of
/// requests that are still awaiting their reply.
pub struct Transport {
    pending: Vec<Pending>,
    terminated: bool,
}

/// The mathematical value of a [`Transport`]: the pending requests as
/// `(correlation id, ticket)` pairs in send order, and the terminated flag.
#[verifier::ext_equal]
pub struct TransportView {
    pub pending: Seq<(u128, u64)>,
    pub terminated: bool,
}

impl TransportView {
    /// Pending correlation ids are distinct, and a terminated channel holds
    /// no pending request.
    pub open spec fn wf(self) -> bool {
        &&& forall|i: int, j: int|
            0 <= i < j < self.pending.len() ==> self.pending[i].0 != self.pending[j].0
        &&& self.terminated ==> self.pending.len() == 0
    }

    /// Whether a request with this correlation id is in flight.
    pub open spec fn contains_id(self, id: u128) -> bool {
        exists|i: int| 0 <= i < self.pending.len() && self.pending[i].0 == id
    }

    /// The tickets of the pending requests, in send order.
    pub open spec fn tickets(self) -> Seq<u64> {
        self.pending.map_values(|p: (u128, u64)| p.1)
    }
}

impl View for Transport {
    type V = TransportView;

    closed spec fn view(&self) -> TransportView {
        TransportView {
            pending: self.pending@.map_values(|p: Pending| (p.id, p.ticket)),
            terminated: self.terminated,
        }
    }
}

/// Relies on uuid's `Uuid::new_v4`, which draws a random version-4 UUID
/// from the process's entropy source; `as_u128` only converts it to its
/// 128 bits. The value is random, so nothing is promised of it; freshness
/// against the live pending table is checked by the caller.
#[verifier::external_body]
fn fresh_correlation_id() -> u128 {
    uuid::Uuid::new_v4().as_u128()
}

impl Transport {
    /// A fresh channel end: nothing pending, not terminated.
    pub fn new() -> (r: Transport)
        ensures
            r@.wf(),
            r@.pending.len() == 0,
            !r@.terminated,
    {
        Transport { pending: Vec::new(), terminated: false }
    }

    /// Whether a request with this correlation id is in flight.
    pub fn contains_id(&self, id: u128) -> (r: bool)
        ensures
            r == self@.contains_id(id),
    {
        let mut i: usize = 0;
        while i < self.pending.len()
            invariant
                i <= self.pending.len(),
                forall|j: int| 0 <= j < i ==> self@.pending[j].0 != id,
            decreases self.pending.len() - i,
        {
            if self.pending[i].id == id {
                proof {
                    assert(self@.pending[i as int].0 == id);
                }
                return true;
            }
            i = i + 1;
        }
        false
    }

    /// Draws a correlation id that collides with no live request,
    /// regenerating up to [`ID_ATTEMPTS`] times; persistent collision is
    /// reported as a fatal error rather than retried forever. Against an
    /// empty pending table the first draw always succeeds.
    fn new_req_id(&self) -> (r: Result<u128, SendError>)
        ensures
            match r {
                Ok(id) => !self@.contains_id(id),
                Err(e) => e == SendError::IdCollision && self@.pending.len() > 0,
            },
    {
        let mut attempt: usize = 0;
        while attempt < ID_ATTEMPTS
            invariant
                attempt > 0 ==> self@.pending.len() > 0,
            decreases ID_ATTEMPTS - attempt,
        {
            let id = fresh_correlation_id();
            if !self.contains_id(id) {
                return Ok(id);
            }
            proof {
                assert(self@.pending.len() > 0);
            }
            attempt = attempt + 1;
        }
        Err(SendError::IdCollision)
    }

    /// Registers a request for `ticket` under a fresh correlation id and
    /// hands the id back for the outgoing message. On a terminated channel
    /// nothing is sent and the request is rejected at once.
    pub fn send_request(&mut self, ticket: u64) -> (r: Result<u128, SendError>)
        requires
            old(self)@.wf(),
        ensures
            final(self)@.wf(),
            final(self)@.terminated == old(self)@.terminated,
            match r {
                Ok(id) => {
                    &&& !old(self)@.terminated
                    &&& !old(self)@.contains_id(id)
                    &&& final(self)@.pending == old(self)@.pending.push((id, ticket))
                },
                Err(SendError::Terminated) => {
                    &&& old(self)@.terminated
                    &&& final(self)@ == old(self)@
                },
                Err(SendError::IdCollision) => {
                    &&& !old(self)@.terminated
                    &&& old(self)@.pending.len() > 0
                    &&& final(self)@ == old(self)@
                },
            },
            !old(self)@.terminated && old(self)@.pending.len() == 0 ==> r is Ok,
    {
        if self.terminated {
            return Err(SendError::Terminated);
        }
        let id = match self.new_req_id() {
            Ok(id) => id,
            Err(e) => {
                return Err(e);
            },
        };
        self.pending.push(Pending { id, ticket });
        proof {
            assert(self@.pending =~= old(self)@.pending.push((id, ticket)));
            assert forall|i: int, j: int|
                0 <= i < j < self@.pending.len() implies self@.pending[i].0
                != self@.pending[j].0 by {
                if j == self@.pending.len() - 1 {
                    assert(old(self)@.pending[i].0 != id) by {
                        assert(!old(self)@.contains_id(id));
                    }
                }
            }
        }
        Ok(id)
    }

    /// Settles the pending request that a reply answers, removing its
    /// record and returning its ticket. A reply whose correlation id is
    /// unknown is a protocol violation and is reported as a fault, leaving
    /// the table untouched.
    pub fn on_result(&mut self, id: u128) -> (r: Result<u64, Fault>)
        requires
            old(self)@.wf(),
        ensures
            final(self)@.wf(),
            final(self)@.terminated == old(self)@.terminated,
            match r {
                Ok(t) => exists|i: int|
                    {
                        &&& 0 <= i < old(self)@.pending.len()
                        &&& old(self)@.pending[i] == (id, t)
                        &&& final(self)@.pending == old(self)@.pending.remove(i)
                    },
                Err(f) => {
                    &&& f == Fault::UnknownRequest
                    &&& !old(self)@.contains_id(id)
                    &&& final(self)@ == old(self)@
                },
            },
    {
        let mut i: usize = 0;
        while i < self.pending.len()
            invariant
                i <= self.pending.len(),
                self@ == old(self)@,
                old(self)@.wf(),
                forall|j: int| 0 <= j < i ==> self@.pending[j].0 != id,
            decreases self.pending.len() - i,
        {
            if self.pending[i].id == id {
                proof {
                    assert(self@.pending[i as int].0 == id);
                }
                let p = self.pending.remove(i);
                proof {
                    let oldp = old(self)@.pending;
                    assert(oldp.len() == old(self).pending@.len());
                    old(self).pending@.remove_ensures(i as int);
                    oldp.remove_ensures(i as int);
                    assert(oldp[i as int] == (id, p.ticket));
                    assert(self@.pending =~= oldp.remove(i as int));
                    assert forall|a: int, b: int|
                        0 <= a < b < self@.pending.len() implies self@.pending[a].0
                        != self@.pending[b].0 by {
                        assert(self@.pending[a] == oldp.remove(i as int)[a]);
                        assert(self@.pending[b] == oldp.remove(i as int)[b]);
                        if a < i as int {
                            assert(oldp.remove(i as int)[a] == oldp[a]);
                        } else {
                            assert(oldp.remove(i as int)[a] == oldp[a + 1]);
                        }
                        if b < i as int {
                            assert(oldp.remove(i as int)[b] == oldp[b]);
                        } else {
                            assert(oldp.remove(i as int)[b] == oldp[b + 1]);
                        }
                    }
                }
                return Ok(p.ticket);
            }
            i = i + 1;
        }
        Err(Fault::UnknownRequest)
    }

    /// Rejects every pending request, returning their tickets in send
    /// order, and clears the table. The terminated flag is untouched.
    pub fn cancel_pending_requests(&mut self) -> (r: Vec<u64>)
        requires
            old(self)@.wf(),
        ensures
            final(self)@.wf(),
            final(self)@.terminated == old(self)@.terminated,
            final(self)@.pending.len() == 0,
            r@ == old(self)@.tickets(),
    {
        let mut r: Vec<u64> = Vec::new();
        let mut i: usize = 0;
        while i < self.pending.len()
            invariant
                i <= self.pending.len(),
                self@ == old(self)@,
                r@ == old(self)@.tickets().subrange(0, i as int),
            decreases self.pending.len() - i,
        {
            r.push(self.pending[i].ticket);
            i = i + 1;
            proof {
                assert(r@ =~= old(self)@.tickets().subrange(0, i as int));
            }
        }
        self.pending = Vec::new();
        proof {
            assert(r@ =~= old(self)@.tickets());
            assert(self@.pending =~= Seq::<(u128, u64)>::empty());
        }
        r
    }

    /// Terminates the channel: the first call rejects every pending
    /// request (their tickets are returned in send order) and marks the
    /// channel closed; later calls change nothing and return no tickets.
    pub fn terminate(&mut self) -> (r: Vec<u64>)
        requires
            old(self)@.wf(),
        ensures
            final(self)@.wf(),
            final(self)@.terminated,
            final(self)@.pending.len() == 0,
            old(self)@.terminated ==> final(self)@ == old(self)@ && r@.len() == 0,
            !old(self)@.terminated ==> r@ == old(self)@.tickets(),
    {
        if self.terminated {
            return Vec::new();
        }
        let r = self.cancel_pending_requests();
        self.terminated = true;
        r
    }

    /// Whether the channel has been terminated.
    pub fn is_terminated(&self) -> (r: bool)
        ensures
            r == self@.terminated,
    {
        self.terminated
    }

    /// How many requests are awaiting their reply.
    pub fn pending_count(&self) -> (r: usize)
        ensures
            r == self@.pending.len(),
    {
        self.pending.len()
    }
}

} // verus!
