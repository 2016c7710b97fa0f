//! The worker handle: one execution context, its channel, and its
//! scheduling metadata.
//!
//! A worker runs at most one job at a time. The handle owns the
//! correlation channel to its execution context and carries the `busy`
//! flag that the scheduler — and only the scheduler — toggles; keeping
//! that flag out of the worker's own logic keeps scheduling policy
//! separate from the execution primitive.

use crate::atw::{atw_encode_req_msg, ReqMsg, Transport, TransportView};
use crate::job::{Fault, Job, SendError};
use vstd::prelude::*;

verus! {

/// A handle to one worker.
pub struct Thread {
    chan: Transport,
    id: Option<String>,
    is_busy: bool,
    is_initialized: bool,
}

/// The mathematical value of a [`Thread`].
#[verifier::ext_equal]
pub struct ThreadView {
    pub chan: TransportView,
    pub id: Option<Seq<char>>,
    pub busy: bool,
    pub initialized: bool,
}

impl ThreadView {
    /// The handle is well formed when its channel is.
    pub open spec fn wf(self) -> bool {
        self.chan.wf()
    }

    /// The ticket of the oldest request in flight on this worker, when
    /// there is one. Under the pool's discipline a worker carries at most
    /// one request, so this is the ticket of the job it is executing.
    pub open spec fn running_ticket(self) -> Option<u64> {
        if self.chan.pending.len() > 0 {
            Some(self.chan.pending[0].1)
        } else {
            None
        }
    }
}

impl View for Thread {
    type V = ThreadView;

    closed spec fn view(&self) -> ThreadView {
        ThreadView {
            chan: self.chan@,
            id: match self.id {
                Some(s) => Some(s@),
                None => None,
            },
            busy: self.is_busy,
            initialized: self.is_initialized,
        }
    }
}

/// The views of a sequence of worker handles.
pub open spec fn tviews(ts: Seq<Thread>) -> Seq<ThreadView> {
    ts.map_values(|t: Thread| t@)
}

impl Thread {
    /// A fresh worker handle: idle, not yet initialized, channel open and
    /// empty.
    pub fn new() -> (r: Thread)
        ensures
            r@.wf(),
            r@.chan.pending.len() == 0,
            !r@.chan.terminated,
            r@.id is None,
            !r@.busy,
            !r@.initialized,
    {
        Thread { chan: Transport::new(), id: None, is_busy: false, is_initialized: false }
    }

    /// Records that the worker's one-time bootstrap handshake has
    /// completed. The handshake round trip itself is the host's work;
    /// running it twice is a programming error.
    pub fn init(&mut self)
        requires
            !old(self)@.initialized,
        ensures
            final(self)@ == (ThreadView { initialized: true, ..old(self)@ }),
    {
        self.is_initialized = true;
    }

    /// Initializes the worker and hands it back, for call chaining.
    pub fn and_init(self) -> (r: Thread)
        requires
            !self@.initialized,
        ensures
            r@ == (ThreadView { initialized: true, ..self@ }),
    {
        let mut t = self;
        t.init();
        t
    }

    /// Registers `job` on the channel under a fresh correlation id and
    /// returns the request message for the host to carry. The outcome of
    /// the request will settle `ticket`.
    pub fn submit_job(&mut self, job: Job, ticket: u64) -> (r: Result<ReqMsg, SendError>)
        requires
            old(self)@.wf(),
        ensures
            final(self)@.wf(),
            final(self)@.id == old(self)@.id,
            final(self)@.busy == old(self)@.busy,
            final(self)@.initialized == old(self)@.initialized,
            final(self)@.chan.terminated == old(self)@.chan.terminated,
            match r {
                Ok(msg) => {
                    &&& msg.task == job
                    &&& !old(self)@.chan.terminated
                    &&& !old(self)@.chan.contains_id(msg.id)
                    &&& final(self)@.chan.pending == old(self)@.chan.pending.push(
                        (msg.id, ticket),
                    )
                },
                Err(SendError::Terminated) => {
                    &&& old(self)@.chan.terminated
                    &&& final(self)@ == old(self)@
                },
                Err(SendError::IdCollision) => {
                    &&& !old(self)@.chan.terminated
                    &&& old(self)@.chan.pending.len() > 0
                    &&& final(self)@ == old(self)@
                },
            },
            !old(self)@.chan.terminated && old(self)@.chan.pending.len() == 0 ==> r is Ok,
    {
        let id = match self.chan.send_request(ticket) {
            Ok(id) => id,
            Err(e) => {
                return Err(e);
            },
        };
        Ok(atw_encode_req_msg(id, job))
    }

    /// Executes a serialized synchronous closure on this worker. The
    /// worker must have completed its bootstrap handshake.
    pub fn execute(&mut self, payload: Vec<u8>, ticket: u64) -> (r: Result<ReqMsg, SendError>)
        requires
            old(self)@.wf(),
            old(self)@.initialized,
        ensures
            final(self)@.wf(),
            final(self)@.id == old(self)@.id,
            final(self)@.busy == old(self)@.busy,
            final(self)@.initialized == old(self)@.initialized,
            final(self)@.chan.terminated == old(self)@.chan.terminated,
            match r {
                Ok(msg) => {
                    &&& msg.task@ == crate::job::JobView::Clos(payload@)
                    &&& !old(self)@.chan.contains_id(msg.id)
                    &&& final(self)@.chan.pending == old(self)@.chan.pending.push(
                        (msg.id, ticket),
                    )
                },
                Err(SendError::Terminated) => {
                    &&& old(self)@.chan.terminated
                    &&& final(self)@ == old(self)@
                },
                Err(SendError::IdCollision) => {
                    &&& !old(self)@.chan.terminated
                    &&& old(self)@.chan.pending.len() > 0
                    &&& final(self)@ == old(self)@
                },
            },
            !old(self)@.chan.terminated && old(self)@.chan.pending.len() == 0 ==> r is Ok,
    {
        self.submit_job(Job::Clos(payload), ticket)
    }

    /// Executes a serialized asynchronous closure on this worker. The
    /// worker must have completed its bootstrap handshake.
    pub fn execute_async(&mut self, payload: Vec<u8>, ticket: u64) -> (r: Result<
        ReqMsg,
        SendError,
    >)
        requires
            old(self)@.wf(),
            old(self)@.initialized,
        ensures
            final(self)@.wf(),
            final(self)@.id == old(self)@.id,
            final(self)@.busy == old(self)@.busy,
            final(self)@.initialized == old(self)@.initialized,
            final(self)@.chan.terminated == old(self)@.chan.terminated,
            match r {
                Ok(msg) => {
                    &&& msg.task@ == crate::job::JobView::AClos(payload@)
                    &&& !old(self)@.chan.contains_id(msg.id)
                    &&& final(self)@.chan.pending == old(self)@.chan.pending.push(
                        (msg.id, ticket),
                    )
                },
                Err(SendError::Terminated) => {
                    &&& old(self)@.chan.terminated
                    &&& final(self)@ == old(self)@
                },
                Err(SendError::IdCollision) => {
                    &&& !old(self)@.chan.terminated
                    &&& old(self)@.chan.pending.len() > 0
                    &&& final(self)@ == old(self)@
                },
            },
            !old(self)@.chan.terminated && old(self)@.chan.pending.len() == 0 ==> r is Ok,
    {
        self.submit_job(Job::AClos(payload), ticket)
    }

    /// Executes synchronous source text on this worker. The worker must
    /// have completed its bootstrap handshake.
    pub fn execute_js(&mut self, source: String, ticket: u64) -> (r: Result<ReqMsg, SendError>)
        requires
            old(self)@.wf(),
            old(self)@.initialized,
        ensures
            final(self)@.wf(),
            final(self)@.id == old(self)@.id,
            final(self)@.busy == old(self)@.busy,
            final(self)@.initialized == old(self)@.initialized,
            final(self)@.chan.terminated == old(self)@.chan.terminated,
            match r {
                Ok(msg) => {
                    &&& msg.task@ == crate::job::JobView::Js(source@)
                    &&& !old(self)@.chan.contains_id(msg.id)
                    &&& final(self)@.chan.pending == old(self)@.chan.pending.push(
                        (msg.id, ticket),
                    )
                },
                Err(SendError::Terminated) => {
                    &&& old(self)@.chan.terminated
                    &&& final(self)@ == old(self)@
                },
                Err(SendError::IdCollision) => {
                    &&& !old(self)@.chan.terminated
                    &&& old(self)@.chan.pending.len() > 0
                    &&& final(self)@ == old(self)@
                },
            },
            !old(self)@.chan.terminated && old(self)@.chan.pending.len() == 0 ==> r is Ok,
    {
        self.submit_job(Job::Js(source), ticket)
    }

    /// Executes asynchronous source text on this worker. The worker must
    /// have completed its bootstrap handshake.
    pub fn execute_js_async(&mut self, source: String, ticket: u64) -> (r: Result<
        ReqMsg,
        SendError,
    >)
        requires
            old(self)@.wf(),
            old(self)@.initialized,
        ensures
            final(self)@.wf(),
            final(self)@.id == old(self)@.id,
            final(self)@.busy == old(self)@.busy,
            final(self)@.initialized == old(self)@.initialized,
            final(self)@.chan.terminated == old(self)@.chan.terminated,
            match r {
                Ok(msg) => {
                    &&& msg.task@ == crate::job::JobView::JsAsync(source@)
                    &&& !old(self)@.chan.contains_id(msg.id)
                    &&& final(self)@.chan.pending == old(self)@.chan.pending.push(
                        (msg.id, ticket),
                    )
                },
                Err(SendError::Terminated) => {
                    &&& old(self)@.chan.terminated
                    &&& final(self)@ == old(self)@
                },
                Err(SendError::IdCollision) => {
                    &&& !old(self)@.chan.terminated
                    &&& old(self)@.chan.pending.len() > 0
                    &&& final(self)@ == old(self)@
                },
            },
            !old(self)@.chan.terminated && old(self)@.chan.pending.len() == 0 ==> r is Ok,
    {
        self.submit_job(Job::JsAsync(source), ticket)
    }

    /// Settles the in-flight request that a reply answers and returns its
    /// ticket; a reply with an unknown correlation id is a fault.
    pub fn on_result(&mut self, id: u128) -> (r: Result<u64, Fault>)
        requires
            old(self)@.wf(),
        ensures
            final(self)@.wf(),
            final(self)@.id == old(self)@.id,
            final(self)@.busy == old(self)@.busy,
            final(self)@.initialized == old(self)@.initialized,
            final(self)@.chan.terminated == old(self)@.chan.terminated,
            match r {
                Ok(t) => exists|i: int|
                    {
                        &&& 0 <= i < old(self)@.chan.pending.len()
                        &&& old(self)@.chan.pending[i] == (id, t)
                        &&& final(self)@.chan.pending == old(self)@.chan.pending.remove(i)
                    },
                Err(f) => {
                    &&& f == Fault::UnknownRequest
                    &&& !old(self)@.chan.contains_id(id)
                    &&& final(self)@ == old(self)@
                },
            },
    {
        self.chan.on_result(id)
    }

    /// Terminates the worker's channel. The first call rejects every
    /// in-flight request and returns their tickets; later calls are
    /// no-ops. The busy flag belongs to the scheduler and is untouched.
    pub fn terminate(&mut self) -> (r: Vec<u64>)
        requires
            old(self)@.wf(),
        ensures
            final(self)@.wf(),
            final(self)@.id == old(self)@.id,
            final(self)@.busy == old(self)@.busy,
            final(self)@.initialized == old(self)@.initialized,
            final(self)@.chan.terminated,
            final(self)@.chan.pending.len() == 0,
            old(self)@.chan.terminated ==> final(self)@ == old(self)@ && r@.len() == 0,
            !old(self)@.chan.terminated ==> r@ == old(self)@.chan.tickets(),
    {
        self.chan.terminate()
    }

    /// Rejects every in-flight request on this worker — the hard failure
    /// boundary taken when its execution context crashes — returning
    /// their tickets in send order. The channel itself stays usable.
    pub fn cancel_pending_requests(&mut self) -> (r: Vec<u64>)
        requires
            old(self)@.wf(),
        ensures
            final(self)@.wf(),
            final(self)@.id == old(self)@.id,
            final(self)@.busy == old(self)@.busy,
            final(self)@.initialized == old(self)@.initialized,
            final(self)@.chan.terminated == old(self)@.chan.terminated,
            final(self)@.chan.pending.len() == 0,
            r@ == old(self)@.chan.tickets(),
    {
        self.chan.cancel_pending_requests()
    }

    /// Whether the worker's channel has been terminated.
    pub fn is_terminated(&self) -> (r: bool)
        ensures
            r == self@.chan.terminated,
    {
        self.chan.is_terminated()
    }

    /// The worker's identity, if one has been assigned.
    pub fn get_id(&self) -> (r: Option<&String>)
        ensures
            match r {
                Some(s) => self@.id == Some(s@),
                None => self@.id is None,
            },
    {
        match &self.id {
            Some(s) => Some(s),
            None => None,
        }
    }

    /// Assigns the worker's identity.
    pub fn set_id(&mut self, id: String)
        ensures
            final(self)@ == (ThreadView { id: Some(id@), ..old(self)@ }),
    {
        self.id = Some(id);
    }

    /// Whether the scheduler currently considers this worker busy.
    pub fn get_busy(&self) -> (r: bool)
        ensures
            r == self@.busy,
    {
        self.is_busy
    }

    /// Sets the busy flag; called only by the scheduler.
    pub fn set_busy(&mut self, tf: bool)
        ensures
            final(self)@ == (ThreadView { busy: tf, ..old(self)@ }),
    {
        self.is_busy = tf;
    }
}

} // verus!
