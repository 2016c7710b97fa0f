//! Jobs and their outcomes.
//!
//! A job is an opaque, self-contained description of work: a serialized
//! closure (synchronous or asynchronous) or a piece of source text. The
//! scheduler never looks inside a payload; the codec that produced it and
//! the execution context that consumes it are outside this crate.

use vstd::prelude::*;

verus! {

/// An opaque unit of work, tagged with how the execution context should
/// interpret it. The payload of a closure job is the codec's byte output;
/// the payload of a source-text job is the source itself.
pub enum Job {
    /// A serialized synchronous closure.
    Clos(Vec<u8>),
    /// A serialized asynchronous closure.
    AClos(Vec<u8>),
    /// Synchronous source text.
    Js(String),
    /// Asynchronous source text.
    JsAsync(String),
}

/// The mathematical value of a [`Job`].
pub enum JobView {
    Clos(Seq<u8>),
    AClos(Seq<u8>),
    Js(Seq<char>),
    JsAsync(Seq<char>),
}

impl View for Job {
    type V = JobView;

    open spec fn view(&self) -> JobView {
        match self {
            Job::Clos(b) => JobView::Clos(b@),
            Job::AClos(b) => JobView::AClos(b@),
            Job::Js(s) => JobView::Js(s@),
            Job::JsAsync(s) => JobView::JsAsync(s@),
        }
    }
}

/// The result of one submission, delivered exactly once per submission.
pub enum Outcome {
    /// The job completed and produced this value.
    Success(Vec<u8>),
    /// The job itself completed with a failure value; it is surfaced
    /// verbatim and never retried.
    JobError(Vec<u8>),
    /// The request was rejected because the worker's channel failed or the
    /// worker was terminated while the request was in flight.
    TransportError,
    /// The submission was still queued when the pool was torn down. The
    /// sequence number records the position in the cancellation sweep.
    Canceled(u64),
}

/// The mathematical value of an [`Outcome`].
pub enum OutcomeView {
    Success(Seq<u8>),
    JobError(Seq<u8>),
    TransportError,
    Canceled(u64),
}

impl View for Outcome {
    type V = OutcomeView;

    open spec fn view(&self) -> OutcomeView {
        match self {
            Outcome::Success(b) => OutcomeView::Success(b@),
            Outcome::JobError(b) => OutcomeView::JobError(b@),
            Outcome::TransportError => OutcomeView::TransportError,
            Outcome::Canceled(n) => OutcomeView::Canceled(*n),
        }
    }
}

/// A reply that refers to no live request. Replies must match an in-flight
/// correlation id; anything else is an internal-invariant breach that the
/// caller must treat as fatal, never ignore.
#[derive(Debug)]
pub enum Fault {
    UnknownRequest,
}

/// Why a request could not be sent on a channel.
#[derive(Debug)]
pub enum SendError {
    /// The channel was already terminated; nothing was sent.
    Terminated,
    /// Correlation-id generation kept colliding with live requests. The
    /// generator is random, so persistent collision is treated as a fatal
    /// internal error rather than retried forever.
    IdCollision,
}

/// Copies a byte buffer. Outcomes are both returned to the caller and
/// recorded in the pool's ledger, so their payloads are duplicated here.
pub fn clone_bytes(v: &Vec<u8>) -> (r: Vec<u8>)
    ensures
        r@ == v@,
{
    let mut r: Vec<u8> = Vec::new();
    let mut i: usize = 0;
    while i < v.len()
        invariant
            i <= v.len(),
            r@ == v@.subrange(0, i as int),
        decreases v.len() - i,
    {
        r.push(v[i]);
        i = i + 1;
        proof {
            assert(r@ =~= v@.subrange(0, i as int));
        }
    }
    proof {
        assert(r@ =~= v@);
    }
    r
}

} // verus!
