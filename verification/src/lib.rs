//! A verified model of a fixed-size worker pool over a message-passing
//! channel.
//!
//! Workers are independent execution contexts that run at most one job at a
//! time. The pool dispatches submitted jobs to idle workers, queues excess
//! submissions in FIFO order, and on teardown cancels queued work and
//! terminates every worker. Beneath the pool sits a correlation-based
//! request/response layer: each outgoing request carries a fresh correlation
//! id, and a reply is matched to its request by that id.
//!
//! The host that actually carries messages to and from the execution
//! contexts is not part of this crate: the pool hands it fully formed
//! request messages ([`atw::ReqMsg`]) and consumes the replies it brings
//! back ([`atw::ResultMsg`]). Everything the pool decides — admission,
//! assignment, fairness, backpressure, cancellation — is verified here.

pub mod atw;
pub mod job;
pub mod laws;
pub mod pool;
pub mod resolver;
pub mod thread;
pub mod utils;
