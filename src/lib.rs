//! A serialising, rate-limited mutation pipeline: bounded FIFO queues of
//! commands, one worker per queue class that applies them one at a time, a
//! local record store kept in step with a remote resource, and job states
//! that callers can poll.
//!
//! The workers are state machines: a driver submits commands, asks the
//! worker for its next step, performs the remote call that the step names,
//! and hands the reply back. Their contracts state the ordering, exclusivity,
//! exactly-once and spacing guarantees of the pipeline.

pub mod error;
pub mod jobs;
pub mod mutation;
pub mod queue;
pub mod rate;
pub mod send;
pub mod store;
