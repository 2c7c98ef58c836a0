//! A fixed-size worker pool, specified and verified as a state machine.
//!
//! The pool owns a fixed set of workers and the submission end of a shared
//! FIFO queue of jobs. Workers repeatedly take the next job from the queue,
//! run it, and go back for more; closing the queue is the shutdown signal.
//! Jobs are identified by the caller's tokens, so the machine can state the
//! delivery guarantees exactly: jobs are delivered in submission order, each
//! job is handed to exactly one worker, and teardown closes submission first
//! and then drives every worker to termination without losing any job that
//! was submitted before the close.
//!
//! The `pool` module holds the pool itself and its transitions; the `worker`
//! module holds the per-worker lifecycle state.

pub mod pool;
pub mod worker;
