//! A model of a fixed-size worker pool with an orderly shutdown protocol.
//!
//! Tasks are identified by the id the submitter chooses; submitting a task
//! enqueues a control message on the dispatch queue, each message is consumed
//! by exactly one worker, and teardown sends one poison pill per worker before
//! waiting for any of them, so that no wait can starve.

pub mod message;
pub mod worker;
pub mod pool;
