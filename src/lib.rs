//! Outbound delivery of signed activities: the decisions of an in-memory
//! activity queue, stated and proved. Inboxes are deduplicated and
//! filtered, each task goes round-robin to one of a fixed set of workers,
//! failed deliveries are retried on an exponential schedule, and four
//! counters account for every task.
pub mod delivery;
pub mod error;
pub mod inbox;
pub mod queue;
pub mod retry;
pub mod signing;
