//! Concurrency-safe bridge state between native threads and a single-threaded
//! managed runtime: an executor that settles each submitted task exactly once,
//! and a reference-counted callback channel that delivers calls in the order
//! they were accepted.

pub mod channel;
pub mod executor;
pub mod messages;
pub mod numeric;
pub mod task;
