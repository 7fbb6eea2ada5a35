//! A verified task queue: the log of tasks that backs an asynchronous write
//! pipeline, the filters that status queries apply to it, and the protocol
//! that turns a scheduler's selection into full task bodies.

pub mod batch;
mod clock;
pub mod error;
pub mod filter;
pub mod query;
pub mod store;
pub mod summary;
pub mod task;
pub mod task_store;
