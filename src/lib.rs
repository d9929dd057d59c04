//! A resumable, checkpointed worker core: it takes version-addressed
//! transaction batches, admits them to bounded concurrent processing, and
//! commits the results in strict, gap-free version order.

pub mod config;
pub mod dispatcher;
pub mod fetcher;
pub mod pipeline;
pub mod progress;
pub mod reorder;
pub mod retry;
pub mod stream;
