//! A verified model of a parallel task-dispatch engine for hosts without
//! native threads: a pool of single-tasked background workers driven by
//! message passing, a single-slot completion cell, and a data-parallel
//! rendering adapter with a progressively readable output buffer.
//!
//! The host environment (spawning a background context, posting a message,
//! actually invoking a work item) is outside the library; callers perform
//! those actions and hand the resulting events back to the pool, whose
//! bookkeeping and state transitions are verified here.

pub mod pool;
pub mod render;
pub mod todo;
