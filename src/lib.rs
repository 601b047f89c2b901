//! A dependency-aware job scheduler: a registry of jobs, a readiness scan
//! over a workflow, and a two-tier (ready and delayed) priority queue.
pub mod queue;
pub mod scheduler;
pub mod workflow;
pub mod laws;

use vstd::prelude::*;

verus! {

/// Identifier of a job in a registry.
pub type JobId = u128;

/// Seconds since the Unix epoch.
pub type TimeStamp = u64;

/// Urgency of a job; higher runs first.
pub type Priority = u8;

} // verus!
