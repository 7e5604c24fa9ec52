//! A durable background-job queue core: a table of jobs with a per-row lock
//! and a skip-locked claim, a retry policy with capped exponential backoff,
//! a registry from job type to handler, and a pool of execution slots whose
//! claims, completions and shutdown keep every row owned by at most one slot.

pub mod record;
pub mod registry;
pub mod retry;
pub mod runner;
pub mod store;
