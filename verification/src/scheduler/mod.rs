//! The job scheduler's decisions: job priorities and lanes, the state kept
//! per job and how a run's outcome changes it, catch-up at start, the order
//! in which ready jobs are taken, manual triggers, and when a schedule fires
//! next on the calendar of a time zone. Times are nanoseconds since the Unix
//! epoch (UTC).

pub mod job;
pub mod state;
pub mod engine;
pub mod schedule;
pub mod trigger;
pub mod admin;
