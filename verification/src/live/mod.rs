//! Live sessions: their errors, the checks on incoming events, where an
//! event goes, the patches a round of state changes produces, and the set of
//! sessions of a server with its per-user limit.

pub mod error;
pub mod event;
pub mod patch;
pub mod session;
pub mod manager;
