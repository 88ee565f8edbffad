//! The event bus's pure parts: events and their errors, coalescing of
//! repeated keys, the delivery gate of an ephemeral subscriber, the
//! bookkeeping of the durable log, and the admin table of subscription
//! states.

pub mod event;
pub mod throttle;
pub mod subscription;

pub mod admin;
pub mod log;
