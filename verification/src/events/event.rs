//! Events and the error a handler reports.

use vstd::prelude::*;
use crate::text::string_from;

verus! {

/// A typed event: it names its topic, and may give a key under which
/// repeats are coalesced.
pub trait Event {
    /// The topic the event is published under.
    fn topic() -> &'static str;

    /// The key under which repeats of this event are coalesced; none by
    /// default.
    fn coalesce_key(&self) -> (r: Option<String>) {
        None
    }
}

/// The failure of an event handler: a message.
#[derive(Debug)]
pub enum EventError {
    Message(String),
}

impl EventError {
    /// An error with message `s`.
    pub fn msg(s: &str) -> (r: Self)
        ensures
            r matches EventError::Message(m) && m@ == s@,
    {
        EventError::Message(string_from(s))
    }

    /// An error whose message is `text`, the rendering of another error.
    pub fn from_err(text: &str) -> (r: Self)
        ensures
            r matches EventError::Message(m) && m@ == text@,
    {
        EventError::Message(string_from(text))
    }

    /// The message of this error.
    pub fn message(&self) -> (r: String)
        ensures
            match self {
                EventError::Message(m) => r@ == m@,
            },
    {
        match self {
            EventError::Message(m) => m.clone(),
        }
    }
}

} // verus!
