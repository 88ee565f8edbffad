//! Errors of live sessions.

use vstd::prelude::*;
use crate::text::{append_str, append_string};

verus! {

#[derive(Debug)]
pub enum LiveError {
    SessionNotFound(String),
    SessionExpired,
    MaxSessionsExceeded,
    UnknownHandler(String),
    PermissionDenied(String),
    RateLimitExceeded,
    InvalidEvent(String),
    StateError(String),
    HandlerError(String),
}

impl LiveError {
    /// The human-readable message of this error.
    pub fn message(&self) -> (r: String)
        ensures
            match self {
                LiveError::SessionNotFound(s) => r@ == "Session not found: "@ + s@,
                LiveError::SessionExpired => r@ == "Session expired"@,
                LiveError::MaxSessionsExceeded => r@ == "Max sessions exceeded for user"@,
                LiveError::UnknownHandler(h) => r@ == "Unknown handler: "@ + h@,
                LiveError::PermissionDenied(p) => r@ == "Permission denied: "@ + p@,
                LiveError::RateLimitExceeded => r@ == "Rate limit exceeded"@,
                LiveError::InvalidEvent(m) => r@ == "Invalid event: "@ + m@,
                LiveError::StateError(m) => r@ == "State error: "@ + m@,
                LiveError::HandlerError(m) => r@ == "Handler error: "@ + m@,
            },
    {
        let mut s = String::new();
        match self {
            LiveError::SessionNotFound(x) => {
                append_str(&mut s, "Session not found: ");
                append_string(&mut s, x);
            },
            LiveError::SessionExpired => append_str(&mut s, "Session expired"),
            LiveError::MaxSessionsExceeded => append_str(&mut s, "Max sessions exceeded for user"),
            LiveError::UnknownHandler(x) => {
                append_str(&mut s, "Unknown handler: ");
                append_string(&mut s, x);
            },
            LiveError::PermissionDenied(x) => {
                append_str(&mut s, "Permission denied: ");
                append_string(&mut s, x);
            },
            LiveError::RateLimitExceeded => append_str(&mut s, "Rate limit exceeded"),
            LiveError::InvalidEvent(x) => {
                append_str(&mut s, "Invalid event: ");
                append_string(&mut s, x);
            },
            LiveError::StateError(x) => {
                append_str(&mut s, "State error: ");
                append_string(&mut s, x);
            },
            LiveError::HandlerError(x) => {
                append_str(&mut s, "Handler error: ");
                append_string(&mut s, x);
            },
        }
        s
    }
}

} // verus!
