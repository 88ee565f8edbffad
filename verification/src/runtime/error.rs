//! Errors of the runtime.

use vstd::prelude::*;
use crate::text::{append_str, append_string};
use crate::runtime::ids::UserId;

verus! {

#[derive(Debug)]
pub enum RuntimeError {
    Unauthenticated,
    PermissionDenied { permission: String, user_id: Option<UserId> },
    TenantRequired,
    SessionNotFound(String),
    InvalidSession,
    RateLimitExceeded,
    UnknownHandler(String),
    ValidationError(String),
    Internal(String),
}

impl RuntimeError {
    /// The human-readable message of this error.
    pub fn message(&self) -> (r: String)
        ensures
            match self {
                RuntimeError::Unauthenticated => r@ == "Unauthenticated"@,
                RuntimeError::PermissionDenied { permission, .. } => r@ == "Permission denied: "@
                    + permission@,
                RuntimeError::TenantRequired => r@ == "Tenant required"@,
                RuntimeError::SessionNotFound(s) => r@ == "Session not found: "@ + s@,
                RuntimeError::InvalidSession => r@ == "Invalid session"@,
                RuntimeError::RateLimitExceeded => r@ == "Rate limit exceeded"@,
                RuntimeError::UnknownHandler(h) => r@ == "Unknown handler: "@ + h@,
                RuntimeError::ValidationError(m) => r@ == "Validation error: "@ + m@,
                RuntimeError::Internal(m) => r@ == "Internal error: "@ + m@,
            },
    {
        let mut s = String::new();
        match self {
            RuntimeError::Unauthenticated => append_str(&mut s, "Unauthenticated"),
            RuntimeError::PermissionDenied { permission, .. } => {
                append_str(&mut s, "Permission denied: ");
                append_string(&mut s, permission);
            },
            RuntimeError::TenantRequired => append_str(&mut s, "Tenant required"),
            RuntimeError::SessionNotFound(x) => {
                append_str(&mut s, "Session not found: ");
                append_string(&mut s, x);
            },
            RuntimeError::InvalidSession => append_str(&mut s, "Invalid session"),
            RuntimeError::RateLimitExceeded => append_str(&mut s, "Rate limit exceeded"),
            RuntimeError::UnknownHandler(h) => {
                append_str(&mut s, "Unknown handler: ");
                append_string(&mut s, h);
            },
            RuntimeError::ValidationError(m) => {
                append_str(&mut s, "Validation error: ");
                append_string(&mut s, m);
            },
            RuntimeError::Internal(m) => {
                append_str(&mut s, "Internal error: ");
                append_string(&mut s, m);
            },
        }
        s
    }
}

} // verus!
