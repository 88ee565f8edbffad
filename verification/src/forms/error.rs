//! Errors of form handling.

use vstd::prelude::*;
use crate::text::{append_decimal, append_str, append_string, decimal};

verus! {

#[derive(Debug)]
pub enum FormError {
    InvalidSchema(String),
    ValidationFailed(usize),
    UnknownField(String),
    SerializationError(String),
}

impl FormError {
    /// The human-readable message of this error.
    pub fn message(&self) -> (r: String)
        ensures
            match self {
                FormError::InvalidSchema(m) => r@ == "Invalid schema: "@ + m@,
                FormError::ValidationFailed(n) => r@ == "Validation failed: "@ + decimal(
                    *n as nat,
                ) + " error(s)"@,
                FormError::UnknownField(f) => r@ == "Unknown field: "@ + f@,
                FormError::SerializationError(m) => r@ == "Serialization error: "@ + m@,
            },
    {
        let mut s = String::new();
        match self {
            FormError::InvalidSchema(m) => {
                append_str(&mut s, "Invalid schema: ");
                append_string(&mut s, m);
            },
            FormError::ValidationFailed(n) => {
                append_str(&mut s, "Validation failed: ");
                append_decimal(&mut s, *n as u64);
                append_str(&mut s, " error(s)");
            },
            FormError::UnknownField(f) => {
                append_str(&mut s, "Unknown field: ");
                append_string(&mut s, f);
            },
            FormError::SerializationError(m) => {
                append_str(&mut s, "Serialization error: ");
                append_string(&mut s, m);
            },
        }
        s
    }
}

} // verus!
