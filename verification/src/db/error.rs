//! Errors of the database layer.

use vstd::prelude::*;
use crate::text::{append_str, append_string};

verus! {

#[derive(Debug)]
pub enum DbError {
    NotFound,
    Duplicate,
    TenantScopeRequired,
    QueryError(String),
    MigrationError(String),
    ConnectionError(String),
}

/// The human-readable message of `e`.
pub open spec fn error_text(e: DbError) -> Seq<char> {
    match e {
        DbError::NotFound => "Record not found"@,
        DbError::Duplicate => "Duplicate record"@,
        DbError::TenantScopeRequired => "Tenant scope required"@,
        DbError::QueryError(m) => "Query error: "@ + m@,
        DbError::MigrationError(m) => "Migration error: "@ + m@,
        DbError::ConnectionError(m) => "Connection error: "@ + m@,
    }
}

impl DbError {
    /// The human-readable message of this error.
    pub fn message(&self) -> (r: String)
        ensures
            r@ == error_text(*self),
            match self {
                DbError::NotFound => r@ == "Record not found"@,
                DbError::Duplicate => r@ == "Duplicate record"@,
                DbError::TenantScopeRequired => r@ == "Tenant scope required"@,
                DbError::QueryError(m) => r@ == "Query error: "@ + m@,
                DbError::MigrationError(m) => r@ == "Migration error: "@ + m@,
                DbError::ConnectionError(m) => r@ == "Connection error: "@ + m@,
            },
    {
        let mut s = String::new();
        match self {
            DbError::NotFound => append_str(&mut s, "Record not found"),
            DbError::Duplicate => append_str(&mut s, "Duplicate record"),
            DbError::TenantScopeRequired => append_str(&mut s, "Tenant scope required"),
            DbError::QueryError(m) => {
                append_str(&mut s, "Query error: ");
                append_string(&mut s, m);
            },
            DbError::MigrationError(m) => {
                append_str(&mut s, "Migration error: ");
                append_string(&mut s, m);
            },
            DbError::ConnectionError(m) => {
                append_str(&mut s, "Connection error: ");
                append_string(&mut s, m);
            },
        }
        s
    }
}

} // verus!
