//! Form schemas: field types and constraints, JSON values, field and
//! cross-field validation, and sanitizers.

pub mod error;
pub mod schema;
pub mod validation;
pub mod json;
pub mod number;
pub mod fields;
pub mod rules;
pub mod sanitize;
pub mod form;
