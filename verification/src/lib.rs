//! Adapto: the template language, form validation, SQL generation, permission
//! checks and scheduling rules of a data-driven web framework, verified.

pub mod text;
pub mod parser;
pub mod forms;
pub mod runtime;
pub mod db;
pub mod events;
pub mod scheduler;
pub mod live;
pub mod ml;
