//! The database layer's pure parts: SQL text for common statements, a query
//! builder, migrations and the bookkeeping of which have been applied, an
//! in-memory repository and an in-memory pool of tables.

pub mod error;
pub mod sql;
pub mod migration;
pub mod query;
pub mod runner;
pub mod repository;
pub mod pool;
