//! The per-request runtime: identifiers, request context and permissions,
//! configuration defaults, session state, resources and the handler-language
//! lexer.

pub mod error;
pub mod ids;
pub mod context;
pub mod config;
pub mod state;
pub mod resource;
pub mod lexer;
pub mod syntax;
pub mod methods;
pub mod assign;
pub mod access;
