//! The `.adapto` single-file-component format: block extraction and the
//! route, script, template, style, resource and layout block grammars.

pub mod ast;
pub mod error;
pub mod lex;
pub mod split;
pub mod blocks;
pub mod tmodel;
pub mod template;
pub mod file;
pub mod model;
pub mod decl;
pub mod script;
