//! Errors of the `.adapto` parser.

use vstd::prelude::*;
use crate::text::{append_decimal, append_str, append_string, decimal};

verus! {

/// The platform's I/O error type, carried by `ParseError::Io`.
#[verifier::external_type_specification]
#[verifier::external_body]
pub struct ExIoError(std::io::Error);

#[derive(Debug)]
pub enum ParseError {
    Syntax { line: usize, col: usize, message: String },
    UnknownBlock(String),
    DuplicateBlock(String),
    MissingField { block: String, field: String },
    InvalidValue { field: String, value: String, reason: String },
    UnclosedBlock(String),
    UnexpectedToken(String),
    Io(std::io::Error),
}

pub type ParseResult<T> = Result<T, ParseError>;

/// A parse error with its texts as character sequences.
pub enum ErrModel {
    Syntax { line: int, col: int, message: Seq<char> },
    UnknownBlock(Seq<char>),
    DuplicateBlock(Seq<char>),
    MissingField { block: Seq<char>, field: Seq<char> },
    InvalidValue { field: Seq<char>, value: Seq<char>, reason: Seq<char> },
    UnclosedBlock(Seq<char>),
    UnexpectedToken(Seq<char>),
    Io,
}

impl View for ParseError {
    type V = ErrModel;

    open spec fn view(&self) -> ErrModel {
        match self {
            ParseError::Syntax { line, col, message } => ErrModel::Syntax {
                line: *line as int,
                col: *col as int,
                message: message@,
            },
            ParseError::UnknownBlock(b) => ErrModel::UnknownBlock(b@),
            ParseError::DuplicateBlock(b) => ErrModel::DuplicateBlock(b@),
            ParseError::MissingField { block, field } => ErrModel::MissingField {
                block: block@,
                field: field@,
            },
            ParseError::InvalidValue { field, value, reason } => ErrModel::InvalidValue {
                field: field@,
                value: value@,
                reason: reason@,
            },
            ParseError::UnclosedBlock(b) => ErrModel::UnclosedBlock(b@),
            ParseError::UnexpectedToken(t) => ErrModel::UnexpectedToken(t@),
            ParseError::Io(_) => ErrModel::Io,
        }
    }
}

/// The text `{}` formatting prints for an I/O error (its `Display` impl).
#[verifier::external_body]
fn io_error_text(e: &std::io::Error) -> String {
    format!("{}", e)
}

impl ParseError {
    /// The human-readable message of this error.
    pub fn message(&self) -> (r: String)
        ensures
            match self {
                ParseError::Syntax { line, col, message } => r@ == "Parse error at line "@
                    + decimal(*line as nat) + ", col "@ + decimal(*col as nat) + ": "@ + message@,
                ParseError::UnknownBlock(b) => r@ == "Unknown block type: "@ + b@,
                ParseError::DuplicateBlock(b) => r@ == "Duplicate block: "@ + b@,
                ParseError::MissingField { block, field } => r@ == "Missing required field '"@
                    + field@ + "' in "@ + block@,
                ParseError::InvalidValue { field, value, reason } => r@ == "Invalid value '"@
                    + value@ + "' for field '"@ + field@ + "': "@ + reason@,
                ParseError::UnclosedBlock(b) => r@ == "Unclosed block: "@ + b@,
                ParseError::UnexpectedToken(t) => r@ == "Unexpected token: "@ + t@,
                ParseError::Io(_) => exists|t: Seq<char>| r@ == "IO error: "@ + t,
            },
    {
        let mut s = String::new();
        match self {
            ParseError::Syntax { line, col, message } => {
                append_str(&mut s, "Parse error at line ");
                append_decimal(&mut s, *line as u64);
                append_str(&mut s, ", col ");
                append_decimal(&mut s, *col as u64);
                append_str(&mut s, ": ");
                append_string(&mut s, message);
            },
            ParseError::UnknownBlock(b) => {
                append_str(&mut s, "Unknown block type: ");
                append_string(&mut s, b);
            },
            ParseError::DuplicateBlock(b) => {
                append_str(&mut s, "Duplicate block: ");
                append_string(&mut s, b);
            },
            ParseError::MissingField { block, field } => {
                append_str(&mut s, "Missing required field '");
                append_string(&mut s, field);
                append_str(&mut s, "' in ");
                append_string(&mut s, block);
            },
            ParseError::InvalidValue { field, value, reason } => {
                append_str(&mut s, "Invalid value '");
                append_string(&mut s, value);
                append_str(&mut s, "' for field '");
                append_string(&mut s, field);
                append_str(&mut s, "': ");
                append_string(&mut s, reason);
            },
            ParseError::UnclosedBlock(b) => {
                append_str(&mut s, "Unclosed block: ");
                append_string(&mut s, b);
            },
            ParseError::UnexpectedToken(t) => {
                append_str(&mut s, "Unexpected token: ");
                append_string(&mut s, t);
            },
            ParseError::Io(e) => {
                append_str(&mut s, "IO error: ");
                let t = io_error_text(e);
                append_string(&mut s, &t);
                proof {
                    assert(s@ == "IO error: "@ + t@);
                }
            },
        }
        s
    }
}

} // verus!
