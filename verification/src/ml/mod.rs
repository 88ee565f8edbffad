//! The learning primitives' decisions that need no arithmetic on reals: the
//! errors they report and the check on the shape of training data.

pub mod error;
