//! Errors of fitting or loading a model, and the shape check made before a
//! fit.

use vstd::prelude::*;
use crate::text::{append_str, append_string};

verus! {

#[derive(Debug)]
pub enum MlError {
    Empty,
    DimMismatch,
    Singular,
    Serde(String),
}

impl MlError {
    /// The human-readable message of this error.
    pub fn message(&self) -> (r: String)
        ensures
            match self {
                MlError::Empty => r@ == "empty training data"@,
                MlError::DimMismatch => r@ == "dimension mismatch"@,
                MlError::Singular => r@ == "singular matrix — cannot solve"@,
                MlError::Serde(m) => r@ == "serialization error: "@ + m@,
            },
    {
        let mut s = String::new();
        match self {
            MlError::Empty => append_str(&mut s, "empty training data"),
            MlError::DimMismatch => append_str(&mut s, "dimension mismatch"),
            MlError::Singular => append_str(&mut s, "singular matrix — cannot solve"),
            MlError::Serde(m) => {
                append_str(&mut s, "serialization error: ");
                append_string(&mut s, m);
            },
        }
        s
    }
}

/// The number of features, when the training data has a shape a fit accepts:
/// `Empty` without rows or targets, `DimMismatch` when the counts differ, the
/// first row is empty, or any row's length differs from the first's.
/// `row_lens` holds the length of each feature row.
pub fn check_shapes(row_lens: &Vec<usize>, n_targets: usize) -> (r: Result<usize, MlError>)
    ensures
        (row_lens@.len() == 0 || n_targets == 0) ==> (r matches Err(MlError::Empty)),
        (row_lens@.len() > 0 && n_targets > 0 && row_lens@.len() != n_targets) ==> (r matches Err(
            MlError::DimMismatch,
        )),
        (row_lens@.len() > 0 && n_targets > 0 && row_lens@.len() == n_targets) ==> (if row_lens@[0] == 0 || exists|i: int|
            0 <= i < row_lens@.len() && #[trigger] row_lens@[i] != row_lens@[0] {
            r matches Err(MlError::DimMismatch)
        } else {
            r == Ok::<usize, MlError>(row_lens@[0])
        }),
{
    if row_lens.len() == 0 || n_targets == 0 {
        return Err(MlError::Empty);
    }
    if row_lens.len() != n_targets {
        return Err(MlError::DimMismatch);
    }
    let k = row_lens[0];
    if k == 0 {
        return Err(MlError::DimMismatch);
    }
    let mut i: usize = 0;
    while i < row_lens.len()
        invariant
            i <= row_lens@.len(),
            row_lens@.len() > 0,
            n_targets > 0,
            row_lens@.len() == n_targets,
            k == row_lens@[0],
            k > 0,
            forall|j: int| 0 <= j < i ==> #[trigger] row_lens@[j] == k,
        decreases row_lens@.len() - i,
    {
        if row_lens[i] != k {
            return Err(MlError::DimMismatch);
        }
        i += 1;
    }
    Ok(k)
}

} // verus!
