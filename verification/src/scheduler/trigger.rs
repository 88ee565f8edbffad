//! Manual triggers: a job runs on request unless it is unknown or already
//! queued or running.

use vstd::prelude::*;
use crate::text::{append_str, append_string, string_eq, string_from};

verus! {

#[derive(Debug)]
pub enum TriggerError {
    NoSuchJob(String),
    AlreadyRunning(String),
    Stopped,
}

impl TriggerError {
    /// The human-readable message of this error.
    pub fn message(&self) -> (r: String)
        ensures
            match self {
                TriggerError::NoSuchJob(j) => r@ == "no such job: "@ + j@,
                TriggerError::AlreadyRunning(j) => r@ == "job already running: "@ + j@,
                TriggerError::Stopped => r@ == "scheduler stopped"@,
            },
    {
        let mut s = String::new();
        match self {
            TriggerError::NoSuchJob(j) => {
                append_str(&mut s, "no such job: ");
                append_string(&mut s, j);
            },
            TriggerError::AlreadyRunning(j) => {
                append_str(&mut s, "job already running: ");
                append_string(&mut s, j);
            },
            TriggerError::Stopped => append_str(&mut s, "scheduler stopped"),
        }
        s
    }
}

/// Whether `name` is one of `names`.
pub open spec fn listed(names: Seq<String>, name: Seq<char>) -> bool {
    exists|i: int| 0 <= i < names.len() && #[trigger] names[i]@ == name
}

pub(crate) fn contains(names: &Vec<String>, name: &String) -> (r: bool)
    ensures
        r == listed(names@, name@),
{
    let mut i: usize = 0;
    while i < names.len()
        invariant
            i <= names@.len(),
            forall|j: int| 0 <= j < i ==> #[trigger] names@[j]@ != name@,
        decreases names@.len() - i,
    {
        if string_eq(&names[i], name) {
            return true;
        }
        i += 1;
    }
    false
}

/// Whether `job` may be triggered: `NoSuchJob` when it is not a known job,
/// `AlreadyRunning` when it is queued or running, else `Ok` (the request is
/// then sent to the scheduler, which may have `Stopped`).
pub fn check_trigger(job_names: &Vec<String>, active: &Vec<String>, job: &str) -> (r: Result<(), TriggerError>)
    ensures
        !listed(job_names@, job@) ==> (r matches Err(TriggerError::NoSuchJob(j)) && j@ == job@),
        listed(job_names@, job@) && listed(active@, job@) ==> (r matches Err(TriggerError::AlreadyRunning(j))
            && j@ == job@),
        listed(job_names@, job@) && !listed(active@, job@) ==> r is Ok,
{
    let j = string_from(job);
    if !contains(job_names, &j) {
        return Err(TriggerError::NoSuchJob(j));
    }
    if contains(active, &j) {
        return Err(TriggerError::AlreadyRunning(j));
    }
    Ok(())
}

} // verus!
