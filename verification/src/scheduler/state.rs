//! The state kept for each job, and its public read view.

use vstd::prelude::*;
use crate::text::{lemma_text_order, string_from, string_lt, text_lt};

verus! {

/// Status of a job's most recent (or current) run.
#[derive(Clone, Copy, Debug, PartialEq, Eq, Structural)]
pub enum RunStatus {
    Pending,
    Running,
    Succeeded,
    Failed,
    Retrying,
}

impl RunStatus {
    /// The lower-case name of the status.
    pub fn as_str(&self) -> (r: &'static str)
        ensures
            r@ == match self {
                RunStatus::Pending => "pending"@,
                RunStatus::Running => "running"@,
                RunStatus::Succeeded => "ok"@,
                RunStatus::Failed => "failed"@,
                RunStatus::Retrying => "retrying"@,
            },
    {
        match self {
            RunStatus::Pending => "pending",
            RunStatus::Running => "running",
            RunStatus::Succeeded => "ok",
            RunStatus::Failed => "failed",
            RunStatus::Retrying => "retrying",
        }
    }
}

/// What is kept about a job between runs.
#[derive(Debug, Clone)]
pub struct JobState {
    pub job: String,
    pub lane: String,
    pub priority: String,
    pub schedule: String,
    pub status: RunStatus,
    pub last_run: Option<i128>,
    pub last_duration_ms: Option<u64>,
    pub next_run: Option<i128>,
    pub last_error: Option<String>,
    pub attempt: u32,
    pub consecutive_failures: u32,
    pub total_runs: u64,
    pub total_failures: u64,
    pub updated_at: i128,
}

impl JobState {
    /// The state of a job never run: pending, with no history.
    pub fn seed(job: &str, lane: &str, priority: &str, schedule: &str, now: i128) -> (r: Self)
        ensures
            r.job@ == job@,
            r.lane@ == lane@,
            r.priority@ == priority@,
            r.schedule@ == schedule@,
            r.status == RunStatus::Pending,
            r.last_run is None,
            r.last_duration_ms is None,
            r.next_run is None,
            r.last_error is None,
            r.attempt == 0,
            r.consecutive_failures == 0,
            r.total_runs == 0,
            r.total_failures == 0,
            r.updated_at == now,
    {
        JobState {
            job: string_from(job),
            lane: string_from(lane),
            priority: string_from(priority),
            schedule: string_from(schedule),
            status: RunStatus::Pending,
            last_run: None,
            last_duration_ms: None,
            next_run: None,
            last_error: None,
            attempt: 0,
            consecutive_failures: 0,
            total_runs: 0,
            total_failures: 0,
            updated_at: now,
        }
    }
}

/// The public view of a job's state.
#[derive(Debug, Clone)]
pub struct JobStatus {
    pub job: String,
    pub lane: String,
    pub priority: String,
    pub schedule: String,
    pub status: String,
    pub last_run: Option<i128>,
    pub last_duration_ms: Option<u64>,
    pub next_run: Option<i128>,
    pub last_error: Option<String>,
    pub consecutive_failures: u32,
    pub total_runs: u64,
    pub total_failures: u64,
}

impl JobStatus {
    /// The view of `s`: its texts, its status by name, and its counters.
    pub fn of(s: &JobState) -> (r: Self)
        ensures
            r.job@ == s.job@,
            r.lane@ == s.lane@,
            r.priority@ == s.priority@,
            r.schedule@ == s.schedule@,
            r.status@ == match s.status {
                RunStatus::Pending => "pending"@,
                RunStatus::Running => "running"@,
                RunStatus::Succeeded => "ok"@,
                RunStatus::Failed => "failed"@,
                RunStatus::Retrying => "retrying"@,
            },
            r.last_run == s.last_run,
            r.last_duration_ms == s.last_duration_ms,
            r.next_run == s.next_run,
            match (r.last_error, s.last_error) {
                (Some(a), Some(b)) => a@ == b@,
                (None, None) => true,
                _ => false,
            },
            r.consecutive_failures == s.consecutive_failures,
            r.total_runs == s.total_runs,
            r.total_failures == s.total_failures,
    {
        let last_error = match &s.last_error {
            Some(e) => Some(e.clone()),
            None => None,
        };
        JobStatus {
            job: s.job.clone(),
            lane: s.lane.clone(),
            priority: s.priority.clone(),
            schedule: s.schedule.clone(),
            status: string_from(s.status.as_str()),
            last_run: s.last_run,
            last_duration_ms: s.last_duration_ms,
            next_run: s.next_run,
            last_error,
            consecutive_failures: s.consecutive_failures,
            total_runs: s.total_runs,
            total_failures: s.total_failures,
        }
    }
}

/// `ss` is in order of job name.
pub open spec fn sorted_by_job(ss: Seq<JobStatus>) -> bool {
    forall|i: int, j: int| 0 <= i < j < ss.len() ==> !text_lt(#[trigger] ss[j].job@, #[trigger] ss[i].job@)
}

/// The statuses in order of job name, as the admin page lists them.
pub fn sort_by_job(v: Vec<JobStatus>) -> (r: Vec<JobStatus>)
    ensures
        r@.to_multiset() == v@.to_multiset(),
        sorted_by_job(r@),
{
    let ghost orig = v@;
    let n = v.len();
    let mut rest = v;
    let mut r: Vec<JobStatus> = Vec::new();
    let mut i: usize = 0;
    proof {
        assert(orig.skip(0) =~= orig);
        assert(orig.take(0) =~= Seq::<JobStatus>::empty());
        assert(r@ =~= Seq::<JobStatus>::empty());
    }
    while i < n
        invariant
            n == orig.len(),
            i <= n,
            rest@ == orig.skip(i as int),
            r@.to_multiset() == orig.take(i as int).to_multiset(),
            sorted_by_job(r@),
        decreases n - i,
    {
        let x = rest.remove(0);
        proof {
            assert(x == orig[i as int]);
            assert(rest@ =~= orig.skip(i + 1));
        }
        let mut p: usize = 0;
        while p < r.len() && !string_lt(&x.job, &r[p].job)
            invariant
                p <= r@.len(),
                forall|j: int| 0 <= j < p ==> !text_lt(x.job@, #[trigger] r@[j].job@),
            decreases r@.len() - p,
        {
            p += 1;
        }
        let ghost old_r = r@;
        r.insert(p, x);
        proof {
            vstd::seq_lib::to_multiset_insert(old_r, p as int, x);
            assert(orig.take(i + 1) =~= orig.take(i as int).push(x));
            vstd::seq_lib::to_multiset_build(orig.take(i as int), x);
            let nr = r@;
            assert(nr =~= old_r.insert(p as int, x));
            assert forall|a: int, b: int| 0 <= a < b < nr.len() implies !text_lt(#[trigger] nr[b].job@, #[trigger] nr[a].job@) by {
                if b < p {
                    assert(nr[a] == old_r[a] && nr[b] == old_r[b]);
                } else if b == p {
                    assert(nr[a] == old_r[a] && nr[b] == x);
                } else if a < p {
                    assert(nr[a] == old_r[a] && nr[b] == old_r[b - 1]);
                } else if a == p {
                    assert(nr[b] == old_r[b - 1] && nr[a] == x);
                    assert(text_lt(x.job@, old_r[p as int].job@));
                    lemma_text_order(x.job@, old_r[p as int].job@, old_r[b - 1].job@);
                    lemma_text_order(old_r[p as int].job@, old_r[b - 1].job@, x.job@);
                    lemma_text_order(old_r[b - 1].job@, x.job@, x.job@);
                } else {
                    assert(nr[a] == old_r[a - 1] && nr[b] == old_r[b - 1]);
                }
            }
        }
        i += 1;
    }
    proof {
        assert(orig.take(n as int) =~= orig);
    }
    r
}

} // verus!
