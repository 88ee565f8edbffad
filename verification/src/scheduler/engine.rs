//! How a job's state moves: a run begins, its outcome is applied (retry with
//! backoff, or failure and back to the normal cadence), catch-up at start, and
//! the order in which ready jobs leave a lane's queue.

use vstd::prelude::*;
use crate::text::string_from;
use crate::scheduler::job::{priority_rank, Lane, Priority};
use crate::scheduler::state::{JobState, RunStatus};
use crate::scheduler::schedule::{describe_spec, Schedule};

verus! {

/// One minute in nanoseconds.
pub const MINUTE_NANOS: i128 = 60_000_000_000;

/// The delay before the next attempt after attempt `attempt` (from 1)
/// failed: 1, then 5, then 15 minutes.
pub open spec fn backoff_spec(attempt: u32) -> int {
    if attempt == 1 {
        MINUTE_NANOS as int
    } else if attempt == 2 {
        5 * MINUTE_NANOS
    } else {
        15 * MINUTE_NANOS
    }
}

/// `backoff_spec`, in nanoseconds.
pub fn backoff(attempt: u32) -> (r: i128)
    ensures
        r == backoff_spec(attempt),
{
    if attempt == 1 {
        MINUTE_NANOS
    } else if attempt == 2 {
        5 * MINUTE_NANOS
    } else {
        15 * MINUTE_NANOS
    }
}

/// How a handler run ended.
#[derive(Debug)]
pub enum Outcome {
    Succeeded,
    Failed(String),
}

/// What a run's outcome does to a job's state: the run is recorded; success
/// resets the failure streak and resumes the cadence; a failure with attempts
/// left retries after a backoff; the last failed attempt marks the job failed
/// and resumes the cadence.
pub open spec fn after_outcome(
    st: JobState,
    outcome: Outcome,
    attempt: u32,
    max_attempts: u32,
    duration_ms: u64,
    now: i128,
    next_scheduled: i128,
) -> JobState {
    let base = JobState { last_run: Some(now), last_duration_ms: Some(duration_ms), updated_at: now, ..st };
    match outcome {
        Outcome::Succeeded => JobState {
            status: RunStatus::Succeeded,
            last_error: None,
            attempt: 0,
            consecutive_failures: 0,
            total_runs: (st.total_runs + 1) as u64,
            next_run: Some(next_scheduled),
            ..base
        },
        Outcome::Failed(msg) => if attempt < max_attempts {
            JobState {
                status: RunStatus::Retrying,
                attempt,
                last_error: Some(msg),
                next_run: Some((now + backoff_spec(attempt)) as i128),
                total_failures: (st.total_failures + 1) as u64,
                ..base
            }
        } else {
            JobState {
                status: RunStatus::Failed,
                attempt: 0,
                consecutive_failures: (st.consecutive_failures + 1) as u32,
                last_error: Some(msg),
                next_run: Some(next_scheduled),
                total_failures: (st.total_failures + 1) as u64,
                ..base
            }
        },
    }
}

/// Applies a run's outcome to the job's state (`after_outcome`).
/// `next_scheduled` is the schedule's next time after `now`.
pub fn apply_outcome(
    st: &mut JobState,
    outcome: Outcome,
    attempt: u32,
    max_attempts: u32,
    duration_ms: u64,
    now: i128,
    next_scheduled: i128,
)
    requires
        outcome is Succeeded ==> old(st).total_runs < u64::MAX,
        outcome is Failed ==> old(st).total_failures < u64::MAX,
        outcome is Failed && attempt < max_attempts ==> now + backoff_spec(attempt) <= i128::MAX,
        outcome is Failed && attempt >= max_attempts ==> old(st).consecutive_failures < u32::MAX,
    ensures
        *final(st) == after_outcome(*old(st), outcome, attempt, max_attempts, duration_ms, now, next_scheduled),
{
    st.last_run = Some(now);
    st.last_duration_ms = Some(duration_ms);
    st.updated_at = now;
    match outcome {
        Outcome::Succeeded => {
            st.status = RunStatus::Succeeded;
            st.last_error = None;
            st.attempt = 0;
            st.consecutive_failures = 0;
            st.total_runs = st.total_runs + 1;
            st.next_run = Some(next_scheduled);
        },
        Outcome::Failed(msg) => {
            st.total_failures = st.total_failures + 1;
            if attempt < max_attempts {
                st.status = RunStatus::Retrying;
                st.attempt = attempt;
                st.last_error = Some(msg);
                st.next_run = Some(now + backoff(attempt));
            } else {
                st.status = RunStatus::Failed;
                st.attempt = 0;
                st.consecutive_failures = st.consecutive_failures + 1;
                st.last_error = Some(msg);
                st.next_run = Some(next_scheduled);
            }
        },
    }
}

/// At start: the next run to keep, and whether to run once now (see
/// `catch_up_decision`).
pub open spec fn catch_up_spec(persisted_next: Option<i128>, catch_up: bool, now: i128, next_scheduled: i128) -> (
    i128,
    bool,
) {
    match persisted_next {
        Some(nr) => if nr <= now {
            (next_scheduled, catch_up)
        } else {
            (nr, false)
        },
        None => (next_scheduled, false),
    }
}

/// At start: the next run to keep, and whether to run once now. A missed
/// run (due at or before `now`) resumes the cadence and runs now only with
/// catch-up; a future run is kept; a job never scheduled takes the cadence.
pub fn catch_up_decision(persisted_next: Option<i128>, catch_up: bool, now: i128, next_scheduled: i128) -> (r: (
    i128,
    bool,
))
    ensures
        r == catch_up_spec(persisted_next, catch_up, now, next_scheduled),
{
    match persisted_next {
        Some(nr) => {
            if nr <= now {
                (next_scheduled, catch_up)
            } else {
                (nr, false)
            }
        },
        None => (next_scheduled, false),
    }
}

/// Whether a job with next run `next` is due at `now`.
pub open spec fn is_due(next: Option<i128>, now: i128) -> bool {
    next matches Some(t) && t <= now
}

/// The positions of the due jobs, in order.
pub open spec fn due_positions(next_runs: Seq<Option<i128>>, now: i128) -> Seq<int>
    decreases next_runs.len(),
{
    if next_runs.len() == 0 {
        seq![]
    } else {
        let rest = due_positions(next_runs.drop_last(), now);
        if is_due(next_runs.last(), now) {
            rest.push(next_runs.len() - 1)
        } else {
            rest
        }
    }
}

/// Whether `next` is a run still ahead of `now`.
pub open spec fn ahead(next: Option<i128>, now: i128) -> bool {
    next matches Some(t) && t > now
}

/// The time from `now` until `nr`, which is later.
fn gap(now: i128, nr: i128) -> (r: u128)
    requires
        now < nr,
    ensures
        r == nr - now,
{
    if now >= 0 || nr < 0 {
        (nr - now) as u128
    } else {
        let below: i128 = -(now + 1);
        nr as u128 + below as u128 + 1
    }
}

/// How long the tick loop sleeps: the shortest time until a next run that is
/// still ahead of `now`, and never longer than `floor`.
pub fn sleep_for(next_runs: &Vec<Option<i128>>, now: i128, floor: u128) -> (r: u128)
    ensures
        r <= floor,
        forall|i: int|
            0 <= i < next_runs.len() && ahead(#[trigger] next_runs@[i], now) ==> r
                <= next_runs@[i]->0 - now,
        r == floor || exists|i: int|
            0 <= i < next_runs.len() && ahead(#[trigger] next_runs@[i], now) && r
                == next_runs@[i]->0 - now,
{
    let mut sleep = floor;
    let mut i: usize = 0;
    while i < next_runs.len()
        invariant
            i <= next_runs.len(),
            sleep <= floor,
            forall|j: int|
                0 <= j < i && ahead(#[trigger] next_runs@[j], now) ==> sleep <= next_runs@[j]->0
                    - now,
            sleep == floor || exists|j: int|
                0 <= j < i && ahead(#[trigger] next_runs@[j], now) && sleep == next_runs@[j]->0
                    - now,
        decreases next_runs.len() - i,
    {
        if let Some(nr) = next_runs[i] {
            if nr > now {
                let d = gap(now, nr);
                if d < sleep {
                    sleep = d;
                }
            }
        }
        i += 1;
    }
    sleep
}

/// The positions of the jobs whose next run is at or before `now`, in
/// order: the ones the tick loop hands to their lanes.
pub fn due(next_runs: &Vec<Option<i128>>, now: i128) -> (r: Vec<usize>)
    ensures
        r@.map_values(|k: usize| k as int) == due_positions(next_runs@, now),
{
    let mut out: Vec<usize> = Vec::new();
    let mut i: usize = 0;
    while i < next_runs.len()
        invariant
            i <= next_runs.len(),
            out@.map_values(|k: usize| k as int) == due_positions(next_runs@.take(i as int), now),
        decreases next_runs.len() - i,
    {
        proof {
            assert(next_runs@.take(i + 1).drop_last() =~= next_runs@.take(i as int));
            assert(next_runs@.take(i + 1).last() == next_runs@[i as int]);
        }
        let is_now = match next_runs[i] {
            Some(nr) => nr <= now,
            None => false,
        };
        if is_now {
            proof {
                assert(out@.push(i).map_values(|k: usize| k as int) =~= out@.map_values(
                    |k: usize| k as int,
                ).push(i as int));
            }
            out.push(i);
        }
        i += 1;
    }
    proof {
        assert(next_runs@.take(next_runs.len() as int) =~= next_runs@);
    }
    out
}

/// The order of a lane's ready queue: higher priority first, then the one
/// due earlier.
#[derive(Debug, Clone, Copy, PartialEq, Eq, Structural)]
pub struct ReadyKey {
    pub priority: Priority,
    pub due: i128,
}

/// Whether `a` leaves the queue before `b` (or ties with it).
pub open spec fn goes_first(a: ReadyKey, b: ReadyKey) -> bool {
    priority_rank(a.priority) > priority_rank(b.priority) || (priority_rank(a.priority) == priority_rank(
        b.priority,
    ) && a.due <= b.due)
}

impl ReadyKey {
    /// `goes_first(*self, *other)`.
    pub fn goes_first(&self, other: &ReadyKey) -> (r: bool)
        ensures
            r == goes_first(*self, *other),
    {
        let a = self.priority.rank();
        let b = other.priority.rank();
        a > b || (a == b && self.due <= other.due)
    }
}

/// The jobs of one lane waiting to run.
pub struct ReadyQueue {
    items: Vec<(ReadyKey, String)>,
}

impl View for ReadyQueue {
    type V = Seq<(ReadyKey, Seq<char>)>;

    closed spec fn view(&self) -> Seq<(ReadyKey, Seq<char>)> {
        Seq::new(self.items@.len(), |i: int| (self.items@[i].0, self.items@[i].1@))
    }
}

impl ReadyQueue {
    pub fn new() -> (r: Self)
        ensures
            r@.len() == 0,
    {
        ReadyQueue { items: Vec::new() }
    }

    /// Adds job `name`, due `due` with `priority`.
    pub fn push(&mut self, priority: Priority, due: i128, name: &str)
        ensures
            final(self)@ == old(self)@.push((ReadyKey { priority, due }, name@)),
    {
        self.items.push((ReadyKey { priority, due }, string_from(name)));
        proof {
            assert(self@ =~= old(self)@.push((ReadyKey { priority, due }, name@)));
        }
    }

    /// Takes out a job that goes first: no job in the queue goes before it.
    pub fn pop(&mut self) -> (r: Option<String>)
        ensures
            old(self)@.len() == 0 ==> r is None && final(self)@ == old(self)@,
            old(self)@.len() > 0 ==> exists|i: int| {
                &&& 0 <= i < old(self)@.len()
                &&& r matches Some(n) && n@ == old(self)@[i].1
                &&& final(self)@ == old(self)@.remove(i)
                &&& forall|j: int| 0 <= j < old(self)@.len() ==> goes_first(old(self)@[i].0, #[trigger] old(self)@[j].0)
            },
    {
        if self.items.len() == 0 {
            return None;
        }
        let mut best: usize = 0;
        let mut k: usize = 1;
        while k < self.items.len()
            invariant
                1 <= k <= self.items@.len(),
                best < k,
                self.items@ == old(self).items@,
                forall|j: int| 0 <= j < k ==> goes_first(self.items@[best as int].0, #[trigger] self.items@[j].0),
            decreases self.items@.len() - k,
        {
            if !self.items[best].0.goes_first(&self.items[k].0) {
                best = k;
            }
            k += 1;
        }
        let (_, name) = self.items.remove(best);
        proof {
            assert(self@ =~= old(self)@.remove(best as int));
        }
        Some(name)
    }
}

/// The state of a job as it starts attempt `st.attempt + 1` at `now`.
pub fn begin_run(st: &mut JobState, now: i128) -> (attempt: u32)
    requires
        old(st).attempt < u32::MAX,
    ensures
        attempt == old(st).attempt + 1,
        *final(st) == (JobState { status: RunStatus::Running, attempt, updated_at: now, ..*old(st) }),
{
    let attempt = st.attempt + 1;
    st.status = RunStatus::Running;
    st.attempt = attempt;
    st.updated_at = now;
    attempt
}

/// At start, a job found running (the process stopped mid-run) is pending
/// again; other states are kept.
pub fn recover(st: &mut JobState)
    ensures
        *final(st) == if old(st).status == RunStatus::Running {
            JobState { status: RunStatus::Pending, ..*old(st) }
        } else {
            *old(st)
        },
{
    if st.status == RunStatus::Running {
        st.status = RunStatus::Pending;
    }
}

/// The name of a lane on a job's record.
pub open spec fn lane_name(l: Lane) -> Seq<char> {
    match l {
        Lane::Light => "light"@,
        Lane::Heavy => "heavy"@,
    }
}

/// The name of a priority on a job's record.
pub open spec fn priority_name(p: Priority) -> Seq<char> {
    match p {
        Priority::Low => "low"@,
        Priority::Normal => "normal"@,
        Priority::High => "high"@,
        Priority::Critical => "critical"@,
    }
}

/// The name the job table shows for a lane.
pub fn lane_str(l: Lane) -> (r: &'static str)
    ensures
        r@ == lane_name(l),
{
    match l {
        Lane::Light => "light",
        Lane::Heavy => "heavy",
    }
}

/// The name the job table shows for a priority.
pub fn priority_str(p: Priority) -> (r: &'static str)
    ensures
        r@ == priority_name(p),
{
    match p {
        Priority::Low => "low",
        Priority::Normal => "normal",
        Priority::High => "high",
        Priority::Critical => "critical",
    }
}

/// Success leaves no streak of failures and no error, and schedules the
/// next run on the cadence; a retry keeps the streak and waits the backoff.
pub proof fn law_outcome_resets_or_retries(
    st: JobState,
    msg: String,
    attempt: u32,
    max_attempts: u32,
    duration_ms: u64,
    now: i128,
    next_scheduled: i128,
)
    ensures
        after_outcome(st, Outcome::Succeeded, attempt, max_attempts, duration_ms, now, next_scheduled).consecutive_failures == 0,
        after_outcome(st, Outcome::Succeeded, attempt, max_attempts, duration_ms, now, next_scheduled).last_error is None,
        after_outcome(st, Outcome::Succeeded, attempt, max_attempts, duration_ms, now, next_scheduled).next_run
            == Some(next_scheduled),
        attempt < max_attempts ==> after_outcome(st, Outcome::Failed(msg), attempt, max_attempts, duration_ms, now, next_scheduled).consecutive_failures
            == st.consecutive_failures,
        attempt < max_attempts ==> after_outcome(st, Outcome::Failed(msg), attempt, max_attempts, duration_ms, now, next_scheduled).status
            == RunStatus::Retrying,
        attempt >= max_attempts ==> after_outcome(st, Outcome::Failed(msg), attempt, max_attempts, duration_ms, now, next_scheduled).status
            == RunStatus::Failed,
        attempt >= max_attempts ==> after_outcome(st, Outcome::Failed(msg), attempt, max_attempts, duration_ms, now, next_scheduled).next_run
            == Some(next_scheduled),
{
}

/// The backoff never shrinks as attempts go on.
pub proof fn law_backoff_grows(a: u32, b: u32)
    requires
        1 <= a <= b,
    ensures
        backoff_spec(a) <= backoff_spec(b),
{
}

/// The start-up step for one job: its stored state, or a fresh one named
/// `name` if none was stored, takes the job's lane, priority and schedule
/// text; a run cut short is pending again; catch-up then sets the next run
/// from `next_scheduled` (the schedule's first time after `now`) and says
/// whether the job runs once now.
pub fn boot_job(
    stored: Option<JobState>,
    name: &str,
    lane: Lane,
    priority: Priority,
    schedule: &Schedule,
    catch_up: bool,
    now: i128,
    next_scheduled: i128,
) -> (r: (JobState, bool))
    ensures
        r.0.job@ == (match stored {
            Some(st) => st.job@,
            None => name@,
        }),
        r.0.lane@ == lane_name(lane),
        r.0.priority@ == priority_name(priority),
        r.0.schedule@ == describe_spec(*schedule),
        r.0.status == (match stored {
            Some(st) => if st.status == RunStatus::Running {
                RunStatus::Pending
            } else {
                st.status
            },
            None => RunStatus::Pending,
        }),
        match stored {
            Some(st) => {
                &&& r.0.last_run == st.last_run
                &&& r.0.last_duration_ms == st.last_duration_ms
                &&& r.0.last_error == st.last_error
                &&& r.0.attempt == st.attempt
                &&& r.0.consecutive_failures == st.consecutive_failures
                &&& r.0.total_runs == st.total_runs
                &&& r.0.total_failures == st.total_failures
                &&& r.0.updated_at == st.updated_at
            },
            None => {
                &&& r.0.last_run is None
                &&& r.0.last_duration_ms is None
                &&& r.0.last_error is None
                &&& r.0.attempt == 0
                &&& r.0.consecutive_failures == 0
                &&& r.0.total_runs == 0
                &&& r.0.total_failures == 0
                &&& r.0.updated_at == now
            },
        },
        ({
            let d = catch_up_spec(
                match stored {
                    Some(st) => st.next_run,
                    None => None,
                },
                catch_up,
                now,
                next_scheduled,
            );
            r.0.next_run == Some(d.0) && r.1 == d.1
        }),
{
    let lane_s = lane_str(lane);
    let prio_s = priority_str(priority);
    let sched_s = schedule.describe();
    let mut st = match stored {
        Some(st) => st,
        None => JobState::seed(name, lane_s, prio_s, sched_s.as_str(), now),
    };
    st.lane = string_from(lane_s);
    st.priority = string_from(prio_s);
    st.schedule = sched_s;
    recover(&mut st);
    let (next_run, run_now) = catch_up_decision(st.next_run, catch_up, now, next_scheduled);
    st.next_run = Some(next_run);
    (st, run_now)
}


/// `a` is more urgent than `b` in the declared order
/// `Low < Normal < High < Critical`.
pub open spec fn more_urgent(a: Priority, b: Priority) -> bool {
    match (a, b) {
        (Priority::Critical, Priority::High) => true,
        (Priority::Critical, Priority::Normal) => true,
        (Priority::Critical, Priority::Low) => true,
        (Priority::High, Priority::Normal) => true,
        (Priority::High, Priority::Low) => true,
        (Priority::Normal, Priority::Low) => true,
        _ => false,
    }
}

/// A ready job of strictly higher priority leaves the queue first, however
/// late it is due; among jobs of one priority the one due earlier goes
/// first.
pub proof fn law_priority_before_due(a: ReadyKey, b: ReadyKey)
    ensures
        more_urgent(a.priority, b.priority) ==> goes_first(a, b) && !goes_first(b, a),
        more_urgent(a.priority, b.priority) ==> priority_rank(a.priority) > priority_rank(b.priority),
        a.priority == b.priority ==> (goes_first(a, b) <==> a.due <= b.due),
{
}

/// What `pop` takes out is never less urgent than anything left behind.
pub proof fn law_pop_most_urgent(q: Seq<(ReadyKey, Seq<char>)>, i: int)
    requires
        0 <= i < q.len(),
        forall|j: int| 0 <= j < q.len() ==> goes_first(q[i].0, #[trigger] q[j].0),
    ensures
        forall|j: int| 0 <= j < q.len() ==> !more_urgent(#[trigger] q[j].0.priority, q[i].0.priority),
{
    assert forall|j: int| 0 <= j < q.len() implies !more_urgent(#[trigger] q[j].0.priority, q[i].0.priority) by {
        assert(goes_first(q[i].0, q[j].0));
        law_priority_before_due(q[j].0, q[i].0);
    }
}


/// At start a job never runs twice for one missed time: it runs once now
/// only with catch-up on and a stored run already due, and the run it keeps
/// is the stored one when that is still ahead, otherwise the schedule's
/// next time; so with the schedule's next time ahead of `now`, the kept run
/// is ahead of `now` too.
pub proof fn law_catch_up_keeps_future(persisted_next: Option<i128>, catch_up: bool, now: i128, next_scheduled: i128)
    ensures
        ({
            let (next, run_now) = catch_up_spec(persisted_next, catch_up, now, next_scheduled);
            &&& run_now ==> (catch_up && persisted_next is Some && persisted_next->0 <= now)
            &&& (persisted_next is Some && persisted_next->0 > now) ==> next == persisted_next->0
            &&& !(persisted_next is Some && persisted_next->0 > now) ==> next == next_scheduled
            &&& next_scheduled > now ==> next > now
        }),
{
}

} // verus!
