//! What a job is: its priority, its lane, and the error its handler reports.

use vstd::prelude::*;
use crate::text::string_from;
use crate::scheduler::schedule::Schedule;

verus! {

/// How urgent a job is; a later variant is more urgent.
#[derive(Clone, Copy, Debug, PartialEq, Eq, Structural, PartialOrd, Ord, Hash)]
pub enum Priority {
    Low,
    Normal,
    High,
    Critical,
}

/// The rank of a priority: higher is more urgent.
pub open spec fn priority_rank(p: Priority) -> int {
    match p {
        Priority::Low => 0,
        Priority::Normal => 1,
        Priority::High => 2,
        Priority::Critical => 3,
    }
}

impl Priority {
    /// `priority_rank`.
    pub fn rank(&self) -> (r: u8)
        ensures
            r == priority_rank(*self),
    {
        match self {
            Priority::Low => 0,
            Priority::Normal => 1,
            Priority::High => 2,
            Priority::Critical => 3,
        }
    }
}

/// Which worker pool runs a job: many light workers, one heavy worker.
#[derive(Clone, Copy, Debug, PartialEq, Eq, Structural)]
pub enum Lane {
    Light,
    Heavy,
}

/// The failure of a job handler: a message.
#[derive(Debug)]
pub enum JobError {
    Message(String),
}

impl JobError {
    /// An error with message `s`.
    pub fn msg(s: &str) -> (r: Self)
        ensures
            r matches JobError::Message(m) && m@ == s@,
    {
        JobError::Message(string_from(s))
    }

    /// An error whose message is `text`, the rendering of another error.
    pub fn from_err(text: &str) -> (r: Self)
        ensures
            r matches JobError::Message(m) && m@ == text@,
    {
        JobError::Message(string_from(text))
    }

    /// The message of this error.
    pub fn message(&self) -> (r: String)
        ensures
            match self {
                JobError::Message(m) => r@ == m@,
            },
    {
        match self {
            JobError::Message(m) => m.clone(),
        }
    }
}

/// A job: its unique name, when it runs, in which lane, how urgently,
/// whether a run missed while stopped is made up at start, how many
/// attempts a run gets, and the handler that does the work.
pub struct Job<H> {
    pub name: String,
    pub schedule: Schedule,
    pub lane: Lane,
    pub priority: Priority,
    pub catch_up: bool,
    pub max_attempts: u32,
    pub handler: H,
}

/// A job being described; `run` finishes it with its handler.
pub struct JobBuilder {
    name: String,
    schedule: Option<Schedule>,
    lane: Lane,
    priority: Priority,
    catch_up: bool,
    max_attempts: u32,
}

impl Job<()> {
    /// Starts describing a job named `name`: no schedule yet, the light
    /// lane, normal priority, no catch-up, three attempts.
    pub fn new(name: &str) -> (r: JobBuilder)
        ensures
            r.name_of()@ == name@,
            r.schedule_of() is None,
            r.lane_of() == Lane::Light,
            r.priority_of() == Priority::Normal,
            !r.catch_up_of(),
            r.max_attempts_of() == 3,
    {
        JobBuilder {
            name: string_from(name),
            schedule: None,
            lane: Lane::Light,
            priority: Priority::Normal,
            catch_up: false,
            max_attempts: 3,
        }
    }
}

impl<H> Job<H> {
    /// The job's name.
    pub fn name(&self) -> (r: &str)
        ensures
            r@ == self.name@,
    {
        self.name.as_str()
    }
}

impl JobBuilder {
    pub closed spec fn name_of(&self) -> String {
        self.name
    }

    pub closed spec fn schedule_of(&self) -> Option<Schedule> {
        self.schedule
    }

    pub closed spec fn lane_of(&self) -> Lane {
        self.lane
    }

    pub closed spec fn priority_of(&self) -> Priority {
        self.priority
    }

    pub closed spec fn catch_up_of(&self) -> bool {
        self.catch_up
    }

    pub closed spec fn max_attempts_of(&self) -> u32 {
        self.max_attempts
    }

    /// Runs the job on schedule `s`.
    pub fn schedule(self, s: Schedule) -> (r: Self)
        ensures
            r.schedule_of() == Some(s),
            r.name_of() == self.name_of(),
            r.lane_of() == self.lane_of(),
            r.priority_of() == self.priority_of(),
            r.catch_up_of() == self.catch_up_of(),
            r.max_attempts_of() == self.max_attempts_of(),
    {
        JobBuilder { schedule: Some(s), ..self }
    }

    /// Runs the job in lane `l`.
    pub fn lane(self, l: Lane) -> (r: Self)
        ensures
            r.lane_of() == l,
            r.name_of() == self.name_of(),
            r.schedule_of() == self.schedule_of(),
            r.priority_of() == self.priority_of(),
            r.catch_up_of() == self.catch_up_of(),
            r.max_attempts_of() == self.max_attempts_of(),
    {
        JobBuilder { lane: l, ..self }
    }

    /// Gives the job priority `p`.
    pub fn priority(self, p: Priority) -> (r: Self)
        ensures
            r.priority_of() == p,
            r.name_of() == self.name_of(),
            r.schedule_of() == self.schedule_of(),
            r.lane_of() == self.lane_of(),
            r.catch_up_of() == self.catch_up_of(),
            r.max_attempts_of() == self.max_attempts_of(),
    {
        JobBuilder { priority: p, ..self }
    }

    /// Whether a run missed while stopped is made up at start.
    pub fn catch_up(self, v: bool) -> (r: Self)
        ensures
            r.catch_up_of() == v,
            r.name_of() == self.name_of(),
            r.schedule_of() == self.schedule_of(),
            r.lane_of() == self.lane_of(),
            r.priority_of() == self.priority_of(),
            r.max_attempts_of() == self.max_attempts_of(),
    {
        JobBuilder { catch_up: v, ..self }
    }

    /// How many attempts a run gets; at least one.
    pub fn max_attempts(self, n: u32) -> (r: Self)
        ensures
            r.max_attempts_of() == if n < 1 {
                1
            } else {
                n
            },
            r.name_of() == self.name_of(),
            r.schedule_of() == self.schedule_of(),
            r.lane_of() == self.lane_of(),
            r.priority_of() == self.priority_of(),
            r.catch_up_of() == self.catch_up_of(),
    {
        JobBuilder { max_attempts: if n < 1 { 1 } else { n }, ..self }
    }

    /// The job, with `handler` doing its work. A job needs a schedule.
    pub fn run<H>(self, handler: H) -> (r: Job<H>)
        requires
            self.schedule_of() is Some,
        ensures
            r.name == self.name_of(),
            r.schedule == self.schedule_of()->0,
            r.lane == self.lane_of(),
            r.priority == self.priority_of(),
            r.catch_up == self.catch_up_of(),
            r.max_attempts == self.max_attempts_of(),
            r.handler == handler,
    {
        let schedule = self.schedule.unwrap();
        Job {
            name: self.name,
            schedule,
            lane: self.lane,
            priority: self.priority,
            catch_up: self.catch_up,
            max_attempts: self.max_attempts,
            handler,
        }
    }
}

} // verus!
