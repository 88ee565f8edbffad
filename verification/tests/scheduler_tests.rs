use adapto::scheduler::engine::{
    apply_outcome, backoff, begin_run, boot_job, catch_up_decision, due, sleep_for, lane_str, priority_str, recover, Outcome, ReadyQueue,
    MINUTE_NANOS,
};
use adapto::scheduler::job::{JobError, Lane, Priority};
use adapto::scheduler::state::{sort_by_job, JobState, JobStatus, RunStatus};
use adapto::scheduler::trigger::{check_trigger, TriggerError};

fn t(s: i128) -> i128 {
    s * 1_000_000_000
}

#[test]
fn ok_resets_failures_and_sets_next() {
    let mut st = JobState::seed("x", "light", "high", "d", t(0));
    st.consecutive_failures = 2;
    apply_outcome(&mut st, Outcome::Succeeded, 1, 3, 100, t(10), t(1000));
    assert_eq!(st.status, RunStatus::Succeeded);
    assert_eq!(st.consecutive_failures, 0);
    assert_eq!(st.total_runs, 1);
    assert_eq!(st.next_run, Some(t(1000)));
    assert_eq!(st.last_run, Some(t(10)));
    assert_eq!(st.last_duration_ms, Some(100));
}

#[test]
fn err_with_attempts_left_retries_with_backoff() {
    let mut st = JobState::seed("x", "light", "high", "d", t(0));
    apply_outcome(&mut st, Outcome::Failed("boom".into()), 1, 3, 50, t(100), t(99999));
    assert_eq!(st.status, RunStatus::Retrying);
    assert_eq!(st.next_run, Some(t(100) + MINUTE_NANOS));
    assert_eq!(st.total_failures, 1);
    assert_eq!(st.attempt, 1);
    assert_eq!(st.last_error, Some("boom".to_string()));
}

#[test]
fn err_final_attempt_fails_and_resumes_schedule() {
    let mut st = JobState::seed("x", "light", "high", "d", t(0));
    apply_outcome(&mut st, Outcome::Failed("boom".into()), 3, 3, 50, t(100), t(99999));
    assert_eq!(st.status, RunStatus::Failed);
    assert_eq!(st.next_run, Some(t(99999)));
    assert_eq!(st.consecutive_failures, 1);
    assert_eq!(st.attempt, 0);
}

#[test]
fn backoff_steps() {
    assert_eq!(backoff(1), MINUTE_NANOS);
    assert_eq!(backoff(2), 5 * MINUTE_NANOS);
    assert_eq!(backoff(3), 15 * MINUTE_NANOS);
    assert_eq!(backoff(9), 15 * MINUTE_NANOS);
}

#[test]
fn catch_up_true_runs_once() {
    let (next, run_now) = catch_up_decision(Some(t(10)), true, t(100), t(5000));
    assert_eq!(next, t(5000));
    assert!(run_now);
}

#[test]
fn catch_up_false_skips() {
    let (next, run_now) = catch_up_decision(Some(t(10)), false, t(100), t(5000));
    assert_eq!(next, t(5000));
    assert!(!run_now);
}

#[test]
fn future_next_run_preserved() {
    let (next, run_now) = catch_up_decision(Some(t(9999)), true, t(100), t(5000));
    assert_eq!(next, t(9999));
    assert!(!run_now);
}

#[test]
fn first_boot_takes_cadence() {
    assert_eq!(catch_up_decision(None, true, t(100), t(5000)), (t(5000), false));
}

#[test]
fn ready_key_orders_priority_then_due() {
    let mut q = ReadyQueue::new();
    q.push(Priority::Low, t(1), "low");
    q.push(Priority::High, t(5), "late-high");
    q.push(Priority::High, t(2), "early-high");
    assert_eq!(q.pop(), Some("early-high".to_string()));
    assert_eq!(q.pop(), Some("late-high".to_string()));
    assert_eq!(q.pop(), Some("low".to_string()));
    assert_eq!(q.pop(), None);
}

#[test]
fn status_view_maps_status_string() {
    let mut st = JobState::seed("x", "light", "high", "d", t(0));
    st.status = RunStatus::Retrying;
    let v = JobStatus::of(&st);
    assert_eq!(v.status, "retrying");
    assert_eq!(v.job, "x");
    assert_eq!(RunStatus::Succeeded.as_str(), "ok");
    assert_eq!(RunStatus::Pending.as_str(), "pending");
}

#[test]
fn begin_and_recover() {
    let mut st = JobState::seed("x", "light", "high", "d", t(0));
    let a = begin_run(&mut st, t(5));
    assert_eq!(a, 1);
    assert_eq!(st.status, RunStatus::Running);
    assert_eq!(st.updated_at, t(5));
    recover(&mut st);
    assert_eq!(st.status, RunStatus::Pending);
    st.status = RunStatus::Failed;
    recover(&mut st);
    assert_eq!(st.status, RunStatus::Failed);
}

#[test]
fn names_of_lanes_and_priorities() {
    assert_eq!(lane_str(Lane::Light), "light");
    assert_eq!(lane_str(Lane::Heavy), "heavy");
    assert_eq!(priority_str(Priority::Critical), "critical");
    assert_eq!(priority_str(Priority::Normal), "normal");
    assert!(Priority::High > Priority::Normal);
}

#[test]
fn job_error_messages() {
    assert_eq!(JobError::msg("boom").message(), "boom");
    assert_eq!(JobError::from_err("io failed").message(), "io failed");
}

#[test]
fn trigger_checks() {
    let names = vec!["a".to_string(), "b".to_string()];
    let active = vec!["b".to_string()];
    assert!(check_trigger(&names, &active, "a").is_ok());
    let e = check_trigger(&names, &active, "b").unwrap_err();
    assert_eq!(e.message(), "job already running: b");
    let e = check_trigger(&names, &active, "zzz").unwrap_err();
    assert!(matches!(e, TriggerError::NoSuchJob(_)));
    assert_eq!(e.message(), "no such job: zzz");
    assert_eq!(TriggerError::Stopped.message(), "scheduler stopped");
}

use adapto::scheduler::admin::render;

fn st(job: &str, status: &str) -> JobStatus {
    JobStatus {
        job: job.into(),
        lane: "light".into(),
        priority: "high".into(),
        schedule: "DailyAt 06:30".into(),
        status: status.into(),
        last_run: None,
        last_duration_ms: Some(412),
        next_run: None,
        last_error: if status == "failed" { Some("<boom>".into()) } else { None },
        consecutive_failures: 0,
        total_runs: 1,
        total_failures: 0,
    }
}

#[test]
fn renders_rows_and_run_button() {
    let html = render(&[st("currency", "ok")], "/admin/jobs");
    assert!(html.contains("currency"));
    assert!(html.contains("action=\"/admin/jobs/currency/run\""));
    assert!(html.contains("Run now"));
    assert!(html.contains("<td>—</td><td>—</td><td>412 ms</td>"));
}

#[test]
fn escapes_error_html() {
    let html = render(&[st("companies", "failed")], "/admin/jobs");
    assert!(html.contains("&lt;boom&gt;"));
    assert!(!html.contains("<boom>"));
    assert!(html.contains("<div class=\"err\">&lt;boom&gt;</div>"));
}

#[test]
fn renders_times_in_utc_minutes() {
    let mut s = st("x", "ok");
    s.last_run = Some(1_780_032_600 * 1_000_000_000 + 5);
    s.next_run = Some(-1_000_000_000);
    let html = render(&[s], "/a");
    assert!(html.contains("<td>2026-05-29 05:30 UTC</td><td>1969-12-31 23:59 UTC</td>"));
}

#[test]
fn job_statuses_sort_by_name() {
    let v = vec![
        JobStatus::of(&JobState::seed("zeta", "light", "low", "d", 0)),
        JobStatus::of(&JobState::seed("alpha", "heavy", "high", "d", 0)),
        JobStatus::of(&JobState::seed("Beta", "light", "low", "d", 0)),
    ];
    let names: Vec<String> = sort_by_job(v).into_iter().map(|s| s.job).collect();
    assert_eq!(names, vec!["Beta", "alpha", "zeta"]);
}

#[test]
fn job_builder_sets_fields() {
    let j = adapto::scheduler::job::Job::new("x")
        .schedule(adapto::scheduler::schedule::Schedule::Interval(1_000_000_000))
        .lane(Lane::Heavy)
        .priority(Priority::High)
        .catch_up(true)
        .max_attempts(5)
        .run(|_ctx: ()| async { Ok::<(), JobError>(()) });
    assert_eq!(j.name, "x");
    assert_eq!(j.lane, Lane::Heavy);
    assert_eq!(j.priority, Priority::High);
    assert!(j.catch_up);
    assert_eq!(j.max_attempts, 5);
}

#[test]
fn job_max_attempts_floor_one() {
    let j = adapto::scheduler::job::Job::new("x")
        .schedule(adapto::scheduler::schedule::Schedule::Interval(1_000_000_000))
        .max_attempts(0)
        .run(|_: ()| async { Ok::<(), JobError>(()) });
    assert_eq!(j.max_attempts, 1);
    assert_eq!(j.name(), "x");
}

#[test]
fn tick_sleeps_until_the_nearest_run_ahead() {
    let floor: u128 = 15_000_000_000;
    let runs = vec![Some(t(100)), None, Some(t(95)), Some(t(90))];
    assert_eq!(sleep_for(&runs, t(92), floor), 3_000_000_000);
    assert_eq!(sleep_for(&runs, t(92), 1_000), 1_000);
    assert_eq!(sleep_for(&vec![Some(t(200)), None], t(100), floor), floor);
    assert_eq!(sleep_for(&vec![], t(100), floor), floor);
}

#[test]
fn tick_sleep_spans_the_whole_range() {
    let runs = vec![Some(i128::MAX)];
    assert_eq!(sleep_for(&runs, i128::MIN, u128::MAX), u128::MAX);
    assert_eq!(sleep_for(&vec![Some(5)], -3, u128::MAX), 8);
}

#[test]
fn due_jobs_are_those_at_or_before_now() {
    let runs = vec![Some(t(100)), None, Some(t(95)), Some(t(90)), Some(t(92))];
    assert_eq!(due(&runs, t(92)), vec![3, 4]);
    assert_eq!(due(&runs, t(80)), Vec::<usize>::new());
    assert_eq!(due(&runs, t(100)), vec![0, 2, 3, 4]);
}

#[test]
fn boot_seeds_a_new_job_and_keeps_its_cadence() {
    let sched = adapto::scheduler::schedule::Schedule::Interval(900 * 1_000_000_000);
    let (st, run_now) = boot_job(None, "sync", Lane::Heavy, Priority::Critical, &sched, true, t(100), t(1000));
    assert_eq!(st.job, "sync");
    assert_eq!(st.lane, "heavy");
    assert_eq!(st.priority, "critical");
    assert_eq!(st.schedule, "Interval 900s");
    assert_eq!(st.status, RunStatus::Pending);
    assert_eq!(st.next_run, Some(t(1000)));
    assert_eq!(st.updated_at, t(100));
    assert!(!run_now);
}

#[test]
fn boot_recovers_a_cut_run_and_catches_up() {
    let sched = adapto::scheduler::schedule::Schedule::Interval(60 * 1_000_000_000);
    let mut stored = JobState::seed("x", "light", "low", "old", t(0));
    stored.status = RunStatus::Running;
    stored.next_run = Some(t(50));
    stored.total_runs = 7;
    let (st, run_now) = boot_job(Some(stored), "x", Lane::Light, Priority::High, &sched, true, t(100), t(160));
    assert_eq!(st.status, RunStatus::Pending);
    assert_eq!(st.priority, "high");
    assert_eq!(st.schedule, "Interval 60s");
    assert_eq!(st.total_runs, 7);
    assert_eq!(st.next_run, Some(t(160)));
    assert!(run_now);
}
