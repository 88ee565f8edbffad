use adapto::scheduler::schedule::{weekday_exec, Schedule, Weekday};

const NS: i128 = 1_000_000_000;
const ALMATY: &str = "Asia/Almaty";
const NEW_YORK: &str = "America/New_York";

fn at(secs: i128) -> i128 {
    secs * NS
}

#[test]
fn daily_at_same_day_future() {
    // 2026-05-29 05:00 in Almaty (UTC+5) is 00:00 UTC.
    let now = at(1_780_012_800);
    let s = Schedule::DailyAt { hour: 6, min: 30 };
    // 06:30 Almaty is 01:30 UTC the same day.
    assert_eq!(s.next_after(ALMATY, now).unwrap(), at(1_780_018_200));
}

#[test]
fn daily_at_already_passed_rolls_tomorrow() {
    // 2026-05-29 07:00 Almaty.
    let now = at(1_780_020_000);
    let s = Schedule::DailyAt { hour: 6, min: 30 };
    // 2026-05-30 01:30 UTC.
    assert_eq!(s.next_after(ALMATY, now).unwrap(), at(1_780_104_600));
}

#[test]
fn monthly_clamps_day_31_to_month_end() {
    // 2026-04-01 00:00 Almaty is 2026-03-31 19:00 UTC.
    let now = at(1_774_983_600);
    let s = Schedule::MonthlyOn { day: 31, hour: 0, min: 0 };
    // April has 30 days: 00:00 Almaty on April 30 is 19:00 UTC on April 29.
    assert_eq!(s.next_after(ALMATY, now).unwrap(), at(1_777_489_200));
}

#[test]
fn monthly_rolls_to_next_month_when_passed() {
    // 2026-05-10 00:00 Almaty.
    let now = at(1_778_353_200);
    let s = Schedule::MonthlyOn { day: 2, hour: 3, min: 0 };
    // June 2 03:00 Almaty is June 1 22:00 UTC.
    assert_eq!(s.next_after(ALMATY, now).unwrap(), at(1_780_351_200));
}

#[test]
fn interval_adds_duration() {
    let now = at(1_780_012_800);
    let s = Schedule::Interval(900 * 1_000_000_000);
    assert_eq!(s.next_after(ALMATY, now).unwrap(), now + 900 * NS);
}

#[test]
fn cron_daily_six_am() {
    // 2026-05-29 00:00 Almaty is 2026-05-28 19:00 UTC.
    let now = at(1_779_994_800);
    let s = Schedule::Cron("0 0 6 * * *".to_string());
    // 06:00 Almaty is 01:00 UTC.
    assert_eq!(s.next_after(ALMATY, now).unwrap(), at(1_780_016_400));
}

#[test]
fn cron_invalid_errs() {
    let now = at(1_779_994_800);
    let s = Schedule::Cron("not a cron".to_string());
    assert!(s.next_after(ALMATY, now).is_err());
}

#[test]
fn weekly_waits_for_the_weekday() {
    // Friday 2026-05-29 05:00 Almaty; the next Monday 09:00 Almaty is
    // 2026-06-01 04:00 UTC.
    let now = at(1_780_012_800);
    let s = Schedule::WeeklyOn { weekday: Weekday::Mon, hour: 9, min: 0 };
    assert_eq!(s.next_after(ALMATY, now).unwrap(), at(1_780_286_400));
    let same_day = Schedule::WeeklyOn { weekday: Weekday::Fri, hour: 6, min: 30 };
    assert_eq!(same_day.next_after(ALMATY, now).unwrap(), at(1_780_018_200));
}

#[test]
fn skipped_local_time_moves_on_an_hour() {
    // 2026-03-08 00:00 in New York; 02:30 does not exist that day, so the
    // run is at 03:30 EDT, 07:30 UTC.
    let now = at(1_772_946_000);
    let s = Schedule::DailyAt { hour: 2, min: 30 };
    assert_eq!(s.next_after(NEW_YORK, now).unwrap(), at(1_772_955_000));
}

#[test]
fn repeated_local_time_takes_the_earlier() {
    // 2026-11-01 00:00 EDT; 01:30 happens twice, first at 05:30 UTC.
    let now = at(1_793_505_600);
    let s = Schedule::DailyAt { hour: 1, min: 30 };
    assert_eq!(s.next_after(NEW_YORK, now).unwrap(), at(1_793_511_000));
}

#[test]
fn impossible_local_time_is_an_error() {
    let now = at(1_780_012_800);
    let s = Schedule::DailyAt { hour: 25, min: 0 };
    assert_eq!(s.next_after(ALMATY, now).unwrap_err(), "invalid local time 2026-5-29 25:0");
}

#[test]
fn unknown_zone_is_an_error() {
    let s = Schedule::DailyAt { hour: 6, min: 0 };
    assert_eq!(s.next_after("Mars/Olympus", at(1_780_012_800)).unwrap_err(), "unknown time zone: Mars/Olympus");
}

#[test]
fn interval_beyond_time_delta_is_an_error() {
    let s = Schedule::Interval(9_223_372_036_854_775_807_000_001);
    assert_eq!(
        s.next_after(ALMATY, at(0)).unwrap_err(),
        "Source duration value is out of range for the target type"
    );
}

#[test]
fn weekday_of_dates() {
    assert_eq!(weekday_exec(2026, 5, 29), 4); // Friday
    assert_eq!(weekday_exec(1970, 1, 1), 3); // Thursday
    assert_eq!(weekday_exec(2000, 2, 29), 1); // Tuesday
    assert_eq!(weekday_exec(-1, 12, 31), 4); // Friday, proleptic
}

#[test]
fn schedules_describe_themselves() {
    assert_eq!(Schedule::Interval(900 * 1_000_000_000).describe(), "Interval 900s");
    assert_eq!(Schedule::DailyAt { hour: 6, min: 5 }.describe(), "DailyAt 06:05");
    assert_eq!(Schedule::WeeklyOn { weekday: Weekday::Mon, hour: 9, min: 0 }.describe(), "WeeklyOn Mon 09:00");
    assert_eq!(Schedule::MonthlyOn { day: 1, hour: 0, min: 0 }.describe(), "MonthlyOn 1 00:00");
    assert_eq!(Schedule::Cron("0 0 6 * * *".to_string()).describe(), "Cron(0 0 6 * * *)");
}

#[test]
fn zero_interval_has_no_later_time() {
    let s = Schedule::Interval(0);
    assert_eq!(s.next_after(ALMATY, at(1_780_012_800)).unwrap_err(), "a zero interval never fires after now");
    let one = Schedule::Interval(1);
    assert_eq!(one.next_after(ALMATY, at(0)).unwrap(), at(0) + 1);
}
