//! When a job runs next. Local times are read on the calendar of a time zone,
//! named as in the tz database (`"Asia/Almaty"`); the zone's offsets come
//! from chrono-tz and cron expressions are read by the cron crate. Instants
//! are nanoseconds since the Unix epoch.

use vstd::prelude::*;
use chrono::{Datelike, TimeZone};
use vstd::arithmetic::div_mod::lemma_mod_multiples_vanish;
use crate::text::{append_decimal, append_decimal_u128, append_str, append_string, decimal, push_char, string_from};

verus! {

/// The first and last years of the proleptic Gregorian calendar that
/// chrono's dates cover.
pub const MIN_YEAR: i32 = -262143;
pub const MAX_YEAR: i32 = 262142;

/// The first and last instants chrono's date-times cover: the start of
/// `MIN_YEAR` and the last nanosecond of `MAX_YEAR`, in UTC.
pub const MIN_INSTANT: i128 = -8_334_601_315_200_000_000_000;
pub const MAX_INSTANT: i128 = 8_210_266_876_799_999_999_999;

/// The longest span chrono's `TimeDelta` holds: `i64::MAX` milliseconds.
pub const MAX_DELTA: u128 = 9_223_372_036_854_775_807_000_000;

/// `MIN_INSTANT` and `MAX_INSTANT` in whole seconds.
pub const MIN_SECS: i64 = -8_334_601_315_200;
pub const MAX_SECS: i64 = 8_210_266_876_799;

/// Whether `t` seconds after the Unix epoch is an instant chrono holds.
pub open spec fn secs_in_range(t: int) -> bool {
    MIN_SECS <= t <= MAX_SECS
}

/// Whether `t` seconds after the Unix epoch lies a day inside chrono's
/// range: seen in any zone, its local time is one chrono holds.
pub open spec fn safe_secs(t: int) -> bool {
    MIN_SECS + 86400 <= t <= MAX_SECS - 86400
}

fn safe_secs_exec(t: i64) -> (r: bool)
    ensures
        r == safe_secs(t as int),
{
    MIN_SECS + 86400 <= t && t <= MAX_SECS - 86400
}

pub const NANOS_PER_SEC: i128 = 1_000_000_000;
pub const SECS_PER_DAY: i64 = 86_400;

/// How many candidate days, or months, a search looks at before it gives up.
pub const SEARCH_STEPS: u32 = 1000;

/// Whether `y` is a leap year of the Gregorian calendar.
pub open spec fn is_leap(y: int) -> bool {
    y % 4 == 0 && (y % 100 != 0 || y % 400 == 0)
}

/// The number of days of month `m` of year `y`.
pub open spec fn days_in_month(y: int, m: int) -> int {
    if m == 2 {
        if is_leap(y) {
            29
        } else {
            28
        }
    } else if m == 4 || m == 6 || m == 9 || m == 11 {
        30
    } else {
        31
    }
}

/// Whether `y-m-d` is a date chrono's `NaiveDate::from_ymd_opt` accepts.
pub open spec fn valid_date(y: int, m: int, d: int) -> bool {
    &&& MIN_YEAR <= y <= MAX_YEAR
    &&& 1 <= m <= 12
    &&& 1 <= d <= days_in_month(y, m)
}

/// The date after `y-m-d`.
pub open spec fn next_date(y: int, m: int, d: int) -> (int, int, int) {
    if d < days_in_month(y, m) {
        (y, m, d + 1)
    } else if m < 12 {
        (y, m + 1, 1)
    } else {
        (y + 1, 1, 1)
    }
}

/// Days from 1970-01-01 to `y-m-d`.
pub open spec fn days_from_civil(y: int, m: int, d: int) -> int {
    let yy = if m <= 2 {
        y - 1
    } else {
        y
    };
    let era = yy / 400;
    let yoe = yy - era * 400;
    let mp = if m > 2 {
        m - 3
    } else {
        m + 9
    };
    let doy = (153 * mp + 2) / 5 + d - 1;
    let doe = yoe * 365 + yoe / 4 - yoe / 100 + doy;
    era * 146097 + doe - 719468
}

/// The day of the week of `y-m-d`: 0 for Monday up to 6 for Sunday
/// (1970-01-01 was a Thursday).
pub open spec fn weekday_of(y: int, m: int, d: int) -> int {
    (days_from_civil(y, m, d) + 3) % 7
}

fn is_leap_exec(y: i32) -> (r: bool)
    ensures
        r == is_leap(y as int),
{
    // 2 400 000 000 is a multiple of 400, so the shift keeps every
    // remainder and makes the year positive.
    let p: u64 = (y as i64 + 2_400_000_000) as u64;
    proof {
        lemma_mod_multiples_vanish(600000000, y as int, 4);
        lemma_mod_multiples_vanish(24000000, y as int, 100);
        lemma_mod_multiples_vanish(6000000, y as int, 400);
    }
    p % 4 == 0 && (p % 100 != 0 || p % 400 == 0)
}

/// The number of days of month `m` of year `y`.
pub fn days_in_month_exec(y: i32, m: u32) -> (r: u32)
    ensures
        r == days_in_month(y as int, m as int),
{
    if m == 2 {
        if is_leap_exec(y) {
            29
        } else {
            28
        }
    } else if m == 4 || m == 6 || m == 9 || m == 11 {
        30
    } else {
        31
    }
}

fn valid_date_exec(y: i32, m: u32, d: u32) -> (r: bool)
    ensures
        r == valid_date(y as int, m as int, d as int),
{
    if y < MIN_YEAR || y > MAX_YEAR || m < 1 || m > 12 || d < 1 {
        return false;
    }
    d <= days_in_month_exec(y, m)
}

/// `day` clamped into month `m` of year `y`: at least 1, at most the
/// month's last day.
pub open spec fn clamp_day(y: int, m: int, day: int) -> int {
    if day < 1 {
        1
    } else if day > days_in_month(y, m) {
        days_in_month(y, m)
    } else {
        day
    }
}

fn clamp_day_exec(y: i32, m: u32, day: u8) -> (r: u32)
    ensures
        r == clamp_day(y as int, m as int, day as int),
{
    let last = days_in_month_exec(y, m);
    let d = day as u32;
    if d < 1 {
        1
    } else if d > last {
        last
    } else {
        d
    }
}

proof fn lemma_div_plus_multiple(a: int, k: int)
    ensures
        (400 * k + a) / 400 == a / 400 + k,
{
    vstd::arithmetic::div_mod::lemma_fundamental_div_mod(a, 400);
    vstd::arithmetic::div_mod::lemma_fundamental_div_mod(400 * k + a, 400);
    lemma_mod_multiples_vanish(k, a, 400);
    assert(400 * ((400 * k + a) / 400) == 400 * (a / 400 + k));
}

/// The day of the week of a valid date, 0 for Monday up to 6 for Sunday.
pub fn weekday_exec(y: i32, m: u32, d: u32) -> (r: u32)
    requires
        valid_date(y as int, m as int, d as int),
    ensures
        r == weekday_of(y as int, m as int, d as int),
{
    // The calendar repeats every 400 years, which is 146097 days, a whole
    // number of weeks; shifting the year by 400 000 makes it positive.
    let ys: i64 = y as i64 + 400_000 - (if m <= 2 { 1i64 } else { 0i64 });
    let era: i64 = ys / 400;
    let yoe: i64 = ys - era * 400;
    let mp: i64 = if m > 2 { m as i64 - 3 } else { m as i64 + 9 };
    let doy: i64 = (153 * mp + 2) / 5 + d as i64 - 1;
    let doe: i64 = yoe * 365 + yoe / 4 - yoe / 100 + doy;
    let days: i64 = era * 146097 + doe - 719468;
    proof {
        let yy: int = if m <= 2 { y - 1 } else { y as int };
        assert(ys == 400 * 1000 + yy);
        lemma_div_plus_multiple(yy, 1000);
        assert(era == yy / 400 + 1000);
        assert(yoe == yy - (yy / 400) * 400);
        assert(days == days_from_civil(y as int, m as int, d as int) + 146097000);
        lemma_mod_multiples_vanish(20871000, days_from_civil(y as int, m as int, d as int) + 3, 7);
    }
    ((days + 3) % 7) as u32
}

/// How a local time reads as an instant in a zone: one instant, two (the
/// earlier first), none (the clocks skipped it), or the zone is unknown.
/// Instants are whole seconds since the Unix epoch.
#[derive(Debug, PartialEq, Eq)]
pub enum LocalMapping {
    Single(i64),
    Ambiguous(i64, i64),
    Gap,
    UnknownZone,
}

/// The local date at an instant in a zone.
#[derive(Debug, PartialEq, Eq)]
pub enum LocalDate {
    Date(i32, u32, u32),
    UnknownZone,
    OutOfRange,
}

/// What the tz database makes of local time `y-m-d h:mi:00` in `zone`.
pub uninterp spec fn zone_local(zone: Seq<char>, y: int, m: int, d: int, h: int, mi: int) -> LocalMapping;

/// The local date in `zone` at `secs` seconds after the Unix epoch.
pub uninterp spec fn zone_date(zone: Seq<char>, secs: int) -> LocalDate;

/// `TimeZone::from_local_datetime` of chrono-tz's zone named `zone` on the
/// local time `y-m-d h:mi:00`; an unknown name gives `UnknownZone`. The
/// result is named, not stated: it is what the tz database holds. Stated:
/// each instant given is one chrono's `DateTime` holds.
#[verifier::external_body]
fn local_mapping(zone: &str, y: i32, m: u32, d: u32, h: u32, mi: u32) -> (r: LocalMapping)
    requires
        valid_date(y as int, m as int, d as int),
        h < 24,
        mi < 60,
    ensures
        r == zone_local(zone@, y as int, m as int, d as int, h as int, mi as int),
        r matches LocalMapping::Single(t) ==> secs_in_range(t as int),
        r matches LocalMapping::Ambiguous(a, b) ==> secs_in_range(a as int) && secs_in_range(b as int),
{
    let tz: chrono_tz::Tz = match zone.parse() {
        Ok(tz) => tz,
        Err(_) => return LocalMapping::UnknownZone,
    };
    let naive = chrono::NaiveDate::from_ymd_opt(y, m, d).unwrap().and_hms_opt(h, mi, 0).unwrap();
    match tz.from_local_datetime(&naive) {
        chrono::LocalResult::Single(t) => LocalMapping::Single(t.timestamp()),
        chrono::LocalResult::Ambiguous(a, b) => LocalMapping::Ambiguous(a.timestamp(), b.timestamp()),
        chrono::LocalResult::None => LocalMapping::Gap,
    }
}

/// `DateTime::date_naive` of the instant `secs` seconds after the Unix
/// epoch, seen in chrono-tz's zone named `zone`; an unknown name gives
/// `UnknownZone`, an instant chrono cannot hold `OutOfRange`. The result is
/// named, not stated. `secs` stays a day inside chrono's range, so that no
/// zone offset (always less than a day) carries the local time out of it,
/// where chrono panics.
#[verifier::external_body]
fn local_date(zone: &str, secs: i64) -> (r: LocalDate)
    requires
        safe_secs(secs as int),
    ensures
        r == zone_date(zone@, secs as int),
{
    let tz: chrono_tz::Tz = match zone.parse() {
        Ok(tz) => tz,
        Err(_) => return LocalDate::UnknownZone,
    };
    match chrono::DateTime::from_timestamp(secs, 0) {
        Some(t) => {
            let d = t.with_timezone(&tz).date_naive();
            LocalDate::Date(d.year(), d.month(), d.day())
        },
        None => LocalDate::OutOfRange,
    }
}

/// The text of a signed integer as `{}` prints it.
pub open spec fn signed_decimal(n: int) -> Seq<char> {
    if n < 0 {
        seq!['-'] + decimal((-n) as nat)
    } else {
        decimal(n as nat)
    }
}

/// The message for a local time that is no time at all.
pub open spec fn invalid_local_message(y: int, m: int, d: int, h: int, mi: int) -> Seq<char> {
    "invalid local time "@ + signed_decimal(y) + "-"@ + decimal(m as nat) + "-"@ + decimal(d as nat) + " "@
        + decimal(h as nat) + ":"@ + decimal(mi as nat)
}

pub open spec fn unknown_zone_message(zone: Seq<char>) -> Seq<char> {
    "unknown time zone: "@ + zone
}

/// The instant one hour after local `y-m-d h:mi` on the clock's face.
pub open spec fn hour_later(y: int, m: int, d: int, h: int) -> (int, int, int, int) {
    if h < 23 {
        (y, m, d, h + 1)
    } else {
        let n = next_date(y, m, d);
        (n.0, n.1, n.2, 0)
    }
}

/// The instant (in seconds) of local time `y-m-d h:mi` in `zone`: the
/// earlier one when the clocks went back, and across a skipped hour the
/// local time one hour later.
pub open spec fn local_instant(zone: Seq<char>, y: int, m: int, d: int, h: int, mi: int) -> Result<int, Seq<char>> {
    if !(valid_date(y, m, d) && 0 <= h < 24 && 0 <= mi < 60) {
        Err(invalid_local_message(y, m, d, h, mi))
    } else {
        match zone_local(zone, y, m, d, h, mi) {
            LocalMapping::Single(t) => Ok(t as int),
            LocalMapping::Ambiguous(a, _) => Ok(a as int),
            LocalMapping::UnknownZone => Err(unknown_zone_message(zone)),
            LocalMapping::Gap => {
                let b = hour_later(y, m, d, h);
                if valid_date(b.0, b.1, b.2) {
                    match zone_local(zone, b.0, b.1, b.2, b.3, mi) {
                        LocalMapping::Single(t) => Ok(t as int),
                        _ => Err("unresolvable local time across DST"@),
                    }
                } else {
                    Err("unresolvable local time across DST"@)
                }
            },
        }
    }
}

fn append_signed(s: &mut String, n: i32)
    ensures
        final(s)@ == old(s)@ + signed_decimal(n as int),
{
    if n < 0 {
        push_char(s, '-');
        let m: u64 = (-(n as i64)) as u64;
        append_decimal(s, m);
        proof {
            assert(old(s)@.push('-') + decimal(m as nat) =~= old(s)@ + (seq!['-'] + decimal(m as nat)));
        }
    } else {
        append_decimal(s, n as u64);
    }
}

fn invalid_local(y: i32, m: u32, d: u32, h: u32, mi: u32) -> (r: String)
    ensures
        r@ == invalid_local_message(y as int, m as int, d as int, h as int, mi as int),
{
    let mut s = string_from("invalid local time ");
    append_signed(&mut s, y);
    append_str(&mut s, "-");
    append_decimal(&mut s, m as u64);
    append_str(&mut s, "-");
    append_decimal(&mut s, d as u64);
    append_str(&mut s, " ");
    append_decimal(&mut s, h as u64);
    append_str(&mut s, ":");
    append_decimal(&mut s, mi as u64);
    proof {
        reveal_strlit("invalid local time ");
        reveal_strlit("-");
        reveal_strlit(" ");
        reveal_strlit(":");
    }
    s
}

fn unknown_zone(zone: &str) -> (r: String)
    ensures
        r@ == unknown_zone_message(zone@),
{
    let mut s = string_from("unknown time zone: ");
    append_str(&mut s, zone);
    s
}

/// The instant, in seconds, of local time `y-m-d h:mi` in `zone` (see
/// `local_instant`).
pub fn local_at(zone: &str, y: i32, m: u32, d: u32, h: u32, mi: u32) -> (r: Result<i64, String>)
    ensures
        match local_instant(zone@, y as int, m as int, d as int, h as int, mi as int) {
            Ok(t) => r == Ok::<i64, String>(t as i64) && secs_in_range(t),
            Err(e) => r matches Err(s) && s@ == e,
        },
{
    if !(valid_date_exec(y, m, d) && h < 24 && mi < 60) {
        return Err(invalid_local(y, m, d, h, mi));
    }
    match local_mapping(zone, y, m, d, h, mi) {
        LocalMapping::Single(t) => Ok(t),
        LocalMapping::Ambiguous(a, _) => Ok(a),
        LocalMapping::UnknownZone => Err(unknown_zone(zone)),
        LocalMapping::Gap => {
            let (y2, m2, d2, h2): (i32, u32, u32, u32) = if h < 23 {
                (y, m, d, h + 1)
            } else if d < days_in_month_exec(y, m) {
                (y, m, d + 1, 0)
            } else if m < 12 {
                (y, m + 1, 1, 0)
            } else {
                (y + 1, 1, 1, 0)
            };
            if valid_date_exec(y2, m2, d2) {
                match local_mapping(zone, y2, m2, d2, h2, mi) {
                    LocalMapping::Single(t) => Ok(t),
                    _ => Err(string_from("unresolvable local time across DST")),
                }
            } else {
                Err(string_from("unresolvable local time across DST"))
            }
        },
    }
}

/// A day of the week.
#[derive(Debug, Clone, Copy, PartialEq, Eq)]
pub enum Weekday {
    Mon,
    Tue,
    Wed,
    Thu,
    Fri,
    Sat,
    Sun,
}

/// 0 for Monday up to 6 for Sunday.
pub open spec fn weekday_index(w: Weekday) -> int {
    match w {
        Weekday::Mon => 0,
        Weekday::Tue => 1,
        Weekday::Wed => 2,
        Weekday::Thu => 3,
        Weekday::Fri => 4,
        Weekday::Sat => 5,
        Weekday::Sun => 6,
    }
}

impl Weekday {
    /// 0 for Monday up to 6 for Sunday.
    pub fn index(&self) -> (r: u32)
        ensures
            r == weekday_index(*self),
    {
        match self {
            Weekday::Mon => 0,
            Weekday::Tue => 1,
            Weekday::Wed => 2,
            Weekday::Thu => 3,
            Weekday::Fri => 4,
            Weekday::Sat => 5,
            Weekday::Sun => 6,
        }
    }
}

/// When a job runs. Local times are read in the scheduler's zone; `Cron`
/// takes the cron crate's six fields (`sec min hour dom month dow`).
#[derive(Debug, Clone)]
pub enum Schedule {
    /// A fixed time, in nanoseconds, after the previous run.
    Interval(u128),
    /// Every day at a local time.
    DailyAt { hour: u8, min: u8 },
    /// Every week on a weekday at a local time.
    WeeklyOn { weekday: Weekday, hour: u8, min: u8 },
    /// Every month on a day (clamped into the month) at a local time.
    MonthlyOn { day: u8, hour: u8, min: u8 },
    /// A cron expression.
    Cron(String),
}

/// What the cron crate makes of an expression: the first time it matches
/// strictly after an instant (whole seconds since the Unix epoch), none, or
/// the expression's error message; or the zone is unknown.
#[derive(Debug)]
pub enum CronNext {
    Next(i64),
    NoneAfter,
    BadExpression(String),
    UnknownZone,
}

/// The cron crate's reading of `expr`, asked for its first time after the
/// instant `secs` seconds and `nanos` nanoseconds after the Unix epoch, seen
/// in `zone`.
pub uninterp spec fn cron_after(expr: Seq<char>, zone: Seq<char>, secs: int, nanos: int) -> CronNext;

/// `cron::Schedule::from_str(expr)` (its error's text on failure), then
/// the first item of `after(now)` for the instant `secs`.`nanos` seen in
/// chrono-tz's zone named `zone`. The result is named, not stated; a time
/// given is one chrono's `DateTime` holds. cron first adds a second to the
/// instant and reads it in the zone, so the instant and the one a second
/// later stay a day inside chrono's range (chrono panics past it).
#[verifier::external_body]
fn cron_next(expr: &str, zone: &str, secs: i64, nanos: u32) -> (r: CronNext)
    requires
        nanos < 1_000_000_000,
        safe_secs(secs as int),
        safe_secs(secs + 1),
    ensures
        r == cron_after(expr@, zone@, secs as int, nanos as int),
        r matches CronNext::Next(t) ==> secs_in_range(t as int),
{
    let sched: cron::Schedule = match expr.parse() {
        Ok(c) => c,
        Err(e) => return CronNext::BadExpression(format!("{}", e)),
    };
    let Ok(tz) = zone.parse::<chrono_tz::Tz>() else { return CronNext::UnknownZone };
    let Some(t) = chrono::DateTime::from_timestamp(secs, nanos) else { return CronNext::NoneAfter };
    match sched.after(&t.with_timezone(&tz)).next() {
        Some(t) => CronNext::Next(t.timestamp()),
        None => CronNext::NoneAfter,
    }
}

/// Why a local date could not be had.
pub open spec fn date_failure(zone: Seq<char>, d: LocalDate) -> Seq<char> {
    match d {
        LocalDate::UnknownZone => unknown_zone_message(zone),
        _ => "date out of range"@,
    }
}

pub open spec fn exhausted_message() -> Seq<char> {
    "no next time within 1000 steps"@
}

/// The first instant after `now` of a daily local time: today's, or else
/// the one of the day after it.
pub open spec fn daily_next(zone: Seq<char>, now: int, h: int, mi: int) -> Result<int, Seq<char>> {
    match zone_date(zone, now / 1_000_000_000) {
        LocalDate::Date(y, m, d) => match local_instant(zone, y as int, m as int, d as int, h, mi) {
            Err(e) => Err(e),
            Ok(c) => if c * 1_000_000_000 > now {
                Ok(c * 1_000_000_000)
            } else if !safe_secs(c + 86400) {
                Err("date out of range"@)
            } else {
                match zone_date(zone, c + 86400) {
                    LocalDate::Date(y2, m2, d2) => match local_instant(zone, y2 as int, m2 as int, d2 as int, h, mi) {
                        Ok(c2) => Ok(c2 * 1_000_000_000),
                        Err(e) => Err(e),
                    },
                    other => Err(date_failure(zone, other)),
                }
            },
        },
        other => Err(date_failure(zone, other)),
    }
}

/// From candidate `c` (seconds), the first day's local time that is after
/// `now` and falls on weekday `wd`, looking at `fuel` more days at most.
pub open spec fn weekly_search(zone: Seq<char>, now: int, wd: int, h: int, mi: int, c: int, fuel: nat) -> Result<int, Seq<char>>
    decreases fuel,
{
    if !safe_secs(c) {
        Err("date out of range"@)
    } else {
    match zone_date(zone, c) {
        LocalDate::Date(y, m, d) => if !valid_date(y as int, m as int, d as int) {
            Err("date out of range"@)
        } else if c * 1_000_000_000 > now && weekday_of(y as int, m as int, d as int) == wd {
            Ok(c * 1_000_000_000)
        } else if fuel == 0 {
            Err(exhausted_message())
        } else if !safe_secs(c + 86400) {
            Err("date out of range"@)
        } else {
            match zone_date(zone, c + 86400) {
                LocalDate::Date(y2, m2, d2) => match local_instant(zone, y2 as int, m2 as int, d2 as int, h, mi) {
                    Ok(c2) => weekly_search(zone, now, wd, h, mi, c2, (fuel - 1) as nat),
                    Err(e) => Err(e),
                },
                other => Err(date_failure(zone, other)),
            }
        },
        other => Err(date_failure(zone, other)),
    }
    }
}

/// From month `m` of year `y`, the first month's local time (on `day`
/// clamped into the month) that is after `now`, looking at `fuel` more
/// months at most.
pub open spec fn monthly_search(zone: Seq<char>, now: int, day: int, h: int, mi: int, y: int, m: int, fuel: nat) -> Result<int, Seq<char>>
    decreases fuel,
{
    match local_instant(zone, y, m, clamp_day(y, m, day), h, mi) {
        Err(e) => Err(e),
        Ok(c) => if c * 1_000_000_000 > now {
            Ok(c * 1_000_000_000)
        } else if fuel == 0 {
            Err(exhausted_message())
        } else if m == 12 {
            monthly_search(zone, now, day, h, mi, y + 1, 1, (fuel - 1) as nat)
        } else {
            monthly_search(zone, now, day, h, mi, y, m + 1, (fuel - 1) as nat)
        },
    }
}

/// When `s` runs next after `now` (nanoseconds), with local times read in
/// `zone`.
pub open spec fn next_after_spec(s: Schedule, zone: Seq<char>, now: int) -> Result<int, Seq<char>> {
    match s {
        Schedule::Interval(d) => if d == 0 {
            Err("a zero interval never fires after now"@)
        } else if d > MAX_DELTA {
            Err("Source duration value is out of range for the target type"@)
        } else {
            Ok(now + d)
        },
        Schedule::DailyAt { hour, min } => daily_next(zone, now, hour as int, min as int),
        Schedule::WeeklyOn { weekday, hour, min } => match zone_date(zone, now / 1_000_000_000) {
            LocalDate::Date(y, m, d) => match local_instant(zone, y as int, m as int, d as int, hour as int, min as int) {
                Ok(c) => weekly_search(zone, now, weekday_index(weekday), hour as int, min as int, c, SEARCH_STEPS as nat),
                Err(e) => Err(e),
            },
            other => Err(date_failure(zone, other)),
        },
        Schedule::MonthlyOn { day, hour, min } => match zone_date(zone, now / 1_000_000_000) {
            LocalDate::Date(y, m, _) => monthly_search(zone, now, day as int, hour as int, min as int, y as int, m as int, SEARCH_STEPS as nat),
            other => Err(date_failure(zone, other)),
        },
        Schedule::Cron(e) => match cron_after(e@, zone, now / 1_000_000_000, now % 1_000_000_000) {
            CronNext::Next(t) => Ok(t * 1_000_000_000),
            CronNext::NoneAfter => Err("cron yielded no next time"@),
            CronNext::BadExpression(m) => Err(m@),
            CronNext::UnknownZone => Err(unknown_zone_message(zone)),
        },
    }
}

/// Splits an instant into whole seconds (rounded down) and nanoseconds.
fn split_instant(now: i128) -> (r: (i64, u32))
    requires
        MIN_INSTANT <= now <= MAX_INSTANT,
    ensures
        r.0 == now / 1_000_000_000,
        r.1 == now % 1_000_000_000,
{
    // MIN_INSTANT is a whole number of seconds; counting from it keeps the
    // division on non-negative numbers.
    let sh: u128 = (now - MIN_INSTANT) as u128;
    let q: u128 = sh / 1_000_000_000;
    let rem: u128 = sh % 1_000_000_000;
    proof {
        vstd::arithmetic::div_mod::lemma_fundamental_div_mod(sh as int, 1_000_000_000);
        vstd::arithmetic::div_mod::lemma_fundamental_div_mod(now as int, 1_000_000_000);
        let k: int = -8_334_601_315_200;
        assert(now == 1_000_000_000 * (q + k) + rem);
        lemma_mod_multiples_vanish(q + k, rem as int, 1_000_000_000);
        assert(now % 1_000_000_000 == rem);
        assert(now / 1_000_000_000 == q + k);
    }
    ((q as i128 - 8_334_601_315_200) as i64, rem as u32)
}

fn date_failure_text(zone: &str, d: &LocalDate) -> (r: String)
    ensures
        r@ == date_failure(zone@, *d),
{
    match d {
        LocalDate::UnknownZone => unknown_zone(zone),
        _ => string_from("date out of range"),
    }
}

fn exhausted() -> (r: String)
    ensures
        r@ == exhausted_message(),
{
    string_from("no next time within 1000 steps")
}

fn daily_exec(zone: &str, now: i128, h: u8, mi: u8) -> (r: Result<i128, String>)
    requires
        calendar_now_ok(now as int),
    ensures
        match daily_next(zone@, now as int, h as int, mi as int) {
            Ok(t) => MIN_INSTANT <= t <= MAX_INSTANT && r == Ok::<i128, String>(t as i128),
            Err(e) => r matches Err(s) && s@ == e,
        },
{
    let (secs, _) = split_instant(now);
    match local_date(zone, secs) {
        LocalDate::Date(y, m, d) => match local_at(zone, y, m, d, h as u32, mi as u32) {
            Err(e) => Err(e),
            Ok(c) => {
                if c as i128 * 1_000_000_000 > now {
                    Ok(c as i128 * 1_000_000_000)
                } else if !safe_secs_exec(c + 86400) {
                    Err(string_from("date out of range"))
                } else {
                    match local_date(zone, c + 86400) {
                        LocalDate::Date(y2, m2, d2) => match local_at(zone, y2, m2, d2, h as u32, mi as u32) {
                            Ok(c2) => Ok(c2 as i128 * 1_000_000_000),
                            Err(e) => Err(e),
                        },
                        other => Err(date_failure_text(zone, &other)),
                    }
                }
            },
        },
        other => Err(date_failure_text(zone, &other)),
    }
}

fn weekly_exec(zone: &str, now: i128, wd: Weekday, h: u8, mi: u8, c0: i64) -> (r: Result<i128, String>)
    requires
        secs_in_range(c0 as int),
    ensures
        match weekly_search(zone@, now as int, weekday_index(wd), h as int, mi as int, c0 as int, SEARCH_STEPS as nat) {
            Ok(t) => MIN_INSTANT <= t <= MAX_INSTANT && r == Ok::<i128, String>(t as i128),
            Err(e) => r matches Err(s) && s@ == e,
        },
{
    let ghost target = weekly_search(zone@, now as int, weekday_index(wd), h as int, mi as int, c0 as int, SEARCH_STEPS as nat);
    let w = wd.index();
    let mut c = c0;
    let mut fuel: u32 = SEARCH_STEPS;
    loop
        invariant
            secs_in_range(c as int),
            w == weekday_index(wd),
            target == weekly_search(zone@, now as int, weekday_index(wd), h as int, mi as int, c0 as int, SEARCH_STEPS as nat),
            weekly_search(zone@, now as int, weekday_index(wd), h as int, mi as int, c as int, fuel as nat) == target,
        decreases fuel,
    {
        if !safe_secs_exec(c) {
            return Err(string_from("date out of range"));
        }
        match local_date(zone, c) {
            LocalDate::Date(y, m, d) => {
                if !valid_date_exec(y, m, d) {
                    return Err(string_from("date out of range"));
                }
                if c as i128 * 1_000_000_000 > now && weekday_exec(y, m, d) == w {
                    return Ok(c as i128 * 1_000_000_000);
                }
                if fuel == 0 {
                    return Err(exhausted());
                }
                if !safe_secs_exec(c + 86400) {
                    return Err(string_from("date out of range"));
                }
                match local_date(zone, c + 86400) {
                    LocalDate::Date(y2, m2, d2) => match local_at(zone, y2, m2, d2, h as u32, mi as u32) {
                        Ok(c2) => {
                            c = c2;
                            fuel = fuel - 1;
                        },
                        Err(e) => {
                            return Err(e);
                        },
                    },
                    other => {
                        return Err(date_failure_text(zone, &other));
                    },
                }
            },
            other => {
                return Err(date_failure_text(zone, &other));
            },
        }
    }
}

fn monthly_exec(zone: &str, now: i128, day: u8, h: u8, mi: u8, y0: i32, m0: u32) -> (r: Result<i128, String>)
    ensures
        match monthly_search(zone@, now as int, day as int, h as int, mi as int, y0 as int, m0 as int, SEARCH_STEPS as nat) {
            Ok(t) => MIN_INSTANT <= t <= MAX_INSTANT && r == Ok::<i128, String>(t as i128),
            Err(e) => r matches Err(s) && s@ == e,
        },
{
    let ghost target = monthly_search(zone@, now as int, day as int, h as int, mi as int, y0 as int, m0 as int, SEARCH_STEPS as nat);
    let mut y = y0;
    let mut m = m0;
    let mut fuel: u32 = SEARCH_STEPS;
    loop
        invariant
            target == monthly_search(zone@, now as int, day as int, h as int, mi as int, y0 as int, m0 as int, SEARCH_STEPS as nat),
            monthly_search(zone@, now as int, day as int, h as int, mi as int, y as int, m as int, fuel as nat) == target,
        decreases fuel,
    {
        let d = clamp_day_exec(y, m, day);
        match local_at(zone, y, m, d, h as u32, mi as u32) {
            Err(e) => {
                return Err(e);
            },
            Ok(c) => {
                if c as i128 * 1_000_000_000 > now {
                    return Ok(c as i128 * 1_000_000_000);
                }
                if fuel == 0 {
                    return Err(exhausted());
                }
                if m == 12 {
                    y = y + 1;
                    m = 1;
                } else {
                    m = m + 1;
                }
                fuel = fuel - 1;
            },
        }
    }
}

/// Whether `now` (nanoseconds) lies a day inside chrono's range, with room
/// for one more second: read in any zone, and a second later, it is still
/// a time chrono holds.
pub open spec fn calendar_now_ok(now: int) -> bool {
    (MIN_SECS + 86400) * 1_000_000_000 <= now < (MAX_SECS - 86400) * 1_000_000_000
}

/// Whether a schedule may be asked for its next time at `now`: `now` is an
/// instant chrono holds; an interval that chrono can hold does not carry it
/// past the last instant; and for a schedule read on the calendar, `now`
/// stays a day inside chrono's range (chrono panics past these).
pub open spec fn next_after_allowed(s: Schedule, now: int) -> bool {
    &&& MIN_INSTANT <= now <= MAX_INSTANT
    &&& match s {
        Schedule::Interval(d) => d <= MAX_DELTA ==> now + d <= MAX_INSTANT,
        _ => calendar_now_ok(now),
    }
}

impl Schedule {
    /// The first time after `now` at which the schedule fires, with local
    /// times read in the zone named `zone`: an interval adds to `now`; a
    /// daily time is today's, or tomorrow's when today's is not after
    /// `now`; a weekly time is the first such day's that falls on the
    /// weekday; a monthly time the first month's, on the day clamped into
    /// the month; a cron expression gives its first match after `now`.
    /// Local times the clocks skipped move on by an hour; of two, the
    /// earlier counts. Errors: a zero interval, which has no time strictly
    /// after `now`; an interval longer than chrono holds, an
    /// impossible local time, an unparseable cron expression or one with no
    /// next time, an unknown zone, or no fitting day within
    /// `SEARCH_STEPS` days or months.
    pub fn next_after(&self, zone: &str, now: i128) -> (r: Result<i128, String>)
        requires
            next_after_allowed(*self, now as int),
        ensures
            match next_after_spec(*self, zone@, now as int) {
                Ok(t) => MIN_INSTANT <= t <= MAX_INSTANT && r == Ok::<i128, String>(t as i128),
                Err(e) => r matches Err(s) && s@ == e,
            },
    {
        match self {
            Schedule::Interval(d) => {
                if *d == 0 {
                    Err(string_from("a zero interval never fires after now"))
                } else if *d > MAX_DELTA {
                    Err(string_from("Source duration value is out of range for the target type"))
                } else {
                    Ok(now + *d as i128)
                }
            },
            Schedule::DailyAt { hour, min } => daily_exec(zone, now, *hour, *min),
            Schedule::WeeklyOn { weekday, hour, min } => {
                let (secs, _) = split_instant(now);
                match local_date(zone, secs) {
                    LocalDate::Date(y, m, d) => match local_at(zone, y, m, d, *hour as u32, *min as u32) {
                        Ok(c) => weekly_exec(zone, now, *weekday, *hour, *min, c),
                        Err(e) => Err(e),
                    },
                    other => Err(date_failure_text(zone, &other)),
                }
            },
            Schedule::MonthlyOn { day, hour, min } => {
                let (secs, _) = split_instant(now);
                match local_date(zone, secs) {
                    LocalDate::Date(y, m, _) => monthly_exec(zone, now, *day, *hour, *min, y, m),
                    other => Err(date_failure_text(zone, &other)),
                }
            },
            Schedule::Cron(e) => {
                let (secs, nanos) = split_instant(now);
                match cron_next(e.as_str(), zone, secs, nanos) {
                    CronNext::Next(t) => Ok(t as i128 * 1_000_000_000),
                    CronNext::NoneAfter => Err(string_from("cron yielded no next time")),
                    CronNext::BadExpression(m) => Err(m),
                    CronNext::UnknownZone => Err(unknown_zone(zone)),
                }
            },
        }
    }
}

/// `n` as `{:02}` prints it.
pub open spec fn pad2(n: nat) -> Seq<char> {
    if n < 10 {
        seq!['0'] + decimal(n)
    } else {
        decimal(n)
    }
}

/// The name `Debug` gives a weekday.
pub open spec fn weekday_name(w: Weekday) -> Seq<char> {
    match w {
        Weekday::Mon => "Mon"@,
        Weekday::Tue => "Tue"@,
        Weekday::Wed => "Wed"@,
        Weekday::Thu => "Thu"@,
        Weekday::Fri => "Fri"@,
        Weekday::Sat => "Sat"@,
        Weekday::Sun => "Sun"@,
    }
}

/// How a schedule is shown on the job's record.
pub open spec fn describe_spec(s: Schedule) -> Seq<char> {
    match s {
        Schedule::Interval(d) => "Interval "@ + decimal((d / 1_000_000_000) as nat) + "s"@,
        Schedule::DailyAt { hour, min } => "DailyAt "@ + pad2(hour as nat) + ":"@ + pad2(min as nat),
        Schedule::WeeklyOn { weekday, hour, min } => "WeeklyOn "@ + weekday_name(weekday) + " "@ + pad2(hour as nat)
            + ":"@ + pad2(min as nat),
        Schedule::MonthlyOn { day, hour, min } => "MonthlyOn "@ + decimal(day as nat) + " "@ + pad2(hour as nat) + ":"@
            + pad2(min as nat),
        Schedule::Cron(e) => "Cron("@ + e@ + ")"@,
    }
}

fn append_pad2(s: &mut String, n: u8)
    ensures
        final(s)@ == old(s)@ + pad2(n as nat),
{
    if n < 10 {
        push_char(s, '0');
        append_decimal(s, n as u64);
        proof {
            assert(old(s)@.push('0') + decimal(n as nat) =~= old(s)@ + (seq!['0'] + decimal(n as nat)));
        }
    } else {
        append_decimal(s, n as u64);
    }
}

impl Weekday {
    fn append_name(&self, s: &mut String)
        ensures
            final(s)@ == old(s)@ + weekday_name(*self),
    {
        match self {
            Weekday::Mon => append_str(s, "Mon"),
            Weekday::Tue => append_str(s, "Tue"),
            Weekday::Wed => append_str(s, "Wed"),
            Weekday::Thu => append_str(s, "Thu"),
            Weekday::Fri => append_str(s, "Fri"),
            Weekday::Sat => append_str(s, "Sat"),
            Weekday::Sun => append_str(s, "Sun"),
        }
    }
}

impl Schedule {
    /// How the schedule is shown on the job's record: `Interval 900s`,
    /// `DailyAt 06:30`, `WeeklyOn Mon 09:00`, `MonthlyOn 1 00:00`,
    /// `Cron(<expression>)`.
    pub fn describe(&self) -> (r: String)
        ensures
            r@ == describe_spec(*self),
    {
        let mut s = String::new();
        match self {
            Schedule::Interval(d) => {
                append_str(&mut s, "Interval ");
                append_decimal_u128(&mut s, *d / 1_000_000_000);
                append_str(&mut s, "s");
            },
            Schedule::DailyAt { hour, min } => {
                append_str(&mut s, "DailyAt ");
                append_pad2(&mut s, *hour);
                append_str(&mut s, ":");
                append_pad2(&mut s, *min);
            },
            Schedule::WeeklyOn { weekday, hour, min } => {
                append_str(&mut s, "WeeklyOn ");
                weekday.append_name(&mut s);
                append_str(&mut s, " ");
                append_pad2(&mut s, *hour);
                append_str(&mut s, ":");
                append_pad2(&mut s, *min);
            },
            Schedule::MonthlyOn { day, hour, min } => {
                append_str(&mut s, "MonthlyOn ");
                append_decimal(&mut s, *day as u64);
                append_str(&mut s, " ");
                append_pad2(&mut s, *hour);
                append_str(&mut s, ":");
                append_pad2(&mut s, *min);
            },
            Schedule::Cron(e) => {
                append_str(&mut s, "Cron(");
                append_string(&mut s, e);
                append_str(&mut s, ")");
            },
        }
        proof {
            assert(s@ =~= describe_spec(*self));
        }
        s
    }
}

proof fn lemma_weekly_later(zone: Seq<char>, now: int, wd: int, h: int, mi: int, c: int, fuel: nat)
    ensures
        weekly_search(zone, now, wd, h, mi, c, fuel) matches Ok(t) ==> t > now,
    decreases fuel,
{
    if fuel > 0 && safe_secs(c + 86400) {
        match zone_date(zone, c + 86400) {
            LocalDate::Date(y2, m2, d2) => match local_instant(zone, y2 as int, m2 as int, d2 as int, h, mi) {
                Ok(c2) => lemma_weekly_later(zone, now, wd, h, mi, c2, (fuel - 1) as nat),
                Err(_) => {},
            },
            _ => {},
        }
    }
}

proof fn lemma_monthly_later(zone: Seq<char>, now: int, day: int, h: int, mi: int, y: int, m: int, fuel: nat)
    ensures
        monthly_search(zone, now, day, h, mi, y, m, fuel) matches Ok(t) ==> t > now,
    decreases fuel,
{
    if fuel > 0 {
        lemma_monthly_later(zone, now, day, h, mi, y + 1, 1, (fuel - 1) as nat);
        lemma_monthly_later(zone, now, day, h, mi, y, m + 1, (fuel - 1) as nat);
    }
}

/// An interval, weekly or monthly schedule fires strictly after the time it
/// is asked at.
pub proof fn law_next_after_is_later(s: Schedule, zone: Seq<char>, now: int)
    requires
        match s {
            Schedule::Interval(_) => true,
            Schedule::WeeklyOn { .. } => true,
            Schedule::MonthlyOn { .. } => true,
            _ => false,
        },
    ensures
        next_after_spec(s, zone, now) matches Ok(t) ==> t > now,
{
    match s {
        Schedule::WeeklyOn { weekday, hour, min } => match zone_date(zone, now / 1_000_000_000) {
            LocalDate::Date(y, m, d) => match local_instant(zone, y as int, m as int, d as int, hour as int, min as int) {
                Ok(c) => lemma_weekly_later(zone, now, weekday_index(weekday), hour as int, min as int, c, SEARCH_STEPS as nat),
                Err(_) => {},
            },
            _ => {},
        },
        Schedule::MonthlyOn { day, hour, min } => match zone_date(zone, now / 1_000_000_000) {
            LocalDate::Date(y, m, _) => lemma_monthly_later(zone, now, day as int, hour as int, min as int, y as int, m as int, SEARCH_STEPS as nat),
            _ => {},
        },
        _ => {},
    }
}


/// A monthly schedule fires on this month's day if that time is still
/// ahead of `now`, or else on the next calendar month's day (December
/// rolling over to January of the next year): so once the next month's
/// time exists and is ahead of `now`, the answer is one of these two and
/// lies after `now`.
pub proof fn law_monthly_this_or_next_month(
    zone: Seq<char>,
    now: int,
    day: u8,
    hour: u8,
    min: u8,
    y: i32,
    m: u32,
    d: u32,
    c1: int,
    c2: int,
)
    requires
        zone_date(zone, now / 1_000_000_000) == LocalDate::Date(y, m, d),
        local_instant(zone, y as int, m as int, clamp_day(y as int, m as int, day as int), hour as int, min as int)
            == Ok::<int, Seq<char>>(c1),
        local_instant(
            zone,
            if m == 12 { y + 1 } else { y as int },
            if m == 12 { 1 } else { m + 1 },
            clamp_day(if m == 12 { y + 1 } else { y as int }, if m == 12 { 1 } else { m + 1 }, day as int),
            hour as int,
            min as int,
        ) == Ok::<int, Seq<char>>(c2),
        c2 * 1_000_000_000 > now,
    ensures
        next_after_spec(Schedule::MonthlyOn { day, hour, min }, zone, now) == (if c1 * 1_000_000_000 > now {
            Ok::<int, Seq<char>>(c1 * 1_000_000_000)
        } else {
            Ok::<int, Seq<char>>(c2 * 1_000_000_000)
        }),
{
    let fuel = SEARCH_STEPS as nat;
    assert(fuel > 0);
    assert(monthly_search(zone, now, day as int, hour as int, min as int, y as int, m as int, fuel) == (
    if c1 * 1_000_000_000 > now {
        Ok::<int, Seq<char>>(c1 * 1_000_000_000)
    } else if m == 12 {
        monthly_search(zone, now, day as int, hour as int, min as int, y + 1, 1, (fuel - 1) as nat)
    } else {
        monthly_search(zone, now, day as int, hour as int, min as int, y as int, m + 1, (fuel - 1) as nat)
    }));
}


proof fn lemma_shift_div(e: int, z: int, k: int, q: int)
    requires
        0 <= z,
        k > 0,
        q * k == 400,
    ensures
        (e * 400 + z) / k == e * q + z / k,
        (e * 400 + z) % k == z % k,
{
    let x = e * 400 + z;
    vstd::arithmetic::div_mod::lemma_fundamental_div_mod(z, k);
    assert(x == (e * q + z / k) * k + z % k) by (nonlinear_arith)
        requires
            x == e * 400 + z,
            q * k == 400,
            z == k * (z / k) + z % k,
    {
    }
    assert(0 <= z % k < k);
    vstd::arithmetic::div_mod::lemma_fundamental_div_mod_converse(x, k, e * q + z / k, z % k);
}

proof fn lemma_step_div(z: int, k: int)
    requires
        1 <= z,
        k > 0,
    ensures
        z / k - (z - 1) / k == if z % k == 0 { 1int } else { 0int },
{
    vstd::arithmetic::div_mod::lemma_fundamental_div_mod(z, k);
    vstd::arithmetic::div_mod::lemma_fundamental_div_mod(z - 1, k);
    let q = z / k;
    let r = z % k;
    assert(z == k * q + r);
    if r == 0 {
        assert(z - 1 == (q - 1) * k + (k - 1)) by (nonlinear_arith)
            requires
                z == k * q + r,
                r == 0,
        {
        }
        vstd::arithmetic::div_mod::lemma_fundamental_div_mod_converse(z - 1, k, q - 1, k - 1);
    } else {
        assert(z - 1 == q * k + (r - 1)) by (nonlinear_arith)
            requires
                z == k * q + r,
        {
        }
        vstd::arithmetic::div_mod::lemma_fundamental_div_mod_converse(z - 1, k, q, r - 1);
    }
}

proof fn lemma_year_days(yy: int)
    ensures
        year_part(yy + 1) - year_part(yy) == if is_leap(yy + 1) { 366int } else { 365int },
{
    let e0 = yy / 400;
    vstd::arithmetic::div_mod::lemma_fundamental_div_mod(yy, 400);
    let y0 = yy % 400;
    assert(yy == e0 * 400 + y0);
    assert(yy - e0 * 400 == y0);
    if y0 == 399 {
        lemma_shift_div(e0 + 1, 0, 400, 1);
        assert(yy + 1 == (e0 + 1) * 400 + 0);
        lemma_shift_div(e0 + 1, 0, 4, 100);
        lemma_shift_div(e0 + 1, 0, 100, 4);
        assert(year_part(yy + 1) == (e0 + 1) * 146097);
        assert(year_part(yy) == e0 * 146097 + 145731);
    } else {
        let z = y0 + 1;
        assert(yy + 1 == e0 * 400 + z);
        lemma_shift_div(e0, z, 400, 1);
        lemma_shift_div(e0, z, 4, 100);
        lemma_shift_div(e0, z, 100, 4);
        assert((yy + 1) / 400 == e0);
        assert(year_part(yy + 1) == e0 * 146097 + z * 365 + z / 4 - z / 100);
        lemma_step_div(z, 4);
        lemma_step_div(z, 100);
    }
}

/// `days_from_civil` split at its year part, which is the same for the
/// dates of one March-to-February year.
pub open spec fn year_part(yy: int) -> int {
    let era = yy / 400;
    let yoe = yy - era * 400;
    era * 146097 + yoe * 365 + yoe / 4 - yoe / 100
}

proof fn lemma_days_split(y: int, m: int, d: int)
    ensures
        days_from_civil(y, m, d) == year_part(if m <= 2 { y - 1 } else { y }) + (153 * (if m > 2 { m - 3 } else { m + 9 }) + 2) / 5 + d - 1 - 719468,
{
}

proof fn lemma_next_day_count(y: int, m: int, d: int)
    requires
        valid_date(y, m, d),
    ensures
        ({
            let n = next_date(y, m, d);
            days_from_civil(n.0, n.1, n.2) == days_from_civil(y, m, d) + 1
        }),
{
    let n = next_date(y, m, d);
    lemma_days_split(y, m, d);
    lemma_days_split(n.0, n.1, n.2);
    if d < days_in_month(y, m) {
    } else if m == 2 {
        lemma_year_days(y - 1);
        assert(year_part(y) - year_part(y - 1) == if is_leap(y) { 366int } else { 365int });
    } else if m == 1 {
    } else if m == 3 {
    } else if m == 4 {
    } else if m == 5 {
    } else if m == 6 {
    } else if m == 7 {
    } else if m == 8 {
    } else if m == 9 {
    } else if m == 10 {
    } else if m == 11 {
    } else {
    }
}

/// The calendar counts days one by one: the day after a valid date is one
/// day later, so weekdays follow each other in turn; and 1970-01-05 was a
/// Monday.
pub proof fn law_days_count_one_by_one(y: int, m: int, d: int)
    requires
        valid_date(y, m, d),
    ensures
        ({
            let n = next_date(y, m, d);
            &&& days_from_civil(n.0, n.1, n.2) == days_from_civil(y, m, d) + 1
            &&& weekday_of(n.0, n.1, n.2) == (weekday_of(y, m, d) + 1) % 7
        }),
        weekday_of(1970, 1, 5) == weekday_index(Weekday::Mon),
{
    lemma_next_day_count(y, m, d);
    let x = days_from_civil(y, m, d) + 3;
    assert((x + 1) % 7 == (x % 7 + 1) % 7);
    assert(days_from_civil(1970, 1, 5) == 4);
}


proof fn lemma_weekly_day(zone: Seq<char>, now: int, wd: int, h: int, mi: int, c: int, fuel: nat)
    ensures
        weekly_search(zone, now, wd, h, mi, c, fuel) matches Ok(t) ==> exists|y: i32, m: u32, d: u32|
            zone_date(zone, t / 1_000_000_000) == LocalDate::Date(y, m, d) && weekday_of(y as int, m as int, d as int) == wd,
    decreases fuel,
{
    if safe_secs(c) {
        match zone_date(zone, c) {
            LocalDate::Date(y, m, d) => {
                assert((c * 1_000_000_000) / 1_000_000_000 == c);
                if fuel > 0 && safe_secs(c + 86400) {
                    match zone_date(zone, c + 86400) {
                        LocalDate::Date(y2, m2, d2) => match local_instant(zone, y2 as int, m2 as int, d2 as int, h, mi) {
                            Ok(c2) => lemma_weekly_day(zone, now, wd, h, mi, c2, (fuel - 1) as nat),
                            Err(_) => {},
                        },
                        _ => {},
                    }
                }
            },
            _ => {},
        }
    }
}

/// A weekly schedule fires after `now`, on a local day that falls on the
/// asked weekday.
pub proof fn law_weekly_on_its_weekday(zone: Seq<char>, now: int, weekday: Weekday, hour: u8, min: u8)
    ensures
        next_after_spec(Schedule::WeeklyOn { weekday, hour, min }, zone, now) matches Ok(t) ==> t > now
            && exists|y: i32, m: u32, d: u32|
            zone_date(zone, t / 1_000_000_000) == LocalDate::Date(y, m, d) && weekday_of(y as int, m as int, d as int)
                == weekday_index(weekday),
{
    law_next_after_is_later(Schedule::WeeklyOn { weekday, hour, min }, zone, now);
    match zone_date(zone, now / 1_000_000_000) {
        LocalDate::Date(y, m, d) => match local_instant(zone, y as int, m as int, d as int, hour as int, min as int) {
            Ok(c) => lemma_weekly_day(zone, now, weekday_index(weekday), hour as int, min as int, c, SEARCH_STEPS as nat),
            Err(_) => {},
        },
        _ => {},
    }
}

/// A daily schedule fires at today's local time if that is still ahead of
/// `now`; otherwise at that time on the local day one day later.
pub proof fn law_daily_today_or_next_day(
    zone: Seq<char>,
    now: int,
    hour: u8,
    min: u8,
    y: i32,
    m: u32,
    d: u32,
    c1: int,
    y2: i32,
    m2: u32,
    d2: u32,
    c2: int,
)
    requires
        zone_date(zone, now / 1_000_000_000) == LocalDate::Date(y, m, d),
        local_instant(zone, y as int, m as int, d as int, hour as int, min as int) == Ok::<int, Seq<char>>(c1),
    ensures
        c1 * 1_000_000_000 > now ==> next_after_spec(Schedule::DailyAt { hour, min }, zone, now) == Ok::<int, Seq<char>>(c1 * 1_000_000_000),
        c1 * 1_000_000_000 <= now && safe_secs(c1 + 86400) && zone_date(zone, c1 + 86400) == LocalDate::Date(y2, m2, d2)
                && local_instant(zone, y2 as int, m2 as int, d2 as int, hour as int, min as int) == Ok::<int, Seq<char>>(c2)
                ==> next_after_spec(Schedule::DailyAt { hour, min }, zone, now) == Ok::<int, Seq<char>>(c2 * 1_000_000_000),
{
}

/// An interval schedule fires exactly the interval after `now`.
pub proof fn law_interval_adds(zone: Seq<char>, now: int, d: u128)
    requires
        0 < d <= MAX_DELTA,
    ensures
        next_after_spec(Schedule::Interval(d), zone, now) == Ok::<int, Seq<char>>(now + d),
{
}

} // verus!
