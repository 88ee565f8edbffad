//! The admin table of jobs, as a standalone HTML fragment with a "Run now"
//! button per job.

use vstd::prelude::*;
use crate::text::{append_decimal, append_str, append_string, decimal, digit_char, push_char};
use crate::scheduler::schedule::{days_from_civil, valid_date, MAX_INSTANT, MAX_SECS, MIN_INSTANT, MIN_SECS};
use crate::scheduler::state::JobStatus;

verus! {

/// One second in nanoseconds.
pub const SECOND_NANOS: i128 = 1_000_000_000;

/// `n`, below 100, as two digits.
pub open spec fn two_digits(n: int) -> Seq<char> {
    seq![digit_char((n / 10) as nat), digit_char((n % 10) as nat)]
}

/// The digits of `n`, zero-padded in front to at least four.
pub open spec fn four_digits(n: nat) -> Seq<char> {
    let t = decimal(n);
    if t.len() >= 4 {
        t
    } else {
        Seq::new((4 - t.len()) as nat, |i: int| '0') + t
    }
}

/// chrono's `%Y`: the year zero-padded to four digits, with a sign in front
/// when it is outside 0 ..= 9999.
pub open spec fn year_text(y: int) -> Seq<char> {
    if 0 <= y <= 9999 {
        four_digits(y as nat)
    } else if y < 0 {
        "-"@ + four_digits((-y) as nat)
    } else {
        "+"@ + four_digits(y as nat)
    }
}

/// The calendar date `days` days after 1970-01-01.
pub open spec fn civil_date(days: int) -> (int, int, int) {
    choose|y: int, m: int, d: int|
        #![trigger days_from_civil(y, m, d)]
        valid_date(y, m, d) && days_from_civil(y, m, d) == days
}

/// The time `secs` seconds after the Unix epoch written with
/// `%Y-%m-%d %H:%M UTC`.
pub open spec fn utc_minute_text(secs: int) -> Seq<char> {
    let rest = secs % 86400;
    let (y, m, d) = civil_date(secs / 86400);
    year_text(y) + "-"@ + two_digits(m) + "-"@ + two_digits(d) + " "@ + two_digits(rest / 3600) + ":"@
        + two_digits((rest % 3600) / 60) + " UTC"@
}

/// `chrono::DateTime::<Utc>::from_timestamp(secs, sub)` written with the
/// format `pattern`. The contract covers the one pattern the table uses,
/// `%Y-%m-%d %H:%M UTC` (chrono's `format/formatting.rs`: `%Y` by
/// `write_year`, the others as two zero-padded digits). Within chrono's
/// range, which `requires` gives, the timestamp exists.
#[verifier::external_body]
fn format_utc(secs: i64, sub: u32, pattern: &str) -> (r: String)
    requires
        MIN_SECS <= secs <= MAX_SECS,
        sub < 1_000_000_000,
        pattern@ == "%Y-%m-%d %H:%M UTC"@,
    ensures
        r@ == utc_minute_text(secs as int),
{
    chrono::DateTime::<chrono::Utc>::from_timestamp(secs, sub).unwrap().format(pattern).to_string()
}

/// The times chrono holds, which are the times a job's record can carry.
pub open spec fn showable(ns: i128) -> bool {
    MIN_INSTANT <= ns <= MAX_INSTANT
}

/// The text of a time in the table, or a dash.
pub open spec fn time_cell(t: Option<i128>) -> Seq<char> {
    match t {
        Some(ns) => utc_minute_text((ns as int) / (SECOND_NANOS as int)),
        None => "—"@,
    }
}

/// `ns` split into whole seconds (rounded down) and the nanoseconds after.
fn split_nanos(ns: i128) -> (r: (i64, u32))
    requires
        showable(ns),
    ensures
        r.0 == (ns as int) / (SECOND_NANOS as int),
        r.1 == (ns as int) % (SECOND_NANOS as int),
{
    if ns >= 0 {
        let m = ns as u128;
        let q = m / 1_000_000_000u128;
        let r = m % 1_000_000_000u128;
        proof {
            lemma_split_nonneg(ns as int, q as int, r as int);
        }
        (q as i64, r as u32)
    } else {
        let m = (-ns) as u128;
        let q = m / 1_000_000_000u128;
        let r = m % 1_000_000_000u128;
        proof {
            lemma_split_neg(ns as int, q as int, r as int);
        }
        if r == 0 {
            (-(q as i64), 0)
        } else {
            (-(q as i64) - 1, (1_000_000_000u128 - r) as u32)
        }
    }
}

proof fn lemma_split_nonneg(ns: int, q: int, r: int)
    requires
        ns >= 0,
        q == ns / 1_000_000_000,
        r == ns % 1_000_000_000,
    ensures
        q == ns / (SECOND_NANOS as int),
        r == ns % (SECOND_NANOS as int),
{
}

proof fn lemma_split_neg(ns: int, q: int, r: int)
    requires
        ns < 0,
        q == (-ns) / 1_000_000_000,
        r == (-ns) % 1_000_000_000,
    ensures
        r == 0 ==> -q == ns / (SECOND_NANOS as int) && 0 == ns % (SECOND_NANOS as int),
        r != 0 ==> -q - 1 == ns / (SECOND_NANOS as int) && 1_000_000_000 - r == ns % (SECOND_NANOS as int),
{
    let s = 1_000_000_000int;
    assert(-ns == q * s + r) by (nonlinear_arith)
        requires
            q == (-ns) / s,
            r == (-ns) % s,
            s > 0,
    ;
    if r == 0 {
        assert(ns == (-q) * s + 0) by (nonlinear_arith)
            requires
                -ns == q * s + r,
                r == 0,
        ;
        vstd::arithmetic::div_mod::lemma_fundamental_div_mod_converse(ns, s, -q, 0);
    } else {
        assert(ns == (-q - 1) * s + (s - r)) by (nonlinear_arith)
            requires
                -ns == q * s + r,
        ;
        assert(0 <= r < s);
        vstd::arithmetic::div_mod::lemma_fundamental_div_mod_converse(ns, s, -q - 1, s - r);
    }
}

fn append_time(out: &mut String, t: Option<i128>)
    requires
        t matches Some(ns) ==> showable(ns),
    ensures
        final(out)@ == old(out)@ + time_cell(t),
{
    match t {
        Some(ns) => {
            let (secs, sub) = split_nanos(ns);
            let text = format_utc(secs, sub, "%Y-%m-%d %H:%M UTC");
            append_string(out, &text);
        },
        None => append_str(out, "—"),
    }
}

/// The HTML text of one character: `&`, `<`, `>` and `"` as entities.
pub open spec fn esc_char(c: char) -> Seq<char> {
    if c == '&' {
        "&amp;"@
    } else if c == '<' {
        "&lt;"@
    } else if c == '>' {
        "&gt;"@
    } else if c == '"' {
        "&quot;"@
    } else {
        seq![c]
    }
}

pub open spec fn esc(s: Seq<char>) -> Seq<char>
    decreases s.len(),
{
    if s.len() == 0 {
        seq![]
    } else {
        esc(s.drop_last()) + esc_char(s.last())
    }
}

fn append_esc(out: &mut String, s: &str)
    ensures
        final(out)@ == old(out)@ + esc(s@),
{
    let cs = crate::text::chars_of(s);
    let mut i: usize = 0;
    while i < cs.len()
        invariant
            i <= cs@.len(),
            cs@ == s@,
            out@ == old(out)@ + esc(cs@.take(i as int)),
        decreases cs@.len() - i,
    {
        let c = cs[i];
        if c == '&' {
            append_str(out, "&amp;");
        } else if c == '<' {
            append_str(out, "&lt;");
        } else if c == '>' {
            append_str(out, "&gt;");
        } else if c == '"' {
            append_str(out, "&quot;");
        } else {
            push_char(out, c);
        }
        proof {
            assert(cs@.take(i + 1).drop_last() =~= cs@.take(i as int));
            assert(cs@.take(i + 1).last() == c);
            assert(out@ =~= old(out)@ + esc(cs@.take(i + 1)));
        }
        i += 1;
    }
    proof {
        assert(cs@.take(cs@.len() as int) =~= cs@);
    }
}

/// The error line under a failed job's name, when it has an error.
pub open spec fn error_line(s: JobStatus) -> Seq<char> {
    match s.last_error {
        Some(e) => if s.status@ == "failed"@ && esc(e@).len() > 0 {
            "<div class=\"err\">"@ + esc(e@) + "</div>"@
        } else {
            seq![]
        },
        None => seq![],
    }
}

pub open spec fn duration_cell(d: Option<u64>) -> Seq<char> {
    match d {
        Some(m) => decimal(m as nat) + " ms"@,
        None => "—"@,
    }
}

/// The first cells of a job's row: its status class, name (with the error
/// line), lane, priority and status badge.
pub open spec fn row_head(s: JobStatus) -> Seq<char> {
    "<tr class=\"st-"@ + esc(s.status@) + "\"><td>"@ + esc(s.job@) + error_line(s) + "</td><td>"@ + esc(s.lane@)
        + "</td><td>"@ + esc(s.priority@) + "</td><td><span class=\"badge\">"@ + esc(s.status@)
        + "</span></td>"@
}

/// The cells of a job's row with its last run, next run and duration.
pub open spec fn row_times(s: JobStatus) -> Seq<char> {
    "<td>"@ + time_cell(s.last_run) + "</td><td>"@ + time_cell(s.next_run) + "</td><td>"@ + duration_cell(
        s.last_duration_ms,
    ) + "</td>"@
}

/// The last cell of a job's row: the button that posts to
/// `<base>/<job>/run`.
pub open spec fn row_button(s: JobStatus, base: Seq<char>) -> Seq<char> {
    "<td><form method=\"post\" action=\""@ + esc(base) + "/"@ + esc(s.job@)
        + "/run\"><button>Run now</button></form></td></tr>"@
}

/// The last cells of a job's row.
pub open spec fn row_tail(s: JobStatus, base: Seq<char>) -> Seq<char> {
    row_times(s) + row_button(s, base)
}

pub open spec fn job_rows(ss: Seq<JobStatus>, base: Seq<char>) -> Seq<char>
    decreases ss.len(),
{
    if ss.len() == 0 {
        seq![]
    } else {
        job_rows(ss.drop_last(), base) + row_head(ss.last()) + row_tail(ss.last(), base)
    }
}

pub open spec fn jobs_head() -> Seq<char> {
    "<h1>Scheduled Jobs</h1><table class=\"jobs\"><thead><tr><th>Job</th><th>Lane</th><th>Priority</th><th>Status</th><th>Last run</th><th>Next run</th><th>Duration</th><th></th></tr></thead><tbody>"@
}

pub open spec fn jobs_tail() -> Seq<char> {
    "</tbody></table><style>.jobs{width:100%;border-collapse:collapse;font:14px -apple-system,sans-serif}.jobs th,.jobs td{text-align:left;padding:8px 10px;border-bottom:1px solid #eee}.jobs th{font-size:12px;color:#888;text-transform:uppercase;letter-spacing:.3px}.st-failed{background:#fff5f5} .st-running{background:#f0f7ff}.badge{font-size:12px;padding:2px 8px;border-radius:10px;background:#eee}.st-ok .badge{background:#e6f4ea;color:#137333}.st-failed .badge{background:#fce8e6;color:#c5221f}.st-running .badge{background:#e8f0fe;color:#1a73e8}.err{color:#c0392b;font-size:12px;margin-top:4px}.jobs button{padding:4px 10px;cursor:pointer}</style>"@
}

fn append_head(out: &mut String, s: &JobStatus)
    ensures
        final(out)@ == old(out)@ + row_head(*s),
{
    append_str(out, "<tr class=\"st-");
    append_esc(out, s.status.as_str());
    append_str(out, "\"><td>");
    append_esc(out, s.job.as_str());
    let ghost mid = out@;
    match &s.last_error {
        Some(e) => {
            let mut err = String::new();
            append_esc(&mut err, e.as_str());
            let failed = crate::text::eq_lit(&crate::text::chars_of(s.status.as_str()), "failed");
            if failed && err.unicode_len() > 0 {
                append_str(out, "<div class=\"err\">");
                append_string(out, &err);
                append_str(out, "</div>");
            }
        },
        None => {},
    }
    proof {
        assert(out@ =~= mid + error_line(*s));
    }
    append_str(out, "</td><td>");
    append_esc(out, s.lane.as_str());
    append_str(out, "</td><td>");
    append_esc(out, s.priority.as_str());
    append_str(out, "</td><td><span class=\"badge\">");
    append_esc(out, s.status.as_str());
    append_str(out, "</span></td>");
    proof {
        assert(final(out)@ =~= old(out)@ + row_head(*s));
    }
}

fn append_times(out: &mut String, s: &JobStatus)
    requires
        s.last_run matches Some(ns) ==> showable(ns),
        s.next_run matches Some(ns) ==> showable(ns),
    ensures
        final(out)@ == old(out)@ + row_times(*s),
{
    let ghost a = time_cell(s.last_run);
    let ghost b = time_cell(s.next_run);
    let ghost d = duration_cell(s.last_duration_ms);
    append_str(out, "<td>");
    append_time(out, s.last_run);
    append_str(out, "</td><td>");
    append_time(out, s.next_run);
    append_str(out, "</td><td>");
    let ghost mid = out@;
    append_duration(out, s.last_duration_ms);
    append_str(out, "</td>");
    proof {
        assert(mid =~= old(out)@ + "<td>"@ + a + "</td><td>"@ + b + "</td><td>"@);
        assert(final(out)@ =~= old(out)@ + row_times(*s));
    }
}

fn append_duration(out: &mut String, d: Option<u64>)
    ensures
        final(out)@ == old(out)@ + duration_cell(d),
{
    match d {
        Some(m) => {
            append_decimal(out, m);
            append_str(out, " ms");
            proof {
                assert(final(out)@ =~= old(out)@ + duration_cell(d));
            }
        },
        None => append_str(out, "—"),
    }
}

fn append_button(out: &mut String, s: &JobStatus, base: &str)
    ensures
        final(out)@ == old(out)@ + row_button(*s, base@),
{
    append_str(out, "<td><form method=\"post\" action=\"");
    append_esc(out, base);
    append_str(out, "/");
    append_esc(out, s.job.as_str());
    append_str(out, "/run\"><button>Run now</button></form></td></tr>");
    proof {
        assert(final(out)@ =~= old(out)@ + row_button(*s, base@));
    }
}

fn append_tail(out: &mut String, s: &JobStatus, base: &str)
    requires
        s.last_run matches Some(ns) ==> showable(ns),
        s.next_run matches Some(ns) ==> showable(ns),
    ensures
        final(out)@ == old(out)@ + row_tail(*s, base@),
{
    append_times(out, s);
    append_button(out, s, base);
    proof {
        assert(final(out)@ =~= old(out)@ + row_tail(*s, base@));
    }
}

/// The jobs table, one row per status in the order given; the buttons post
/// to `<post_base>/<job>/run`.
pub fn render(statuses: &[JobStatus], post_base: &str) -> (r: String)
    requires
        forall|i: int| 0 <= i < statuses@.len() ==> ((#[trigger] statuses@[i]).last_run matches Some(ns) ==> showable(ns)),
        forall|i: int| 0 <= i < statuses@.len() ==> ((#[trigger] statuses@[i]).next_run matches Some(ns) ==> showable(ns)),
    ensures
        r@ == jobs_head() + job_rows(statuses@, post_base@) + jobs_tail(),
{
    let mut out = String::new();
    append_str(&mut out, "<h1>Scheduled Jobs</h1><table class=\"jobs\"><thead><tr><th>Job</th><th>Lane</th><th>Priority</th><th>Status</th><th>Last run</th><th>Next run</th><th>Duration</th><th></th></tr></thead><tbody>");
    let ghost head = out@;
    let mut i: usize = 0;
    while i < statuses.len()
        invariant
            i <= statuses@.len(),
            forall|i: int| 0 <= i < statuses@.len() ==> ((#[trigger] statuses@[i]).last_run matches Some(ns) ==> showable(ns)),
            forall|i: int| 0 <= i < statuses@.len() ==> ((#[trigger] statuses@[i]).next_run matches Some(ns) ==> showable(ns)),
            out@ == head + job_rows(statuses@.take(i as int), post_base@),
        decreases statuses@.len() - i,
    {
        let s = &statuses[i];
        append_head(&mut out, s);
        append_tail(&mut out, s, post_base);
        proof {
            assert(statuses@.take(i + 1).drop_last() =~= statuses@.take(i as int));
            assert(statuses@.take(i + 1).last() == statuses@[i as int]);
        }
        i += 1;
    }
    append_str(&mut out, "</tbody></table><style>.jobs{width:100%;border-collapse:collapse;font:14px -apple-system,sans-serif}.jobs th,.jobs td{text-align:left;padding:8px 10px;border-bottom:1px solid #eee}.jobs th{font-size:12px;color:#888;text-transform:uppercase;letter-spacing:.3px}.st-failed{background:#fff5f5} .st-running{background:#f0f7ff}.badge{font-size:12px;padding:2px 8px;border-radius:10px;background:#eee}.st-ok .badge{background:#e6f4ea;color:#137333}.st-failed .badge{background:#fce8e6;color:#c5221f}.st-running .badge{background:#e8f0fe;color:#1a73e8}.err{color:#c0392b;font-size:12px;margin-top:4px}.jobs button{padding:4px 10px;cursor:pointer}</style>");
    proof {
        assert(statuses@.take(statuses@.len() as int) =~= statuses@);
        assert(out@ =~= jobs_head() + job_rows(statuses@, post_base@) + jobs_tail());
    }
    out
}

} // verus!
