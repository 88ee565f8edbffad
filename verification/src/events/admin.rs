//! The admin view of subscriptions: one status per subscription, and the
//! HTML table that shows them.

use vstd::prelude::*;
use crate::text::{
    append_decimal, append_str, append_string, decimal, lemma_text_order, push_char, starts_with,
    string_from, string_lt, text_lt,
};
use crate::events::subscription::Mode;

verus! {

/// The delivery state of one subscription.
#[derive(Debug, Clone)]
pub struct SubscriptionStatus {
    pub id: String,
    pub topic: String,
    pub mode: String,
    /// Last processed sequence number (durable only; 0 otherwise).
    pub last_seq: u64,
    /// Events behind the newest one (durable only).
    pub lag: u64,
    pub processed: u64,
    pub failed: u64,
    pub deadletter: u64,
}

/// `ss` is in order of id.
pub open spec fn sorted_by_id(ss: Seq<SubscriptionStatus>) -> bool {
    forall|i: int, j: int| 0 <= i < j < ss.len() ==> !text_lt(#[trigger] ss[j].id@, #[trigger] ss[i].id@)
}

/// The statuses in order of id, as the admin page lists them.
pub fn sort_by_id(v: Vec<SubscriptionStatus>) -> (r: Vec<SubscriptionStatus>)
    ensures
        r@.to_multiset() == v@.to_multiset(),
        sorted_by_id(r@),
{
    let ghost orig = v@;
    let n = v.len();
    let mut rest = v;
    let mut r: Vec<SubscriptionStatus> = Vec::new();
    let mut i: usize = 0;
    proof {
        assert(orig.skip(0) =~= orig);
        assert(orig.take(0) =~= Seq::<SubscriptionStatus>::empty());
        assert(r@ =~= Seq::<SubscriptionStatus>::empty());
    }
    while i < n
        invariant
            n == orig.len(),
            i <= n,
            rest@ == orig.skip(i as int),
            r@.to_multiset() == orig.take(i as int).to_multiset(),
            sorted_by_id(r@),
        decreases n - i,
    {
        let x = rest.remove(0);
        proof {
            assert(x == orig[i as int]);
            assert(rest@ =~= orig.skip(i + 1));
        }
        let mut p: usize = 0;
        while p < r.len() && !string_lt(&x.id, &r[p].id)
            invariant
                p <= r@.len(),
                forall|j: int| 0 <= j < p ==> !text_lt(x.id@, #[trigger] r@[j].id@),
            decreases r@.len() - p,
        {
            p += 1;
        }
        let ghost old_r = r@;
        r.insert(p, x);
        proof {
            vstd::seq_lib::to_multiset_insert(old_r, p as int, x);
            assert(orig.take(i + 1) =~= orig.take(i as int).push(x));
            vstd::seq_lib::to_multiset_build(orig.take(i as int), x);
            let nr = r@;
            assert(nr =~= old_r.insert(p as int, x));
            assert forall|a: int, b: int| 0 <= a < b < nr.len() implies !text_lt(#[trigger] nr[b].id@, #[trigger] nr[a].id@) by {
                if b < p {
                    assert(nr[a] == old_r[a] && nr[b] == old_r[b]);
                } else if b == p {
                    assert(nr[a] == old_r[a] && nr[b] == x);
                } else if a < p {
                    assert(nr[a] == old_r[a] && nr[b] == old_r[b - 1]);
                } else if a == p {
                    assert(nr[b] == old_r[b - 1] && nr[a] == x);
                    assert(text_lt(x.id@, old_r[p as int].id@));
                    lemma_text_order(x.id@, old_r[p as int].id@, old_r[b - 1].id@);
                    lemma_text_order(old_r[p as int].id@, old_r[b - 1].id@, x.id@);
                    lemma_text_order(old_r[b - 1].id@, x.id@, x.id@);
                } else {
                    assert(nr[a] == old_r[a - 1] && nr[b] == old_r[b - 1]);
                }
            }
        }
        i += 1;
    }
    proof {
        assert(orig.take(n as int) =~= orig);
    }
    r
}

/// The durable cursor of a subscription: last processed sequence number and
/// counts of processed and failed events.
pub struct Cursor {
    pub last_seq: u64,
    pub processed: u64,
    pub failed: u64,
}

/// The status of subscription `id` on `topic`. An ephemeral one shows only
/// its names; a durable one shows its cursor (zeros without one), how far it
/// lags behind `current` (never below zero) and its dead-letter count.
pub fn status_of(id: &str, topic: &str, mode: Mode, cursor: Option<Cursor>, deadletter: u64, current: u64) -> (r:
    SubscriptionStatus)
    ensures
        r.id@ == id@,
        r.topic@ == topic@,
        r.mode@ == (match mode {
            Mode::Durable => "durable"@,
            Mode::Ephemeral => "ephemeral"@,
        }),
        mode == Mode::Ephemeral ==> r.last_seq == 0 && r.lag == 0 && r.processed == 0 && r.failed == 0
            && r.deadletter == 0,
        mode == Mode::Durable ==> {
            let last = match cursor {
                Some(c) => c.last_seq,
                None => 0,
            };
            &&& r.last_seq == last
            &&& r.lag == (if current >= last {
                current - last
            } else {
                0
            })
            &&& r.processed == (match cursor {
                Some(c) => c.processed,
                None => 0,
            })
            &&& r.failed == (match cursor {
                Some(c) => c.failed,
                None => 0,
            })
            &&& r.deadletter == deadletter
        },
{
    match mode {
        Mode::Durable => {
            let (last_seq, processed, failed) = match cursor {
                Some(c) => (c.last_seq, c.processed, c.failed),
                None => (0, 0, 0),
            };
            SubscriptionStatus {
                id: string_from(id),
                topic: string_from(topic),
                mode: string_from("durable"),
                last_seq,
                lag: current.saturating_sub(last_seq),
                processed,
                failed,
                deadletter,
            }
        },
        Mode::Ephemeral => SubscriptionStatus {
            id: string_from(id),
            topic: string_from(topic),
            mode: string_from("ephemeral"),
            last_seq: 0,
            lag: 0,
            processed: 0,
            failed: 0,
            deadletter: 0,
        },
    }
}

/// The HTML text of one character: `&`, `<`, `>`, `"` and `'` as entities.
pub open spec fn esc_char(c: char) -> Seq<char> {
    if c == '&' {
        "&amp;"@
    } else if c == '<' {
        "&lt;"@
    } else if c == '>' {
        "&gt;"@
    } else if c == '"' {
        "&quot;"@
    } else if c == '\'' {
        "&#39;"@
    } else {
        seq![c]
    }
}

/// `s` as HTML text.
pub open spec fn esc(s: Seq<char>) -> Seq<char>
    decreases s.len(),
{
    if s.len() == 0 {
        seq![]
    } else {
        esc(s.drop_last()) + esc_char(s.last())
    }
}

/// Appends `esc(s)` to `out`.
pub fn append_esc(out: &mut String, s: &String)
    ensures
        final(out)@ == old(out)@ + esc(s@),
{
    let cs = crate::text::chars_of(s.as_str());
    let mut i: usize = 0;
    while i < cs.len()
        invariant
            i <= cs@.len(),
            cs@ == s@,
            out@ == old(out)@ + esc(cs@.take(i as int)),
        decreases cs@.len() - i,
    {
        let c = cs[i];
        if c == '&' {
            append_str(out, "&amp;");
        } else if c == '<' {
            append_str(out, "&lt;");
        } else if c == '>' {
            append_str(out, "&gt;");
        } else if c == '"' {
            append_str(out, "&quot;");
        } else if c == '\'' {
            append_str(out, "&#39;");
        } else {
            push_char(out, c);
        }
        proof {
            assert(cs@.take(i + 1).drop_last() =~= cs@.take(i as int));
            assert(cs@.take(i + 1).last() == c);
            assert(out@ =~= old(out)@ + esc(cs@.take(i + 1)));
        }
        i += 1;
    }
    proof {
        assert(cs@.take(cs@.len() as int) =~= cs@);
    }
}

/// The dead-letter cell: the count highlighted when non-zero, else `0`.
pub open spec fn deadletter_cell(n: u64) -> Seq<char> {
    if n > 0 {
        "<span class=\"dl\">"@ + decimal(n as nat) + "</span>"@
    } else {
        "0"@
    }
}

/// The cells of a row that hold names.
pub open spec fn row_names(s: SubscriptionStatus) -> Seq<char> {
    "<tr class=\"m-"@ + esc(s.mode@) + "\"><td>"@ + esc(s.id@) + "</td><td>"@ + esc(s.topic@)
        + "</td><td><span class=\"badge\">"@ + esc(s.mode@) + "</span></td><td>"@
}

/// The cells of a row that hold counts.
pub open spec fn row_counts(s: SubscriptionStatus) -> Seq<char> {
    decimal(s.last_seq as nat) + "</td><td>"@ + decimal(s.lag as nat) + "</td><td>"@ + decimal(s.processed as nat)
        + "</td><td>"@ + decimal(s.failed as nat) + "</td><td>"@ + deadletter_cell(s.deadletter) + "</td></tr>"@
}

/// The table row of one status.
pub open spec fn status_row(s: SubscriptionStatus) -> Seq<char> {
    row_names(s) + row_counts(s)
}

pub open spec fn status_rows(ss: Seq<SubscriptionStatus>) -> Seq<char>
    decreases ss.len(),
{
    if ss.len() == 0 {
        seq![]
    } else {
        status_rows(ss.drop_last()) + status_row(ss.last())
    }
}

/// The text before the rows.
pub open spec fn table_head() -> Seq<char> {
    "<h1>Event Subscriptions</h1><table class=\"subs\"><thead><tr><th>Subscription</th><th>Topic</th><th>Mode</th><th>Cursor</th><th>Lag</th><th>Processed</th><th>Failed</th><th>Dead-letter</th></tr></thead><tbody>"@
}

/// The text after the rows.
pub open spec fn table_tail() -> Seq<char> {
    "</tbody></table><style>.subs{width:100%;border-collapse:collapse;font:14px -apple-system,sans-serif}.subs th,.subs td{text-align:left;padding:8px 10px;border-bottom:1px solid #eee}.subs th{font-size:12px;color:#888;text-transform:uppercase;letter-spacing:.3px}.badge{font-size:12px;padding:2px 8px;border-radius:10px;background:#eee}.m-durable .badge{background:#e8f0fe;color:#1a73e8}.m-ephemeral .badge{background:#f1f3f4;color:#5f6368}.dl{color:#c5221f;font-weight:600}</style>"@
}

fn append_names(out: &mut String, s: &SubscriptionStatus)
    ensures
        final(out)@ == old(out)@ + row_names(*s),
{
    append_str(out, "<tr class=\"m-");
    append_esc(out, &s.mode);
    append_str(out, "\"><td>");
    append_esc(out, &s.id);
    append_str(out, "</td><td>");
    append_esc(out, &s.topic);
    append_str(out, "</td><td><span class=\"badge\">");
    append_esc(out, &s.mode);
    append_str(out, "</span></td><td>");
    proof {
        assert(final(out)@ =~= old(out)@ + row_names(*s));
    }
}

fn append_counts(out: &mut String, s: &SubscriptionStatus)
    ensures
        final(out)@ == old(out)@ + row_counts(*s),
{
    append_decimal(out, s.last_seq);
    append_str(out, "</td><td>");
    append_decimal(out, s.lag);
    append_str(out, "</td><td>");
    append_decimal(out, s.processed);
    append_str(out, "</td><td>");
    append_decimal(out, s.failed);
    append_str(out, "</td><td>");
    if s.deadletter > 0 {
        append_str(out, "<span class=\"dl\">");
        append_decimal(out, s.deadletter);
        append_str(out, "</span>");
    } else {
        append_str(out, "0");
    }
    append_str(out, "</td></tr>");
    proof {
        assert(final(out)@ =~= old(out)@ + row_counts(*s));
    }
}

fn append_row(out: &mut String, s: &SubscriptionStatus)
    ensures
        final(out)@ == old(out)@ + status_row(*s),
{
    append_names(out, s);
    append_counts(out, s);
    proof {
        assert(final(out)@ =~= old(out)@ + status_row(*s));
    }
}

/// The subscriptions table as a standalone HTML fragment, one row per status
/// in the order given.
pub fn render(statuses: &[SubscriptionStatus]) -> (r: String)
    ensures
        r@ == table_head() + status_rows(statuses@) + table_tail(),
{
    let mut out = String::new();
    append_str(&mut out, "<h1>Event Subscriptions</h1><table class=\"subs\"><thead><tr><th>Subscription</th><th>Topic</th><th>Mode</th><th>Cursor</th><th>Lag</th><th>Processed</th><th>Failed</th><th>Dead-letter</th></tr></thead><tbody>");
    let ghost head = out@;
    let mut i: usize = 0;
    while i < statuses.len()
        invariant
            i <= statuses@.len(),
            out@ == head + status_rows(statuses@.take(i as int)),
        decreases statuses@.len() - i,
    {
        append_row(&mut out, &statuses[i]);
        proof {
            assert(statuses@.take(i + 1).drop_last() =~= statuses@.take(i as int));
            assert(statuses@.take(i + 1).last() == statuses@[i as int]);
        }
        i += 1;
    }
    append_str(&mut out, "</tbody></table><style>.subs{width:100%;border-collapse:collapse;font:14px -apple-system,sans-serif}.subs th,.subs td{text-align:left;padding:8px 10px;border-bottom:1px solid #eee}.subs th{font-size:12px;color:#888;text-transform:uppercase;letter-spacing:.3px}.badge{font-size:12px;padding:2px 8px;border-radius:10px;background:#eee}.m-durable .badge{background:#e8f0fe;color:#1a73e8}.m-ephemeral .badge{background:#f1f3f4;color:#5f6368}.dl{color:#c5221f;font-weight:600}</style>");
    proof {
        assert(statuses@.take(statuses@.len() as int) =~= statuses@);
        assert(out@ =~= table_head() + status_rows(statuses@) + table_tail());
    }
    out
}


// ---------------------------------------------------------------------------
// Rows of the page
// ---------------------------------------------------------------------------

/// The text that opens each row of the table.
pub open spec fn row_open() -> Seq<char> {
    "<tr class=\"m-"@
}

/// How many rows a text opens: the places where `row_open()` starts.
pub open spec fn row_count(t: Seq<char>) -> nat
    decreases t.len(),
{
    if t.len() == 0 {
        0
    } else {
        (if starts_with(t, row_open()) {
            1nat
        } else {
            0nat
        }) + row_count(t.drop_first())
    }
}

/// Every `<` of `t` is followed, inside `t`, by something other than
/// `tr `, so no row opens in `t`, whatever follows it.
pub open spec fn no_row_start(t: Seq<char>) -> bool {
    forall|i: int|
        0 <= i < t.len() && #[trigger] t[i] == '<' ==> i + 3 < t.len() && !(t[i + 1] == 't' && t[i
            + 2] == 'r' && t[i + 3] == ' ')
}

proof fn lemma_row_open()
    ensures
        row_open().len() == 13,
        row_open()[0] == '<',
        row_open()[1] == 't',
        row_open()[2] == 'r',
        row_open()[3] == ' ',
        no_row_start(row_open().drop_first()),
{
    reveal_strlit("<tr class=\"m-");
}

proof fn lemma_count_after_plain(a: Seq<char>, b: Seq<char>)
    requires
        no_row_start(a),
    ensures
        row_count(a + b) == row_count(b),
    decreases a.len(),
{
    if a.len() == 0 {
        assert(a + b =~= b);
    } else {
        lemma_row_open();
        let ab = a + b;
        assert(ab[0] == a[0]);
        if starts_with(ab, row_open()) {
            assert(ab.subrange(0, 13)[0] == ab[0]);
            assert(a[0] == '<');
            assert(ab.subrange(0, 13)[1] == ab[1] && ab[1] == a[1]);
            assert(ab.subrange(0, 13)[2] == ab[2] && ab[2] == a[2]);
            assert(ab.subrange(0, 13)[3] == ab[3] && ab[3] == a[3]);
        }
        assert(ab.drop_first() =~= a.drop_first() + b);
        assert forall|i: int|
            0 <= i < a.drop_first().len() && #[trigger] a.drop_first()[i] == '<' implies i + 3
            < a.drop_first().len() && !(a.drop_first()[i + 1] == 't' && a.drop_first()[i + 2] == 'r'
            && a.drop_first()[i + 3] == ' ') by {
            assert(a.drop_first()[i] == a[i + 1]);
            assert(a[i + 1] == '<');
        }
        lemma_count_after_plain(a.drop_first(), b);
    }
}

proof fn lemma_plain_concat(a: Seq<char>, b: Seq<char>)
    requires
        no_row_start(a),
        no_row_start(b),
    ensures
        no_row_start(a + b),
{
    let ab = a + b;
    assert forall|i: int| 0 <= i < ab.len() && #[trigger] ab[i] == '<' implies i + 3 < ab.len()
        && !(ab[i + 1] == 't' && ab[i + 2] == 'r' && ab[i + 3] == ' ') by {
        if i < a.len() {
            assert(a[i] == '<');
            assert(ab[i + 1] == a[i + 1] && ab[i + 2] == a[i + 2] && ab[i + 3] == a[i + 3]);
        } else {
            let j = i - a.len();
            assert(b[j] == '<');
            assert(ab[i + 1] == b[j + 1] && ab[i + 2] == b[j + 2] && ab[i + 3] == b[j + 3]);
        }
    }
}

proof fn lemma_esc_plain(s: Seq<char>)
    ensures
        no_row_start(esc(s)),
    decreases s.len(),
{
    if s.len() > 0 {
        lemma_esc_plain(s.drop_last());
        let c = s.last();
        reveal_strlit("&amp;");
        reveal_strlit("&lt;");
        reveal_strlit("&gt;");
        reveal_strlit("&quot;");
        reveal_strlit("&#39;");
        assert(no_row_start(esc_char(c)));
        lemma_plain_concat(esc(s.drop_last()), esc_char(c));
    }
}

proof fn lemma_decimal_plain(n: nat)
    ensures
        no_row_start(decimal(n)),
{
    crate::db::query::lemma_decimal_digits(n);
    assert forall|i: int| 0 <= i < decimal(n).len() implies #[trigger] decimal(n)[i] != '<' by {
        assert(crate::text::is_ascii_digit(decimal(n)[i]));
    }
}

/// A row after the text that opens it.
pub open spec fn row_rest(s: SubscriptionStatus) -> Seq<char> {
    esc(s.mode@) + "\"><td>"@ + esc(s.id@) + "</td><td>"@ + esc(s.topic@) + "</td><td><span class=\"badge\">"@
        + esc(s.mode@) + "</span></td><td>"@ + row_counts(s)
}

proof fn lemma_row_rest_plain(s: SubscriptionStatus)
    ensures
        no_row_start(row_rest(s)),
{
    reveal_strlit("\"><td>");
    reveal_strlit("</td><td>");
    reveal_strlit("</td><td><span class=\"badge\">");
    reveal_strlit("</span></td><td>");
    reveal_strlit("</td></tr>");
    reveal_strlit("<span class=\"dl\">");
    reveal_strlit("</span>");
    reveal_strlit("0");
    let l1 = "\"><td>"@;
    let l2 = "</td><td>"@;
    let l3 = "</td><td><span class=\"badge\">"@;
    let l4 = "</span></td><td>"@;
    let l5 = "</td></tr>"@;
    assert(no_row_start(l1));
    assert(no_row_start(l2));
    assert(no_row_start(l3));
    assert(no_row_start(l4));
    assert(no_row_start(l5));
    lemma_esc_plain(s.mode@);
    lemma_esc_plain(s.id@);
    lemma_esc_plain(s.topic@);
    lemma_decimal_plain(s.last_seq as nat);
    lemma_decimal_plain(s.lag as nat);
    lemma_decimal_plain(s.processed as nat);
    lemma_decimal_plain(s.failed as nat);
    lemma_decimal_plain(s.deadletter as nat);
    let dl = deadletter_cell(s.deadletter);
    if s.deadletter > 0 {
        assert(no_row_start("<span class=\"dl\">"@));
        assert(no_row_start("</span>"@));
        lemma_plain_concat("<span class=\"dl\">"@, decimal(s.deadletter as nat));
        lemma_plain_concat("<span class=\"dl\">"@ + decimal(s.deadletter as nat), "</span>"@);
    } else {
        assert(no_row_start("0"@));
    }
    let m = esc(s.mode@);
    let x1 = m + l1;
    lemma_plain_concat(m, l1);
    let x2 = x1 + esc(s.id@);
    lemma_plain_concat(x1, esc(s.id@));
    let x3 = x2 + l2;
    lemma_plain_concat(x2, l2);
    let x4 = x3 + esc(s.topic@);
    lemma_plain_concat(x3, esc(s.topic@));
    let x5 = x4 + l3;
    lemma_plain_concat(x4, l3);
    let x6 = x5 + m;
    lemma_plain_concat(x5, m);
    let x7 = x6 + l4;
    lemma_plain_concat(x6, l4);
    let c1 = decimal(s.last_seq as nat) + l2;
    lemma_plain_concat(decimal(s.last_seq as nat), l2);
    let c2 = c1 + decimal(s.lag as nat);
    lemma_plain_concat(c1, decimal(s.lag as nat));
    let c3 = c2 + l2;
    lemma_plain_concat(c2, l2);
    let c4 = c3 + decimal(s.processed as nat);
    lemma_plain_concat(c3, decimal(s.processed as nat));
    let c5 = c4 + l2;
    lemma_plain_concat(c4, l2);
    let c6 = c5 + decimal(s.failed as nat);
    lemma_plain_concat(c5, decimal(s.failed as nat));
    let c7 = c6 + l2;
    lemma_plain_concat(c6, l2);
    let c8 = c7 + dl;
    lemma_plain_concat(c7, dl);
    let c9 = c8 + l5;
    lemma_plain_concat(c8, l5);
    assert(row_counts(s) == c9);
    lemma_plain_concat(x7, c9);
    assert(row_rest(s) == x7 + c9);
}

/// A row followed by `b` opens one row more than `b`.
proof fn lemma_row_count_row(s: SubscriptionStatus, b: Seq<char>)
    ensures
        row_count(status_row(s) + b) == 1 + row_count(b),
{
    lemma_row_open();
    lemma_row_rest_plain(s);
    let p = row_open();
    let x = status_row(s) + b;
    assert(status_row(s) =~= p + row_rest(s));
    assert(x =~= p + (row_rest(s) + b));
    assert(x.subrange(0, 13) =~= p);
    assert(starts_with(x, p));
    assert(x.drop_first() =~= (p.drop_first() + row_rest(s)) + b);
    lemma_plain_concat(p.drop_first(), row_rest(s));
    lemma_count_after_plain(p.drop_first() + row_rest(s), b);
}

proof fn lemma_row_count_rows(ss: Seq<SubscriptionStatus>, b: Seq<char>)
    ensures
        row_count(status_rows(ss) + b) == ss.len() + row_count(b),
    decreases ss.len(),
{
    if ss.len() == 0 {
        assert(status_rows(ss) + b =~= b);
    } else {
        let rest = status_rows(ss.drop_last());
        assert(status_rows(ss) + b =~= rest + (status_row(ss.last()) + b));
        lemma_row_count_rows(ss.drop_last(), status_row(ss.last()) + b);
        lemma_row_count_row(ss.last(), b);
    }
}

#[verifier::rlimit(100)]
proof fn lemma_head_plain()
    ensures
        no_row_start(table_head()),
        starts_with(table_head(), "<h1>Event Subscriptions</h1>"@),
{
    reveal_strlit("<h1>Event Subscriptions</h1><table class=\"subs\"><thead><tr><th>Subscription</th><th>Topic</th><th>Mode</th><th>Cursor</th><th>Lag</th><th>Processed</th><th>Failed</th><th>Dead-letter</th></tr></thead><tbody>");
    reveal_strlit("<h1>Event Subscriptions</h1>");
    assert(no_row_start(table_head()));
    assert(table_head().subrange(0, 28) =~= "<h1>Event Subscriptions</h1>"@);
}

#[verifier::rlimit(100)]
proof fn lemma_tail_plain()
    ensures
        no_row_start(table_tail()),
{
    reveal_strlit("</tbody></table><style>.subs{width:100%;border-collapse:collapse;font:14px -apple-system,sans-serif}.subs th,.subs td{text-align:left;padding:8px 10px;border-bottom:1px solid #eee}.subs th{font-size:12px;color:#888;text-transform:uppercase;letter-spacing:.3px}.badge{font-size:12px;padding:2px 8px;border-radius:10px;background:#eee}.m-durable .badge{background:#e8f0fe;color:#1a73e8}.m-ephemeral .badge{background:#f1f3f4;color:#5f6368}.dl{color:#c5221f;font-weight:600}</style>");
    assert(no_row_start(table_tail()));
}

/// The page starts with its heading and opens exactly one row per status;
/// the rows come in the order given (`status_rows`).
pub proof fn law_render_one_row_per_status(ss: Seq<SubscriptionStatus>)
    ensures
        starts_with(table_head() + status_rows(ss) + table_tail(), "<h1>Event Subscriptions</h1>"@),
        row_count(table_head() + status_rows(ss) + table_tail()) == ss.len(),
{
    lemma_head_plain();
    lemma_tail_plain();
    let h = table_head();
    let t = table_tail();
    let page = h + status_rows(ss) + t;
    assert(page =~= h + (status_rows(ss) + t));
    lemma_count_after_plain(h, status_rows(ss) + t);
    lemma_row_count_rows(ss, t);
    lemma_count_after_plain(t, Seq::<char>::empty());
    assert(t + Seq::<char>::empty() =~= t);
    assert(row_count(Seq::<char>::empty()) == 0);
    let w = "<h1>Event Subscriptions</h1>"@;
    assert(h.subrange(0, w.len() as int) == w);
    assert(page.subrange(0, w.len() as int) =~= h.subrange(0, w.len() as int));
}
} // verus!
