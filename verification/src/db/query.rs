//! A `SELECT` builder: conditions (nested with AND / OR), ordering, limit
//! and offset, rendered as SQL with numbered placeholders.

use vstd::prelude::*;
use crate::text::{
    append_decimal, append_str, append_string, decimal, digit_char, digits_value, is_ascii_digit,
    string_from,
};
use crate::parser::split::join;
use crate::forms::json::{jm, jms, json_copy, lemma_jms_len, JModel, JsonValue};
use crate::db::sql::{lemma_join_take, placeholder, placeholders};

verus! {

#[derive(Debug)]
pub enum Condition {
    Eq(String, JsonValue),
    Ne(String, JsonValue),
    Gt(String, JsonValue),
    Lt(String, JsonValue),
    Gte(String, JsonValue),
    Lte(String, JsonValue),
    Like(String, String),
    In(String, Vec<JsonValue>),
    IsNull(String),
    IsNotNull(String),
    And(Vec<Condition>),
    Or(Vec<Condition>),
}

#[derive(Debug, Clone, Copy, PartialEq, Eq, Structural)]
pub enum Direction {
    Asc,
    Desc,
}

#[derive(Debug, Clone)]
pub struct OrderBy {
    pub column: String,
    pub direction: Direction,
}

#[derive(Debug)]
pub struct Query {
    pub table: String,
    pub conditions: Vec<Condition>,
    pub order_by: Vec<OrderBy>,
    pub limit: Option<usize>,
    pub offset: Option<usize>,
}

/// The parameters a condition contributes, in placeholder order.
pub open spec fn cparams(c: Condition) -> Seq<JModel>
    decreases c, 1int,
{
    match c {
        Condition::Eq(_, v) => seq![jm(v)],
        Condition::Ne(_, v) => seq![jm(v)],
        Condition::Gt(_, v) => seq![jm(v)],
        Condition::Lt(_, v) => seq![jm(v)],
        Condition::Gte(_, v) => seq![jm(v)],
        Condition::Lte(_, v) => seq![jm(v)],
        Condition::Like(_, p) => seq![JModel::Str(p@)],
        Condition::In(_, vs) => jms(vs@),
        Condition::IsNull(_) => seq![],
        Condition::IsNotNull(_) => seq![],
        Condition::And(cs) => cparams_all(cs@),
        Condition::Or(cs) => cparams_all(cs@),
    }
}

pub open spec fn cparams_all(cs: Seq<Condition>) -> Seq<JModel>
    decreases cs, 0int,
{
    if cs.len() == 0 {
        seq![]
    } else {
        cparams_all(cs.drop_last()) + cparams(cs.last())
    }
}

/// `col <op> $n`, `n` being one more than `k`, the parameters before it.
pub open spec fn compare_text(col: Seq<char>, op: Seq<char>, k: nat) -> Seq<char> {
    col + " "@ + op + " "@ + placeholder(k + 1)
}

/// The SQL of a condition whose parameters are numbered after `k` others.
pub open spec fn ctext(c: Condition, k: nat) -> Seq<char>
    decreases c, 1int,
{
    match c {
        Condition::Eq(col, _) => compare_text(col@, "="@, k),
        Condition::Ne(col, _) => compare_text(col@, "!="@, k),
        Condition::Gt(col, _) => compare_text(col@, ">"@, k),
        Condition::Lt(col, _) => compare_text(col@, "<"@, k),
        Condition::Gte(col, _) => compare_text(col@, ">="@, k),
        Condition::Lte(col, _) => compare_text(col@, "<="@, k),
        Condition::Like(col, _) => compare_text(col@, "LIKE"@, k),
        Condition::In(col, vs) => col@ + " IN ("@ + join(placeholders(k, vs@.len()), ", "@) + ")"@,
        Condition::IsNull(col) => col@ + " IS NULL"@,
        Condition::IsNotNull(col) => col@ + " IS NOT NULL"@,
        Condition::And(cs) => "("@ + join(ctexts(cs@, k), " AND "@) + ")"@,
        Condition::Or(cs) => "("@ + join(ctexts(cs@, k), " OR "@) + ")"@,
    }
}

/// The SQL of each condition of `cs`, numbering parameters on from `k`.
pub open spec fn ctexts(cs: Seq<Condition>, k: nat) -> Seq<Seq<char>>
    decreases cs, 0int,
{
    if cs.len() == 0 {
        seq![]
    } else {
        ctexts(cs.drop_last(), k).push(ctext(cs.last(), k + cparams_all(cs.drop_last()).len()))
    }
}

pub proof fn lemma_ctexts_len(cs: Seq<Condition>, k: nat)
    ensures
        ctexts(cs, k).len() == cs.len(),
    decreases cs.len(),
{
    if cs.len() > 0 {
        lemma_ctexts_len(cs.drop_last(), k);
    }
}

// ---------------------------------------------------------------------------
// Placeholder numbering
// ---------------------------------------------------------------------------

/// How many ASCII digits `s` starts with.
pub open spec fn lead_digits(s: Seq<char>) -> nat
    decreases s.len(),
{
    if s.len() > 0 && is_ascii_digit(s[0]) {
        1 + lead_digits(s.drop_first())
    } else {
        0
    }
}

/// The placeholder numbers a text holds, left to right: at each `$`, the
/// value of the digits right after it.
pub open spec fn dollar_numbers(s: Seq<char>) -> Seq<nat>
    decreases s.len(),
{
    if s.len() == 0 {
        seq![]
    } else if s[0] == '$' {
        let rest = s.drop_first();
        let n = lead_digits(rest);
        proof {
            lemma_lead_digits_bound(rest);
        }
        seq![digits_value(rest.take(n as int))] + dollar_numbers(rest.skip(n as int))
    } else {
        dollar_numbers(s.drop_first())
    }
}

/// The numbers `k+1`, `k+2`, .. `k+n`.
pub open spec fn numbered_from(k: nat, n: nat) -> Seq<nat> {
    Seq::new(n, |i: int| (k + i + 1) as nat)
}

/// `b` cannot continue a run of digits.
pub open spec fn starts_apart(b: Seq<char>) -> bool {
    b.len() == 0 || !is_ascii_digit(b[0])
}

pub proof fn lemma_lead_digits_bound(s: Seq<char>)
    ensures
        lead_digits(s) <= s.len(),
        forall|i: int| 0 <= i < lead_digits(s) ==> is_ascii_digit(#[trigger] s[i]),
        lead_digits(s) < s.len() ==> !is_ascii_digit(s[lead_digits(s) as int]),
    decreases s.len(),
{
    if s.len() > 0 && is_ascii_digit(s[0]) {
        lemma_lead_digits_bound(s.drop_first());
        assert forall|i: int| 0 <= i < lead_digits(s) implies is_ascii_digit(#[trigger] s[i]) by {
            if i > 0 {
                assert(s[i] == s.drop_first()[i - 1]);
            }
        }
    }
}

proof fn lemma_lead_digits_concat(a: Seq<char>, b: Seq<char>)
    requires
        starts_apart(b),
    ensures
        lead_digits(a + b) == lead_digits(a),
    decreases a.len(),
{
    if a.len() == 0 {
        assert(a + b =~= b);
    } else {
        assert((a + b)[0] == a[0]);
        assert((a + b).drop_first() =~= a.drop_first() + b);
        lemma_lead_digits_concat(a.drop_first(), b);
    }
}

/// A text without `$` holds no placeholder, also in front of another text.
proof fn lemma_dollar_free(a: Seq<char>, b: Seq<char>)
    requires
        !a.contains('$'),
    ensures
        dollar_numbers(a + b) == dollar_numbers(b),
    decreases a.len(),
{
    if a.len() == 0 {
        assert(a + b =~= b);
    } else {
        assert((a + b)[0] == a[0]);
        assert((a + b).drop_first() =~= a.drop_first() + b);
        assert(!a.drop_first().contains('$')) by {
            if a.drop_first().contains('$') {
                let w = choose|w: int| 0 <= w < a.drop_first().len() && a.drop_first()[w] == '$';
                assert(a[w + 1] == '$');
            }
        }
        lemma_dollar_free(a.drop_first(), b);
    }
}

/// The numbers of two texts side by side are those of each, in turn, when
/// the second cannot continue the first's digits.
proof fn lemma_dollar_concat(a: Seq<char>, b: Seq<char>)
    requires
        starts_apart(b),
    ensures
        dollar_numbers(a + b) == dollar_numbers(a) + dollar_numbers(b),
    decreases a.len(),
{
    if a.len() == 0 {
        assert(a + b =~= b);
        assert(dollar_numbers(a) + dollar_numbers(b) =~= dollar_numbers(b));
    } else {
        let ab = a + b;
        assert(ab[0] == a[0]);
        assert(ab.drop_first() =~= a.drop_first() + b);
        if a[0] == '$' {
            let rest = a.drop_first();
            lemma_lead_digits_concat(rest, b);
            lemma_lead_digits_bound(rest);
            let n = lead_digits(rest);
            assert((rest + b).take(n as int) =~= rest.take(n as int));
            assert((rest + b).skip(n as int) =~= rest.skip(n as int) + b);
            lemma_dollar_concat(rest.skip(n as int), b);
            assert(dollar_numbers(ab) =~= dollar_numbers(a) + dollar_numbers(b));
        } else {
            lemma_dollar_concat(a.drop_first(), b);
        }
    }
}

proof fn lemma_lead_digits_all(s: Seq<char>)
    requires
        forall|i: int| 0 <= i < s.len() ==> is_ascii_digit(#[trigger] s[i]),
    ensures
        lead_digits(s) == s.len(),
    decreases s.len(),
{
    if s.len() > 0 {
        assert forall|i: int| 0 <= i < s.drop_first().len() implies is_ascii_digit(
            #[trigger] s.drop_first()[i],
        ) by {
            assert(s.drop_first()[i] == s[i + 1]);
        }
        lemma_lead_digits_all(s.drop_first());
    }
}

pub proof fn lemma_decimal_digits(n: nat)
    ensures
        decimal(n).len() > 0,
        forall|i: int| 0 <= i < decimal(n).len() ==> is_ascii_digit(#[trigger] decimal(n)[i]),
        digits_value(decimal(n)) == n,
    decreases n,
{
    let d = n % 10;
    assert(digit_char(d) as u32 - '0' as u32 == d && is_ascii_digit(digit_char(d))) by {
        if d == 0 {} else if d == 1 {} else if d == 2 {} else if d == 3 {} else if d == 4 {}
        else if d == 5 {} else if d == 6 {} else if d == 7 {} else if d == 8 {} else {}
    }
    if n < 10 {
        let t = decimal(n);
        assert(t.drop_last() =~= Seq::<char>::empty());
        assert(digits_value(t.drop_last()) == 0);
        assert(t.last() == digit_char(d));
    } else {
        lemma_decimal_digits(n / 10);
        let t = decimal(n);
        assert(t.drop_last() =~= decimal(n / 10));
        assert(t.last() == digit_char(d));
        assert(digits_value(t) == (n / 10) * 10 + d);
        assert((n / 10) * 10 + n % 10 == n) by (nonlinear_arith);
        assert forall|i: int| 0 <= i < t.len() implies is_ascii_digit(#[trigger] t[i]) by {
            if i < t.len() - 1 {
                assert(t[i] == decimal(n / 10)[i]);
            }
        }
    }
}

/// A placeholder's text holds its own number.
proof fn lemma_placeholder_numbers(m: nat)
    ensures
        dollar_numbers(placeholder(m)) == seq![m],
{
    reveal_strlit("$");
    let s = placeholder(m);
    lemma_decimal_digits(m);
    assert(s[0] == '$');
    assert(s.drop_first() =~= decimal(m));
    assert(dollar_numbers(Seq::<char>::empty()) == Seq::<nat>::empty());
    lemma_lead_digits_all(decimal(m));
    assert(decimal(m).take(decimal(m).len() as int) =~= decimal(m));
    assert(decimal(m).skip(decimal(m).len() as int) =~= Seq::<char>::empty());
    assert(seq![m] + Seq::<nat>::empty() =~= seq![m]);
}

/// No column name in `c` holds a `$`.
pub open spec fn columns_plain(c: Condition) -> bool
    decreases c, 1int,
{
    match c {
        Condition::Eq(col, _) => !col@.contains('$'),
        Condition::Ne(col, _) => !col@.contains('$'),
        Condition::Gt(col, _) => !col@.contains('$'),
        Condition::Lt(col, _) => !col@.contains('$'),
        Condition::Gte(col, _) => !col@.contains('$'),
        Condition::Lte(col, _) => !col@.contains('$'),
        Condition::Like(col, _) => !col@.contains('$'),
        Condition::In(col, _) => !col@.contains('$'),
        Condition::IsNull(col) => !col@.contains('$'),
        Condition::IsNotNull(col) => !col@.contains('$'),
        Condition::And(cs) => columns_plain_all(cs@),
        Condition::Or(cs) => columns_plain_all(cs@),
    }
}

pub open spec fn columns_plain_all(cs: Seq<Condition>) -> bool
    decreases cs, 0int,
{
    if cs.len() == 0 {
        true
    } else {
        columns_plain_all(cs.drop_last()) && columns_plain(cs.last())
    }
}

proof fn lemma_no_dollar_concat(a: Seq<char>, b: Seq<char>)
    requires
        !a.contains('$'),
        !b.contains('$'),
    ensures
        !(a + b).contains('$'),
{
    if (a + b).contains('$') {
        let w = choose|w: int| 0 <= w < (a + b).len() && (a + b)[w] == '$';
        if w < a.len() {
            assert(a[w] == '$');
        } else {
            assert(b[w - a.len()] == '$');
        }
    }
}

/// Joined texts hold the numbers of all but the last, then the last's.
proof fn lemma_join_step(ts: Seq<Seq<char>>, sep: Seq<char>)
    requires
        ts.len() >= 2,
        sep.len() > 0,
        !is_ascii_digit(sep[0]),
        !sep.contains('$'),
    ensures
        dollar_numbers(join(ts, sep)) == dollar_numbers(join(ts.drop_last(), sep)) + dollar_numbers(
            ts.last(),
        ),
{
    let a = join(ts.drop_last(), sep);
    assert(join(ts, sep) == a + sep + ts.last());
    assert(a + sep + ts.last() =~= a + (sep + ts.last()));
    assert((sep + ts.last())[0] == sep[0]);
    lemma_dollar_concat(a, sep + ts.last());
    lemma_dollar_free(sep, ts.last());
}

proof fn lemma_join_placeholders(k: nat, n: nat)
    ensures
        dollar_numbers(join(placeholders(k, n), ", "@)) == numbered_from(k, n),
    decreases n,
{
    reveal_strlit(", ");
    let ps = placeholders(k, n);
    if n == 0 {
        assert(dollar_numbers(join(ps, ", "@)) =~= numbered_from(k, 0));
    } else if n == 1 {
        lemma_placeholder_numbers(k + 1);
        assert(numbered_from(k, 1) =~= seq![k + 1]);
    } else {
        assert(ps.drop_last() =~= placeholders(k, (n - 1) as nat));
        assert(!", "@.contains('$')) by {
            assert(", "@ =~= seq![',', ' ']);
        }
        lemma_join_step(ps, ", "@);
        lemma_join_placeholders(k, (n - 1) as nat);
        lemma_placeholder_numbers((k + n) as nat);
        assert(numbered_from(k, (n - 1) as nat) + seq![(k + n) as nat] =~= numbered_from(k, n));
    }
}

/// `(` + `inner` + `)` holds the numbers `inner` holds.
proof fn lemma_parens(inner: Seq<char>)
    ensures
        dollar_numbers("("@ + inner + ")"@) == dollar_numbers(inner),
{
    reveal_strlit("(");
    reveal_strlit(")");
    assert("("@ + inner + ")"@ =~= "("@ + (inner + ")"@));
    lemma_dollar_free("("@, inner + ")"@);
    lemma_dollar_concat(inner, ")"@);
    lemma_dollar_free(")"@, Seq::<char>::empty());
    assert(")"@ + Seq::<char>::empty() =~= ")"@);
    assert(dollar_numbers(Seq::<char>::empty()) == Seq::<nat>::empty());
    assert(dollar_numbers(inner) + Seq::<nat>::empty() =~= dollar_numbers(inner));
}

/// `col op $(k+1)` holds the one number `k+1`.
proof fn lemma_compare_numbers(col: Seq<char>, op: Seq<char>, k: nat)
    requires
        !col.contains('$'),
        !op.contains('$'),
    ensures
        dollar_numbers(compare_text(col, op, k)) == seq![k + 1],
{
    reveal_strlit(" ");
    assert(!" "@.contains('$')) by {
        assert(" "@ =~= seq![' ']);
    }
    lemma_no_dollar_concat(col, " "@);
    lemma_no_dollar_concat(col + " "@, op);
    lemma_no_dollar_concat(col + " "@ + op, " "@);
    lemma_dollar_free(col + " "@ + op + " "@, placeholder(k + 1));
    lemma_placeholder_numbers(k + 1);
}

/// A text without `$` holds no number.
proof fn lemma_plain_text(t: Seq<char>)
    requires
        !t.contains('$'),
    ensures
        dollar_numbers(t) == Seq::<nat>::empty(),
{
    lemma_dollar_free(t, Seq::<char>::empty());
    assert(t + Seq::<char>::empty() =~= t);
    assert(dollar_numbers(Seq::<char>::empty()) == Seq::<nat>::empty());
}

/// Placeholders count on from the parameters already collected: read left to
/// right, the SQL of a condition whose parameters follow `k` others holds
/// the placeholders `$k+1`, `$k+2`, .. one per parameter it adds, each number
/// once and in increasing order (column names being free of `$`).
pub proof fn law_placeholders_count_on(c: Condition, k: nat)
    requires
        columns_plain(c),
    ensures
        dollar_numbers(ctext(c, k)) == numbered_from(k, cparams(c).len()),
    decreases c, 1int,
{
    match c {
        Condition::Eq(col, _) => {
            reveal_strlit("=");
            assert("="@ =~= seq!['=']);
            lemma_compare_numbers(col@, "="@, k);
            assert(numbered_from(k, 1) =~= seq![k + 1]);
        },
        Condition::Ne(col, _) => {
            reveal_strlit("!=");
            assert("!="@ =~= seq!['!', '=']);
            lemma_compare_numbers(col@, "!="@, k);
            assert(numbered_from(k, 1) =~= seq![k + 1]);
        },
        Condition::Gt(col, _) => {
            reveal_strlit(">");
            assert(">"@ =~= seq!['>']);
            lemma_compare_numbers(col@, ">"@, k);
            assert(numbered_from(k, 1) =~= seq![k + 1]);
        },
        Condition::Lt(col, _) => {
            reveal_strlit("<");
            assert("<"@ =~= seq!['<']);
            lemma_compare_numbers(col@, "<"@, k);
            assert(numbered_from(k, 1) =~= seq![k + 1]);
        },
        Condition::Gte(col, _) => {
            reveal_strlit(">=");
            assert(">="@ =~= seq!['>', '=']);
            lemma_compare_numbers(col@, ">="@, k);
            assert(numbered_from(k, 1) =~= seq![k + 1]);
        },
        Condition::Lte(col, _) => {
            reveal_strlit("<=");
            assert("<="@ =~= seq!['<', '=']);
            lemma_compare_numbers(col@, "<="@, k);
            assert(numbered_from(k, 1) =~= seq![k + 1]);
        },
        Condition::Like(col, _) => {
            reveal_strlit("LIKE");
            assert("LIKE"@ =~= seq!['L', 'I', 'K', 'E']);
            lemma_compare_numbers(col@, "LIKE"@, k);
            assert(numbered_from(k, 1) =~= seq![k + 1]);
        },
        Condition::In(col, vs) => {
            reveal_strlit(" IN (");
            reveal_strlit(")");
            assert(" IN ("@ =~= seq![' ', 'I', 'N', ' ', '(']);
            lemma_jms_len(vs@);
            let j = join(placeholders(k, vs@.len()), ", "@);
            lemma_no_dollar_concat(col@, " IN ("@);
            assert(col@ + " IN ("@ + j + ")"@ =~= (col@ + " IN ("@) + (j + ")"@));
            lemma_dollar_free(col@ + " IN ("@, j + ")"@);
            assert(")"@ =~= seq![')']);
            lemma_dollar_concat(j, ")"@);
            lemma_plain_text(")"@);
            lemma_join_placeholders(k, vs@.len());
            assert(numbered_from(k, vs@.len()) + Seq::<nat>::empty() =~= numbered_from(k, vs@.len()));
        },
        Condition::IsNull(col) => {
            reveal_strlit(" IS NULL");
            assert(" IS NULL"@ =~= seq![' ', 'I', 'S', ' ', 'N', 'U', 'L', 'L']);
            lemma_no_dollar_concat(col@, " IS NULL"@);
            lemma_plain_text(col@ + " IS NULL"@);
            assert(numbered_from(k, 0) =~= Seq::<nat>::empty());
        },
        Condition::IsNotNull(col) => {
            reveal_strlit(" IS NOT NULL");
            assert(" IS NOT NULL"@ =~= seq![' ', 'I', 'S', ' ', 'N', 'O', 'T', ' ', 'N', 'U', 'L', 'L']);
            lemma_no_dollar_concat(col@, " IS NOT NULL"@);
            lemma_plain_text(col@ + " IS NOT NULL"@);
            assert(numbered_from(k, 0) =~= Seq::<nat>::empty());
        },
        Condition::And(cs) => {
            reveal_strlit(" AND ");
            assert(" AND "@ =~= seq![' ', 'A', 'N', 'D', ' ']);
            lemma_parens(join(ctexts(cs@, k), " AND "@));
            law_placeholders_count_on_all(cs@, k, " AND "@);
        },
        Condition::Or(cs) => {
            reveal_strlit(" OR ");
            assert(" OR "@ =~= seq![' ', 'O', 'R', ' ']);
            lemma_parens(join(ctexts(cs@, k), " OR "@));
            law_placeholders_count_on_all(cs@, k, " OR "@);
        },
    }
}

/// `law_placeholders_count_on` for conditions written in turn and joined
/// with `sep`.
pub proof fn law_placeholders_count_on_all(cs: Seq<Condition>, k: nat, sep: Seq<char>)
    requires
        columns_plain_all(cs),
        sep.len() > 0,
        !is_ascii_digit(sep[0]),
        !sep.contains('$'),
    ensures
        dollar_numbers(join(ctexts(cs, k), sep)) == numbered_from(k, cparams_all(cs).len()),
    decreases cs, 0int,
{
    lemma_ctexts_len(cs, k);
    if cs.len() == 0 {
        assert(dollar_numbers(join(ctexts(cs, k), sep)) =~= numbered_from(k, 0));
    } else {
        let n0 = cparams_all(cs.drop_last()).len();
        law_placeholders_count_on(cs.last(), k + n0);
        if cs.len() == 1 {
            assert(cs.drop_last() =~= Seq::<Condition>::empty());
            assert(n0 == 0);
            assert(ctexts(cs, k)[0] == ctext(cs.last(), k));
        } else {
            lemma_ctexts_len(cs.drop_last(), k);
            assert(ctexts(cs, k).drop_last() =~= ctexts(cs.drop_last(), k));
            lemma_join_step(ctexts(cs, k), sep);
            law_placeholders_count_on_all(cs.drop_last(), k, sep);
            assert(numbered_from(k, n0) + numbered_from(k + n0, cparams(cs.last()).len())
                =~= numbered_from(k, cparams_all(cs).len()));
        }
    }
}

pub open spec fn direction_text(d: Direction) -> Seq<char> {
    match d {
        Direction::Asc => "ASC"@,
        Direction::Desc => "DESC"@,
    }
}

pub open spec fn order_texts(os: Seq<OrderBy>) -> Seq<Seq<char>> {
    Seq::new(os.len(), |i: int| os[i].column@ + " "@ + direction_text(os[i].direction))
}

/// ` WHERE c1 AND c2 ...`, or nothing without conditions.
pub open spec fn where_text(cs: Seq<Condition>) -> Seq<char> {
    if cs.len() == 0 {
        seq![]
    } else {
        " WHERE "@ + join(ctexts(cs, 0), " AND "@)
    }
}

/// ` ORDER BY c1 ASC, ...`, or nothing without an ordering.
pub open spec fn order_text(os: Seq<OrderBy>) -> Seq<char> {
    if os.len() == 0 {
        seq![]
    } else {
        " ORDER BY "@ + join(order_texts(os), ", "@)
    }
}

/// The SQL of a query.
pub open spec fn query_text(q: Query) -> Seq<char> {
    "SELECT * FROM "@ + q.table@ + where_text(q.conditions@) + order_text(q.order_by@) + (match q.limit {
        Some(l) => " LIMIT "@ + decimal(l as nat),
        None => seq![],
    }) + (match q.offset {
        Some(o) => " OFFSET "@ + decimal(o as nat),
        None => seq![],
    })
}

proof fn lemma_group_smaller(c: Condition, cs: Vec<Condition>, i: int)
    requires
        c == Condition::And(cs) || c == Condition::Or(cs),
        0 <= i < cs@.len(),
    ensures
        decreases_to!(c => cs@[i]),
{
    if c is And {
        assert(c->And_0 == cs);
        assert(decreases_to!(c => c->And_0));
    } else {
        assert(c->Or_0 == cs);
        assert(decreases_to!(c => c->Or_0));
    }
    assert(decreases_to!(cs => cs@));
    assert(decreases_to!(cs@ => cs@[i]));
}

fn push_param(params: &mut Vec<JsonValue>, v: JsonValue, out: &mut String)
    ensures
        jms(final(params)@) == jms(old(params)@).push(jm(v)),
        final(out)@ == old(out)@ + placeholder(old(params)@.len() + 1),
{
    let ghost before = params@;
    params.push(v);
    proof {
        assert(params@.drop_last() =~= before);
    }
    append_str(out, "$");
    append_decimal(out, params.len() as u64);
    proof {
        assert(final(out)@ =~= old(out)@ + placeholder(old(params)@.len() + 1));
    }
}

fn compare_to_sql(col: &String, op: &str, v: JsonValue, params: &mut Vec<JsonValue>, out: &mut String)
    ensures
        jms(final(params)@) == jms(old(params)@).push(jm(v)),
        final(out)@ == old(out)@ + compare_text(col@, op@, old(params)@.len() as nat),
{
    append_string(out, col);
    append_str(out, " ");
    append_str(out, op);
    append_str(out, " ");
    push_param(params, v, out);
    proof {
        assert(final(out)@ =~= old(out)@ + compare_text(col@, op@, old(params)@.len() as nat));
    }
}

/// Appends the SQL of `c` to `out` and its parameters to `params`.
fn condition_to_sql(c: &Condition, params: &mut Vec<JsonValue>, out: &mut String)
    ensures
        jms(final(params)@) == jms(old(params)@) + cparams(*c),
        final(out)@ == old(out)@ + ctext(*c, old(params)@.len() as nat),
    decreases *c, 1int,
{
    proof {
        lemma_jms_len(old(params)@);
    }
    match c {
        Condition::Eq(col, v) => {
            compare_to_sql(col, "=", json_copy(v), params, out);
        },
        Condition::Ne(col, v) => {
            compare_to_sql(col, "!=", json_copy(v), params, out);
        },
        Condition::Gt(col, v) => {
            compare_to_sql(col, ">", json_copy(v), params, out);
        },
        Condition::Lt(col, v) => {
            compare_to_sql(col, "<", json_copy(v), params, out);
        },
        Condition::Gte(col, v) => {
            compare_to_sql(col, ">=", json_copy(v), params, out);
        },
        Condition::Lte(col, v) => {
            compare_to_sql(col, "<=", json_copy(v), params, out);
        },
        Condition::Like(col, p) => {
            compare_to_sql(col, "LIKE", JsonValue::Str(p.clone()), params, out);
        },
        Condition::In(col, vs) => {
            append_string(out, col);
            append_str(out, " IN (");
            let ghost k = old(params)@.len() as nat;
            let ghost parts = placeholders(k, vs@.len());
            let ghost start = out@;
            let ghost p0 = jms(old(params)@);
            let mut i: usize = 0;
            while i < vs.len()
                invariant
                    *c == Condition::In(*col, *vs),
                    i <= vs@.len(),
                    parts == placeholders(k, vs@.len()),
                    params@.len() == k + i,
                    jms(params@) == p0 + jms(vs@.take(i as int)),
                    out@ == start + join(parts.take(i as int), ", "@),
                decreases vs@.len() - i,
            {
                proof {
                    lemma_join_take(parts, ", "@, i as int);
                    lemma_jms_len(params@);
                }
                if i > 0 {
                    append_str(out, ", ");
                }
                let ghost before = jms(params@);
                push_param(params, json_copy(&vs[i]), out);
                proof {
                    lemma_jms_len(params@);
                    assert(vs@.take(i + 1).drop_last() =~= vs@.take(i as int));
                    assert(vs@.take(i + 1).last() == vs@[i as int]);
                    assert(jms(params@) =~= p0 + jms(vs@.take(i + 1)));
                }
                i += 1;
            }
            append_str(out, ")");
            proof {
                assert(vs@.take(vs@.len() as int) =~= vs@);
                assert(parts.take(vs@.len() as int) =~= parts);
            }
        },
        Condition::IsNull(col) => {
            append_string(out, col);
            append_str(out, " IS NULL");
        },
        Condition::IsNotNull(col) => {
            append_string(out, col);
            append_str(out, " IS NOT NULL");
        },
        Condition::And(_) => {
            group_to_sql(c, params, out);
        },
        Condition::Or(_) => {
            group_to_sql(c, params, out);
        },
    }
}

/// `condition_to_sql` for an AND or OR group.
fn group_to_sql(c: &Condition, params: &mut Vec<JsonValue>, out: &mut String)
    requires
        c is And || c is Or,
    ensures
        jms(final(params)@) == jms(old(params)@) + cparams(*c),
        final(out)@ == old(out)@ + ctext(*c, old(params)@.len() as nat),
    decreases *c, 0int,
{
    let (cs, sep): (&Vec<Condition>, &str) = match c {
        Condition::And(cs) => (cs, " AND "),
        Condition::Or(cs) => (cs, " OR "),
        _ => {
            proof {
                assert(false);
            }
            return;
        },
    };
    proof {
        lemma_jms_len(old(params)@);
        lemma_ctexts_len(cs@, old(params)@.len() as nat);
    }
    let ghost k = old(params)@.len() as nat;
    let ghost parts = ctexts(cs@, k);
    let ghost p0 = jms(old(params)@);
    append_str(out, "(");
    let ghost start = out@;
    let mut i: usize = 0;
    while i < cs.len()
        invariant
            *c == Condition::And(*cs) || *c == Condition::Or(*cs),
            c is And ==> sep@ == " AND "@,
            c is Or ==> sep@ == " OR "@,
            i <= cs@.len(),
            parts == ctexts(cs@, k),
            parts.len() == cs@.len(),
            params@.len() == k + cparams_all(cs@.take(i as int)).len(),
            jms(params@) == p0 + cparams_all(cs@.take(i as int)),
            out@ == start + join(parts.take(i as int), sep@),
        decreases cs@.len() - i,
    {
        proof {
            lemma_join_take(parts, sep@, i as int);
            lemma_group_smaller(*c, *cs, i as int);
            let t = cs@.take(i + 1);
            assert(t.drop_last() =~= cs@.take(i as int));
            assert(t.last() == cs@[i as int]);
            lemma_ctexts_prefix(cs@, k, i as int);
        }
        if i > 0 {
            append_str(out, sep);
        }
        let ghost before = params@;
        condition_to_sql(&cs[i], params, out);
        proof {
            lemma_jms_len(before);
            lemma_jms_len(params@);
            assert(jms(params@) =~= p0 + cparams_all(cs@.take(i + 1)));
        }
        i += 1;
    }
    append_str(out, ")");
    proof {
        assert(cs@.take(cs@.len() as int) =~= cs@);
        assert(parts.take(cs@.len() as int) =~= parts);
    }
}

/// Entry `i` of `ctexts(cs, k)` numbers its parameters after those of the
/// conditions before it.
pub proof fn lemma_ctexts_prefix(cs: Seq<Condition>, k: nat, i: int)
    requires
        0 <= i < cs.len(),
    ensures
        ctexts(cs, k)[i] == ctext(cs[i], k + cparams_all(cs.take(i)).len()),
    decreases cs.len(),
{
    lemma_ctexts_len(cs.drop_last(), k);
    if i < cs.len() - 1 {
        lemma_ctexts_prefix(cs.drop_last(), k, i);
        assert(cs.drop_last().take(i) =~= cs.take(i));
        assert(cs.drop_last()[i] == cs[i]);
    } else {
        assert(cs.take(i) =~= cs.drop_last());
    }
}

impl Query {
    /// A query of every row of `name`.
    pub fn table(name: &str) -> (r: Self)
        ensures
            r.table@ == name@,
            r.conditions@.len() == 0,
            r.order_by@.len() == 0,
            r.limit is None,
            r.offset is None,
    {
        Query { table: string_from(name), conditions: Vec::new(), order_by: Vec::new(), limit: None, offset: None }
    }

    /// The query with condition `c` added last.
    pub fn with_condition(self, c: Condition) -> (r: Self)
        ensures
            r.table == self.table,
            r.conditions@ == self.conditions@.push(c),
            r.order_by == self.order_by,
            r.limit == self.limit,
            r.offset == self.offset,
    {
        let Query { table, mut conditions, order_by, limit, offset } = self;
        conditions.push(c);
        Query { table, conditions, order_by, limit, offset }
    }

    pub fn where_eq(self, column: &str, value: JsonValue) -> (r: Self)
        ensures
            r.table == self.table,
            r.conditions@ == self.conditions@.push(Condition::Eq(r.conditions@.last()->Eq_0, value)),
            r.conditions@.last()->Eq_0@ == column@,
            r.order_by == self.order_by,
            r.limit == self.limit,
            r.offset == self.offset,
    {
        self.with_condition(Condition::Eq(string_from(column), value))
    }

    pub fn where_ne(self, column: &str, value: JsonValue) -> (r: Self)
        ensures
            r.table == self.table,
            r.conditions@ == self.conditions@.push(Condition::Ne(r.conditions@.last()->Ne_0, value)),
            r.conditions@.last()->Ne_0@ == column@,
            r.order_by == self.order_by,
            r.limit == self.limit,
            r.offset == self.offset,
    {
        self.with_condition(Condition::Ne(string_from(column), value))
    }

    pub fn where_gt(self, column: &str, value: JsonValue) -> (r: Self)
        ensures
            r.table == self.table,
            r.conditions@ == self.conditions@.push(Condition::Gt(r.conditions@.last()->Gt_0, value)),
            r.conditions@.last()->Gt_0@ == column@,
            r.order_by == self.order_by,
            r.limit == self.limit,
            r.offset == self.offset,
    {
        self.with_condition(Condition::Gt(string_from(column), value))
    }

    pub fn where_lt(self, column: &str, value: JsonValue) -> (r: Self)
        ensures
            r.table == self.table,
            r.conditions@ == self.conditions@.push(Condition::Lt(r.conditions@.last()->Lt_0, value)),
            r.conditions@.last()->Lt_0@ == column@,
            r.order_by == self.order_by,
            r.limit == self.limit,
            r.offset == self.offset,
    {
        self.with_condition(Condition::Lt(string_from(column), value))
    }

    pub fn where_gte(self, column: &str, value: JsonValue) -> (r: Self)
        ensures
            r.table == self.table,
            r.conditions@ == self.conditions@.push(Condition::Gte(r.conditions@.last()->Gte_0, value)),
            r.conditions@.last()->Gte_0@ == column@,
            r.order_by == self.order_by,
            r.limit == self.limit,
            r.offset == self.offset,
    {
        self.with_condition(Condition::Gte(string_from(column), value))
    }

    pub fn where_lte(self, column: &str, value: JsonValue) -> (r: Self)
        ensures
            r.table == self.table,
            r.conditions@ == self.conditions@.push(Condition::Lte(r.conditions@.last()->Lte_0, value)),
            r.conditions@.last()->Lte_0@ == column@,
            r.order_by == self.order_by,
            r.limit == self.limit,
            r.offset == self.offset,
    {
        self.with_condition(Condition::Lte(string_from(column), value))
    }

    pub fn where_like(self, column: &str, pattern: &str) -> (r: Self)
        ensures
            r.table == self.table,
            r.conditions@ == self.conditions@.push(r.conditions@.last()),
            r.conditions@.last() matches Condition::Like(c, p) && c@ == column@ && p@ == pattern@,
            r.order_by == self.order_by,
            r.limit == self.limit,
            r.offset == self.offset,
    {
        let r = self.with_condition(Condition::Like(string_from(column), string_from(pattern)));
        proof {
            assert(r.conditions@.drop_last() =~= self.conditions@);
        }
        r
    }

    pub fn where_in(self, column: &str, values: Vec<JsonValue>) -> (r: Self)
        ensures
            r.table == self.table,
            r.conditions@ == self.conditions@.push(Condition::In(r.conditions@.last()->In_0, values)),
            r.conditions@.last()->In_0@ == column@,
            r.order_by == self.order_by,
            r.limit == self.limit,
            r.offset == self.offset,
    {
        self.with_condition(Condition::In(string_from(column), values))
    }

    pub fn where_null(self, column: &str) -> (r: Self)
        ensures
            r.table == self.table,
            r.conditions@ == self.conditions@.push(r.conditions@.last()),
            r.conditions@.last() matches Condition::IsNull(c) && c@ == column@,
            r.order_by == self.order_by,
            r.limit == self.limit,
            r.offset == self.offset,
    {
        let r = self.with_condition(Condition::IsNull(string_from(column)));
        proof {
            assert(r.conditions@.drop_last() =~= self.conditions@);
        }
        r
    }

    pub fn where_not_null(self, column: &str) -> (r: Self)
        ensures
            r.table == self.table,
            r.conditions@ == self.conditions@.push(r.conditions@.last()),
            r.conditions@.last() matches Condition::IsNotNull(c) && c@ == column@,
            r.order_by == self.order_by,
            r.limit == self.limit,
            r.offset == self.offset,
    {
        let r = self.with_condition(Condition::IsNotNull(string_from(column)));
        proof {
            assert(r.conditions@.drop_last() =~= self.conditions@);
        }
        r
    }

    /// Adds the conjunction of `conditions` as one (parenthesised) condition.
    pub fn and(self, conditions: Vec<Condition>) -> (r: Self)
        ensures
            r.table == self.table,
            r.conditions@ == self.conditions@.push(Condition::And(conditions)),
            r.order_by == self.order_by,
            r.limit == self.limit,
            r.offset == self.offset,
    {
        self.with_condition(Condition::And(conditions))
    }

    /// Adds the disjunction of `conditions` as one (parenthesised) condition.
    pub fn or(self, conditions: Vec<Condition>) -> (r: Self)
        ensures
            r.table == self.table,
            r.conditions@ == self.conditions@.push(Condition::Or(conditions)),
            r.order_by == self.order_by,
            r.limit == self.limit,
            r.offset == self.offset,
    {
        self.with_condition(Condition::Or(conditions))
    }

    pub fn order_by(self, column: &str, direction: Direction) -> (r: Self)
        ensures
            r.table == self.table,
            r.conditions == self.conditions,
            r.order_by@.drop_last() == self.order_by@,
            r.order_by@.len() == self.order_by@.len() + 1,
            r.order_by@.last().column@ == column@,
            r.order_by@.last().direction == direction,
            r.limit == self.limit,
            r.offset == self.offset,
    {
        let Query { table, conditions, mut order_by, limit, offset } = self;
        order_by.push(OrderBy { column: string_from(column), direction });
        proof {
            assert(order_by@.drop_last() =~= self.order_by@);
        }
        Query { table, conditions, order_by, limit, offset }
    }

    pub fn limit(self, limit: usize) -> (r: Self)
        ensures
            r == (Query { limit: Some(limit), ..self }),
    {
        Query { limit: Some(limit), ..self }
    }

    pub fn offset(self, offset: usize) -> (r: Self)
        ensures
            r == (Query { offset: Some(offset), ..self }),
    {
        Query { offset: Some(offset), ..self }
    }

    /// The SQL of the query and its parameters in placeholder order.
    pub fn to_sql(&self) -> (r: (String, Vec<JsonValue>))
        ensures
            r.0@ == query_text(*self),
            jms(r.1@) == cparams_all(self.conditions@),
    {
        let mut params: Vec<JsonValue> = Vec::new();
        let mut sql = string_from("SELECT * FROM ");
        append_string(&mut sql, &self.table);
        where_to_sql(&self.conditions, &mut params, &mut sql);
        order_to_sql(&self.order_by, &mut sql);
        match self.limit {
            Some(l) => {
                append_str(&mut sql, " LIMIT ");
                append_decimal(&mut sql, l as u64);
            },
            None => {},
        }
        match self.offset {
            Some(o) => {
                append_str(&mut sql, " OFFSET ");
                append_decimal(&mut sql, o as u64);
            },
            None => {},
        }
        proof {
            assert(sql@ =~= query_text(*self));
        }
        (sql, params)
    }
}

fn where_to_sql(cs: &Vec<Condition>, params: &mut Vec<JsonValue>, sql: &mut String)
    requires
        old(params)@.len() == 0,
    ensures
        final(sql)@ == old(sql)@ + where_text(cs@),
        jms(final(params)@) == cparams_all(cs@),
{
    proof {
        lemma_ctexts_len(cs@, 0);
        assert(jms(params@) =~= Seq::<JModel>::empty());
    }
    if cs.len() > 0 {
        append_str(sql, " WHERE ");
        let ghost parts = ctexts(cs@, 0);
        let ghost start = sql@;
        let mut i: usize = 0;
        proof {
            assert(cs@.take(0) =~= Seq::<Condition>::empty());
            assert(jms(params@) =~= cparams_all(cs@.take(0)));
        }
        while i < cs.len()
            invariant
                i <= cs@.len(),
                parts == ctexts(cs@, 0),
                parts.len() == cs@.len(),
                params@.len() == cparams_all(cs@.take(i as int)).len(),
                jms(params@) == cparams_all(cs@.take(i as int)),
                sql@ == start + join(parts.take(i as int), " AND "@),
            decreases cs@.len() - i,
        {
            proof {
                lemma_join_take(parts, " AND "@, i as int);
                let t = cs@.take(i + 1);
                assert(t.drop_last() =~= cs@.take(i as int));
                assert(t.last() == cs@[i as int]);
                lemma_ctexts_prefix(cs@, 0, i as int);
                lemma_jms_len(params@);
            }
            if i > 0 {
                append_str(sql, " AND ");
            }
            condition_to_sql(&cs[i], params, sql);
            proof {
                lemma_jms_len(params@);
            }
            i += 1;
        }
        proof {
            assert(cs@.take(cs@.len() as int) =~= cs@);
            assert(parts.take(cs@.len() as int) =~= parts);
        }
    } else {
        proof {
            assert(cparams_all(cs@) =~= Seq::<JModel>::empty());
            assert(sql@ =~= old(sql)@ + where_text(cs@));
        }
    }
}

fn order_to_sql(os: &Vec<OrderBy>, sql: &mut String)
    ensures
        final(sql)@ == old(sql)@ + order_text(os@),
{
    if os.len() > 0 {
        append_str(sql, " ORDER BY ");
        let ghost parts = order_texts(os@);
        let ghost start = sql@;
        let mut i: usize = 0;
        while i < os.len()
            invariant
                i <= os@.len(),
                parts == order_texts(os@),
                sql@ == start + join(parts.take(i as int), ", "@),
            decreases os@.len() - i,
        {
            proof {
                lemma_join_take(parts, ", "@, i as int);
            }
            if i > 0 {
                append_str(sql, ", ");
            }
            append_string(sql, &os[i].column);
            append_str(sql, " ");
            match os[i].direction {
                Direction::Asc => append_str(sql, "ASC"),
                Direction::Desc => append_str(sql, "DESC"),
            }
            i += 1;
        }
        proof {
            assert(parts.take(os@.len() as int) =~= parts);
        }
    } else {
        proof {
            assert(sql@ =~= old(sql)@ + order_text(os@));
        }
    }
}

} // verus!
