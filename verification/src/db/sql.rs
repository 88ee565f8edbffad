//! SQL text for the common statements, with `$1`, `$2`, ... placeholders and
//! the parameters in placeholder order. Column data comes as entries in the
//! order the columns are to appear.

use vstd::prelude::*;
use crate::text::{append_decimal, append_str, append_string, decimal, string_eq, string_from};
use crate::parser::split::join;
use crate::forms::json::{jentries, jm, jms, json_copy, lemma_jentries_len, lemma_jms_len, JModel, JsonValue};

verus! {

/// `join` of the first `i + 1` parts extends that of the first `i`.
pub proof fn lemma_join_take(parts: Seq<Seq<char>>, sep: Seq<char>, i: int)
    requires
        0 <= i < parts.len(),
    ensures
        join(parts.take(i + 1), sep) == (if i == 0 {
            parts[0]
        } else {
            join(parts.take(i), sep) + sep + parts[i]
        }),
{
    assert(parts.take(i + 1).drop_last() =~= parts.take(i));
    assert(parts.take(i + 1).last() == parts[i]);
    if i == 0 {
        assert(parts.take(1)[0] == parts[0]);
    }
}

/// `$n`.
pub open spec fn placeholder(n: nat) -> Seq<char> {
    "$"@ + decimal(n)
}

/// The placeholders `$(lo+1)` .. `$(lo+n)`.
pub open spec fn placeholders(lo: nat, n: nat) -> Seq<Seq<char>> {
    Seq::new(n, |i: int| placeholder((lo + i + 1) as nat))
}

pub open spec fn entry_keys(es: Seq<(Seq<char>, JModel)>) -> Seq<Seq<char>> {
    Seq::new(es.len(), |i: int| es[i].0)
}

pub open spec fn entry_values(es: Seq<(Seq<char>, JModel)>) -> Seq<JModel> {
    Seq::new(es.len(), |i: int| es[i].1)
}

/// `col = $(i+1)` for each column.
pub open spec fn assignments(es: Seq<(Seq<char>, JModel)>) -> Seq<Seq<char>> {
    Seq::new(es.len(), |i: int| es[i].0 + " = "@ + placeholder((i + 1) as nat))
}

/// `col = EXCLUDED.col` for each column other than `conflict`.
pub open spec fn excluded_sets(cols: Seq<Seq<char>>, conflict: Seq<char>) -> Seq<Seq<char>>
    decreases cols.len(),
{
    if cols.len() == 0 {
        seq![]
    } else {
        let rest = excluded_sets(cols.drop_last(), conflict);
        if cols.last() == conflict {
            rest
        } else {
            rest.push(cols.last() + " = EXCLUDED."@ + cols.last())
        }
    }
}

fn append_placeholder(out: &mut String, n: usize)
    ensures
        final(out)@ == old(out)@ + placeholder(n as nat),
{
    append_str(out, "$");
    append_decimal(out, n as u64);
    proof {
        assert(final(out)@ =~= old(out)@ + placeholder(n as nat));
    }
}

/// Copies of the values of `data`, in order.
fn values_of(data: &Vec<(String, JsonValue)>) -> (r: Vec<JsonValue>)
    ensures
        jms(r@) == entry_values(jentries(data@)),
{
    proof {
        lemma_jentries_len(data@);
    }
    let mut r: Vec<JsonValue> = Vec::new();
    let mut i: usize = 0;
    while i < data.len()
        invariant
            i <= data@.len(),
            r@.len() == i,
            forall|j: int| 0 <= j < i ==> #[trigger] jm(r@[j]) == jm(data@[j].1),
        decreases data@.len() - i,
    {
        let c = json_copy(&data[i].1);
        r.push(c);
        proof {
            assert(r@[i as int] == c);
        }
        i += 1;
    }
    proof {
        lemma_jms_len(r@);
        assert(jms(r@) =~= entry_values(jentries(data@)));
    }
    r
}

/// Appends the keys of `data` joined by `", "`.
fn append_keys(out: &mut String, data: &Vec<(String, JsonValue)>)
    ensures
        final(out)@ == old(out)@ + join(entry_keys(jentries(data@)), ", "@),
{
    proof {
        lemma_jentries_len(data@);
    }
    let ghost parts = entry_keys(jentries(data@));
    let mut i: usize = 0;
    while i < data.len()
        invariant
            i <= data@.len(),
            parts == entry_keys(jentries(data@)),
            parts.len() == data@.len(),
            forall|j: int| 0 <= j < data@.len() ==> #[trigger] parts[j] == data@[j].0@,
            out@ == old(out)@ + join(parts.take(i as int), ", "@),
        decreases data@.len() - i,
    {
        proof {
            lemma_join_take(parts, ", "@, i as int);
        }
        if i > 0 {
            append_str(out, ", ");
        }
        append_string(out, &data[i].0);
        i += 1;
    }
    proof {
        assert(parts.take(data@.len() as int) =~= parts);
    }
}

/// Appends `$1, $2, ..., $n`.
fn append_placeholders(out: &mut String, n: usize)
    ensures
        final(out)@ == old(out)@ + join(placeholders(0, n as nat), ", "@),
{
    let ghost parts = placeholders(0, n as nat);
    let mut i: usize = 0;
    while i < n
        invariant
            i <= n,
            parts == placeholders(0, n as nat),
            out@ == old(out)@ + join(parts.take(i as int), ", "@),
        decreases n - i,
    {
        proof {
            lemma_join_take(parts, ", "@, i as int);
        }
        if i > 0 {
            append_str(out, ", ");
        }
        append_placeholder(out, i + 1);
        i += 1;
    }
    proof {
        assert(parts.take(n as int) =~= parts);
    }
}

/// `INSERT INTO <table> (<cols>) VALUES ($1, ...) RETURNING *`, with the
/// values as parameters.
pub fn insert_sql(table: &str, data: &Vec<(String, JsonValue)>) -> (r: (String, Vec<JsonValue>))
    ensures
        r.0@ == "INSERT INTO "@ + table@ + " ("@ + join(entry_keys(jentries(data@)), ", "@) + ") VALUES ("@
            + join(placeholders(0, data@.len()), ", "@) + ") RETURNING *"@,
        jms(r.1@) == entry_values(jentries(data@)),
{
    let mut s = string_from("INSERT INTO ");
    append_str(&mut s, table);
    append_str(&mut s, " (");
    append_keys(&mut s, data);
    append_str(&mut s, ") VALUES (");
    append_placeholders(&mut s, data.len());
    append_str(&mut s, ") RETURNING *");
    (s, values_of(data))
}

/// `UPDATE <table> SET c1 = $1, ... WHERE <id_column> = $(n+1) RETURNING *`,
/// with the values and then the id as parameters.
pub fn update_sql(table: &str, id_column: &str, id_value: &JsonValue, data: &Vec<(String, JsonValue)>) -> (r: (
    String,
    Vec<JsonValue>,
))
    requires
        data@.len() < usize::MAX,
    ensures
        r.0@ == "UPDATE "@ + table@ + " SET "@ + join(assignments(jentries(data@)), ", "@) + " WHERE "@
            + id_column@ + " = "@ + placeholder((data@.len() + 1) as nat) + " RETURNING *"@,
        jms(r.1@) == entry_values(jentries(data@)).push(jm(*id_value)),
{
    proof {
        lemma_jentries_len(data@);
    }
    let mut s = string_from("UPDATE ");
    append_str(&mut s, table);
    append_str(&mut s, " SET ");
    let ghost parts = assignments(jentries(data@));
    let ghost start = s@;
    let mut i: usize = 0;
    while i < data.len()
        invariant
            i <= data@.len(),
            data@.len() < usize::MAX,
            parts == assignments(jentries(data@)),
            parts.len() == data@.len(),
            forall|j: int| 0 <= j < data@.len() ==> #[trigger] parts[j] == data@[j].0@ + " = "@ + placeholder((j + 1) as nat),
            s@ == start + join(parts.take(i as int), ", "@),
        decreases data@.len() - i,
    {
        proof {
            lemma_join_take(parts, ", "@, i as int);
        }
        if i > 0 {
            append_str(&mut s, ", ");
        }
        append_string(&mut s, &data[i].0);
        append_str(&mut s, " = ");
        append_placeholder(&mut s, i + 1);
        i += 1;
    }
    proof {
        assert(parts.take(data@.len() as int) =~= parts);
    }
    append_str(&mut s, " WHERE ");
    append_str(&mut s, id_column);
    append_str(&mut s, " = ");
    append_placeholder(&mut s, data.len() + 1);
    append_str(&mut s, " RETURNING *");
    let mut params = values_of(data);
    let ghost before = params@;
    params.push(json_copy(id_value));
    proof {
        assert(params@.drop_last() =~= before);
    }
    (s, params)
}

/// `DELETE FROM <table> WHERE <id_column> = $1`, with the id as parameter.
pub fn delete_sql(table: &str, id_column: &str, id_value: &JsonValue) -> (r: (String, Vec<JsonValue>))
    ensures
        r.0@ == "DELETE FROM "@ + table@ + " WHERE "@ + id_column@ + " = $1"@,
        jms(r.1@) == seq![jm(*id_value)],
{
    let mut s = string_from("DELETE FROM ");
    append_str(&mut s, table);
    append_str(&mut s, " WHERE ");
    append_str(&mut s, id_column);
    append_str(&mut s, " = $1");
    let mut params: Vec<JsonValue> = Vec::new();
    params.push(json_copy(id_value));
    proof {
        lemma_jms_len(params@);
        assert(jms(params@) =~= seq![jm(*id_value)]);
    }
    (s, params)
}

/// `SELECT * FROM <table> WHERE <id_column> = $1`, with the id as parameter.
pub fn select_by_id_sql(table: &str, id_column: &str, id_value: &JsonValue) -> (r: (String, Vec<JsonValue>))
    ensures
        r.0@ == "SELECT * FROM "@ + table@ + " WHERE "@ + id_column@ + " = $1"@,
        jms(r.1@) == seq![jm(*id_value)],
{
    let mut s = string_from("SELECT * FROM ");
    append_str(&mut s, table);
    append_str(&mut s, " WHERE ");
    append_str(&mut s, id_column);
    append_str(&mut s, " = $1");
    let mut params: Vec<JsonValue> = Vec::new();
    params.push(json_copy(id_value));
    proof {
        lemma_jms_len(params@);
        assert(jms(params@) =~= seq![jm(*id_value)]);
    }
    (s, params)
}

/// `SELECT COUNT(*) as count FROM <table>`.
pub fn count_sql(table: &str) -> (r: String)
    ensures
        r@ == "SELECT COUNT(*) as count FROM "@ + table@,
{
    let mut s = string_from("SELECT COUNT(*) as count FROM ");
    append_str(&mut s, table);
    s
}

/// `TRUNCATE TABLE <table> CASCADE`.
pub fn truncate_sql(table: &str) -> (r: String)
    ensures
        r@ == "TRUNCATE TABLE "@ + table@ + " CASCADE"@,
{
    let mut s = string_from("TRUNCATE TABLE ");
    append_str(&mut s, table);
    append_str(&mut s, " CASCADE");
    s
}

/// `INSERT ... ON CONFLICT (<conflict>) DO UPDATE SET c = EXCLUDED.c, ...
/// RETURNING *`, every column but the conflict column being updated.
pub fn upsert_sql(table: &str, conflict_column: &str, data: &Vec<(String, JsonValue)>) -> (r: (String, Vec<JsonValue>))
    ensures
        r.0@ == "INSERT INTO "@ + table@ + " ("@ + join(entry_keys(jentries(data@)), ", "@) + ") VALUES ("@
            + join(placeholders(0, data@.len()), ", "@) + ") ON CONFLICT ("@ + conflict_column@
            + ") DO UPDATE SET "@ + join(excluded_sets(entry_keys(jentries(data@)), conflict_column@), ", "@)
            + " RETURNING *"@,
        jms(r.1@) == entry_values(jentries(data@)),
{
    proof {
        lemma_jentries_len(data@);
    }
    let mut s = string_from("INSERT INTO ");
    append_str(&mut s, table);
    append_str(&mut s, " (");
    append_keys(&mut s, data);
    append_str(&mut s, ") VALUES (");
    append_placeholders(&mut s, data.len());
    append_str(&mut s, ") ON CONFLICT (");
    append_str(&mut s, conflict_column);
    append_str(&mut s, ") DO UPDATE SET ");
    let conflict = string_from(conflict_column);
    let ghost cols = entry_keys(jentries(data@));
    let ghost start = s@;
    let mut first = true;
    let mut i: usize = 0;
    while i < data.len()
        invariant
            i <= data@.len(),
            cols == entry_keys(jentries(data@)),
            cols.len() == data@.len(),
            conflict@ == conflict_column@,
            forall|j: int| 0 <= j < data@.len() ==> #[trigger] cols[j] == data@[j].0@,
            first == (excluded_sets(cols.take(i as int), conflict@).len() == 0),
            s@ == start + join(excluded_sets(cols.take(i as int), conflict@), ", "@),
        decreases data@.len() - i,
    {
        let ghost prev = excluded_sets(cols.take(i as int), conflict@);
        proof {
            assert(cols.take(i + 1).drop_last() =~= cols.take(i as int));
            assert(cols.take(i + 1).last() == cols[i as int]);
        }
        if !string_eq(&data[i].0, &conflict) {
            proof {
                let parts = prev.push(cols[i as int] + " = EXCLUDED."@ + cols[i as int]);
                assert(parts.drop_last() =~= prev);
            }
            if !first {
                append_str(&mut s, ", ");
            }
            append_string(&mut s, &data[i].0);
            append_str(&mut s, " = EXCLUDED.");
            append_string(&mut s, &data[i].0);
            first = false;
            proof {
                let parts = prev.push(cols[i as int] + " = EXCLUDED."@ + cols[i as int]);
                if prev.len() == 0 {
                    assert(parts.len() == 1);
                }
            }
        }
        i += 1;
    }
    proof {
        assert(cols.take(data@.len() as int) =~= cols);
    }
    append_str(&mut s, " RETURNING *");
    (s, values_of(data))
}

} // verus!
