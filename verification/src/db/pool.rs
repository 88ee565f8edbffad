//! An in-memory stand-in for a database: named tables of JSON rows.

use vstd::prelude::*;
use crate::text::{string_eq, string_from};
use crate::forms::json::{jentries, jm, json_copy, JModel, JsonValue};

verus! {

/// The rows of table `name` in `ts`, as values (the first table so named).
pub open spec fn rows_in(ts: Seq<(String, Vec<JsonValue>)>, name: Seq<char>) -> Option<Seq<JModel>>
    decreases ts.len(),
{
    if ts.len() == 0 {
        None
    } else if ts[0].0@ == name {
        Some(ts[0].1@.map_values(|v: JsonValue| jm(v)))
    } else {
        rows_in(ts.drop_first(), name)
    }
}

/// The rows of a table that may not exist: none.
pub open spec fn rows_or_none(r: Option<Seq<JModel>>) -> Seq<JModel> {
    match r {
        Some(rows) => rows,
        None => seq![],
    }
}

proof fn lemma_rows_in_index(ts: Seq<(String, Vec<JsonValue>)>, name: Seq<char>, i: int)
    requires
        0 <= i < ts.len(),
        ts[i].0@ == name,
        forall|j: int| 0 <= j < i ==> #[trigger] ts[j].0@ != name,
    ensures
        rows_in(ts, name) == Some(ts[i].1@.map_values(|v: JsonValue| jm(v))),
    decreases i,
{
    if i > 0 {
        let t = ts.drop_first();
        assert forall|j: int| 0 <= j < i - 1 implies #[trigger] t[j].0@ != name by {
            assert(t[j] == ts[j + 1]);
        }
        lemma_rows_in_index(t, name, i - 1);
    }
}

proof fn lemma_rows_in_absent(ts: Seq<(String, Vec<JsonValue>)>, name: Seq<char>)
    requires
        forall|j: int| 0 <= j < ts.len() ==> #[trigger] ts[j].0@ != name,
    ensures
        rows_in(ts, name) is None,
    decreases ts.len(),
{
    if ts.len() > 0 {
        let t = ts.drop_first();
        assert forall|j: int| 0 <= j < t.len() implies #[trigger] t[j].0@ != name by {
            assert(t[j] == ts[j + 1]);
        }
        lemma_rows_in_absent(t, name);
    }
}

/// Changing table `i` (named `name`) leaves the rows of every other name.
proof fn lemma_rows_in_update(ts: Seq<(String, Vec<JsonValue>)>, i: int, e: (String, Vec<JsonValue>), q: Seq<char>)
    requires
        0 <= i < ts.len(),
        e.0@ == ts[i].0@,
        q != ts[i].0@,
    ensures
        rows_in(ts.update(i, e), q) == rows_in(ts, q),
    decreases ts.len(),
{
    let u = ts.update(i, e);
    if i > 0 {
        lemma_rows_in_update(ts.drop_first(), i - 1, e, q);
        assert(u.drop_first() =~= ts.drop_first().update(i - 1, e));
    } else {
        assert(u.drop_first() =~= ts.drop_first());
    }
}

proof fn lemma_rows_in_push(ts: Seq<(String, Vec<JsonValue>)>, e: (String, Vec<JsonValue>), q: Seq<char>)
    requires
        rows_in(ts, e.0@) is None,
    ensures
        rows_in(ts.push(e), q) == if q == e.0@ {
            Some(e.1@.map_values(|v: JsonValue| jm(v)))
        } else {
            rows_in(ts, q)
        },
    decreases ts.len(),
{
    let u = ts.push(e);
    if ts.len() > 0 {
        assert(u[0] == ts[0]);
        assert(ts[0].0@ != e.0@);
        assert(rows_in(ts.drop_first(), e.0@) is None);
        lemma_rows_in_push(ts.drop_first(), e, q);
        assert(u.drop_first() =~= ts.drop_first().push(e));
    } else {
        assert(u[0] == e);
        assert(u.drop_first() =~= Seq::<(String, Vec<JsonValue>)>::empty());
        assert(rows_in(u.drop_first(), q) is None);
    }
}

/// Tables of rows held in memory.
pub struct InMemoryPool {
    tables: Vec<(String, Vec<JsonValue>)>,
}

impl InMemoryPool {
    /// The rows of table `name`, if it exists.
    pub closed spec fn rows(&self, name: Seq<char>) -> Option<Seq<JModel>> {
        rows_in(self.tables@, name)
    }

    /// No tables.
    pub fn new() -> (r: Self)
        ensures
            forall|q: Seq<char>| #[trigger] r.rows(q) is None,
    {
        InMemoryPool { tables: Vec::new() }
    }

    fn find(&self, name: &String) -> (r: Option<usize>)
        ensures
            match r {
                Some(i) => i < self.tables@.len() && self.rows(name@) == Some(
                    self.tables@[i as int].1@.map_values(|v: JsonValue| jm(v)),
                ) && self.tables@[i as int].0@ == name@ && forall|j: int| 0 <= j < i ==> #[trigger] self.tables@[j].0@ != name@,
                None => self.rows(name@) is None,
            },
    {
        let mut i: usize = 0;
        while i < self.tables.len()
            invariant
                i <= self.tables@.len(),
                forall|j: int| 0 <= j < i ==> #[trigger] self.tables@[j].0@ != name@,
            decreases self.tables@.len() - i,
        {
            if string_eq(&self.tables[i].0, name) {
                proof {
                    lemma_rows_in_index(self.tables@, name@, i as int);
                }
                return Some(i);
            }
            i += 1;
        }
        proof {
            lemma_rows_in_absent(self.tables@, name@);
        }
        None
    }

    /// Appends `rows` to the table at `i` (named `name`), or adds the table
    /// `name` holding `rows` when `i` is `None`.
    fn append(&mut self, at: Option<usize>, name: String, rows: Vec<JsonValue>)
        requires
            match at {
                Some(i) => i < old(self).tables@.len() && old(self).tables@[i as int].0@ == name@ && old(self).rows(
                    name@,
                ) == Some(old(self).tables@[i as int].1@.map_values(|v: JsonValue| jm(v))) && forall|j: int|
                    0 <= j < i ==> #[trigger] old(self).tables@[j].0@ != name@,
                None => old(self).rows(name@) is None,
            },
        ensures
            final(self).rows(name@) == Some(
                rows_or_none(old(self).rows(name@)) + rows@.map_values(|v: JsonValue| jm(v)),
            ),
            forall|q: Seq<char>| q != name@ ==> #[trigger] final(self).rows(q) == old(self).rows(q),
    {
        let ghost before = self.tables@;
        match at {
            Some(i) => {
                let mut entry = self.tables.remove(i);
                let ghost old_rows = entry.1@;
                let mut more = rows;
                entry.1.append(&mut more);
                let ghost e = entry;
                self.tables.insert(i, entry);
                proof {
                    assert(self.tables@ =~= before.update(i as int, e));
                    assert forall|q: Seq<char>| q != name@ implies #[trigger] rows_in(self.tables@, q) == rows_in(before, q) by {
                        lemma_rows_in_update(before, i as int, e, q);
                    }
                    let ts = self.tables@;
                    assert forall|j: int| 0 <= j < i implies #[trigger] ts[j].0@ != name@ by {
                        assert(ts[j] == before[j]);
                    }
                    lemma_rows_in_index(ts, name@, i as int);
                    assert(e.1@ =~= old_rows + rows@);
                    assert(e.1@.map_values(|v: JsonValue| jm(v)) =~= old_rows.map_values(|v: JsonValue| jm(v))
                        + rows@.map_values(|v: JsonValue| jm(v)));
                }
            },
            None => {
                let ghost e = (name, rows);
                self.tables.push((name, rows));
                proof {
                    assert forall|q: Seq<char>| #![trigger rows_in(self.tables@, q)] true implies rows_in(self.tables@, q) == if q == e.0@ {
                        Some(e.1@.map_values(|v: JsonValue| jm(v)))
                    } else {
                        rows_in(before, q)
                    } by {
                        lemma_rows_in_push(before, e, q);
                    }
                    assert(seq![] + e.1@.map_values(|v: JsonValue| jm(v)) =~= e.1@.map_values(|v: JsonValue| jm(v)));
                }
            },
        }
    }

    /// Makes sure table `name` exists; an existing one keeps its rows.
    pub fn create_table(&mut self, name: &str)
        ensures
            final(self).rows(name@) == Some(rows_or_none(old(self).rows(name@))),
            forall|q: Seq<char>| q != name@ ==> #[trigger] final(self).rows(q) == old(self).rows(q),
    {
        let n = string_from(name);
        let at = self.find(&n);
        self.append(at, n, Vec::new());
        proof {
            assert(rows_or_none(old(self).rows(name@)) + Seq::<JsonValue>::empty().map_values(|v: JsonValue| jm(v))
                =~= rows_or_none(old(self).rows(name@)));
        }
    }

    /// Appends `row` to table `table`, which is made if missing.
    pub fn insert_row(&mut self, table: &str, row: Vec<(String, JsonValue)>)
        ensures
            final(self).rows(table@) == Some(rows_or_none(old(self).rows(table@)).push(JModel::Object(jentries(row@)))),
            forall|q: Seq<char>| q != table@ ==> #[trigger] final(self).rows(q) == old(self).rows(q),
    {
        let n = string_from(table);
        let at = self.find(&n);
        let ghost v = JsonValue::Object(row);
        let rows = vec![JsonValue::Object(row)];
        proof {
            assert(rows@.map_values(|v: JsonValue| jm(v)) =~= seq![jm(v)]);
        }
        self.append(at, n, rows);
        proof {
            assert(rows_or_none(old(self).rows(table@)) + seq![jm(v)] =~= rows_or_none(old(self).rows(table@)).push(
                jm(v),
            ));
        }
    }

    /// Copies of the rows of table `table`; none for a missing table.
    pub fn table_rows(&self, table: &str) -> (r: Vec<JsonValue>)
        ensures
            r@.map_values(|v: JsonValue| jm(v)) == rows_or_none(self.rows(table@)),
    {
        let n = string_from(table);
        match self.find(&n) {
            None => {
                let r: Vec<JsonValue> = Vec::new();
                proof {
                    assert(r@.map_values(|v: JsonValue| jm(v)) =~= Seq::<JModel>::empty());
                }
                r
            },
            Some(i) => {
                let rows = &self.tables[i].1;
                let mut r: Vec<JsonValue> = Vec::new();
                let mut k: usize = 0;
                while k < rows.len()
                    invariant
                        k <= rows@.len(),
                        r@.len() == k,
                        forall|j: int| 0 <= j < k ==> jm(#[trigger] r@[j]) == jm(rows@[j]),
                    decreases rows@.len() - k,
                {
                    r.push(json_copy(&rows[k]));
                    k += 1;
                }
                proof {
                    assert(r@.map_values(|v: JsonValue| jm(v)) =~= rows@.map_values(|v: JsonValue| jm(v)));
                }
                r
            },
        }
    }

    /// The number of rows of table `table`; 0 for a missing table.
    pub fn table_count(&self, table: &str) -> (r: usize)
        ensures
            r == rows_or_none(self.rows(table@)).len(),
    {
        let n = string_from(table);
        match self.find(&n) {
            None => 0,
            Some(i) => self.tables[i].1.len(),
        }
    }

    /// Empties table `table`, if it exists.
    pub fn clear_table(&mut self, table: &str)
        ensures
            final(self).rows(table@) == match old(self).rows(table@) {
                Some(_) => Some(Seq::<JModel>::empty()),
                None => None,
            },
            forall|q: Seq<char>| q != table@ ==> #[trigger] final(self).rows(q) == old(self).rows(q),
    {
        let n = string_from(table);
        match self.find(&n) {
            None => {},
            Some(i) => {
                let ghost before = self.tables@;
                let mut entry = self.tables.remove(i);
                entry.1 = Vec::new();
                let ghost e = entry;
                self.tables.insert(i, entry);
                proof {
                    assert(self.tables@ =~= before.update(i as int, e));
                    assert forall|q: Seq<char>| q != table@ implies #[trigger] rows_in(self.tables@, q) == rows_in(before, q) by {
                        lemma_rows_in_update(before, i as int, e, q);
                    }
                    let ts = self.tables@;
                    assert forall|j: int| 0 <= j < i implies #[trigger] ts[j].0@ != table@ by {
                        assert(ts[j] == before[j]);
                    }
                    lemma_rows_in_index(ts, table@, i as int);
                    assert(e.1@.map_values(|v: JsonValue| jm(v)) =~= Seq::<JModel>::empty());
                }
            },
        }
    }
}

impl Default for InMemoryPool {
    fn default() -> (r: Self)
        ensures
            forall|q: Seq<char>| #[trigger] r.rows(q) is None,
    {
        InMemoryPool::new()
    }
}

} // verus!
