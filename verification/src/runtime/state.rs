//! The server-side state of one live session: named JSON values, and the set
//! of names changed since the last time the changes were taken.

use vstd::prelude::*;
use crate::text::string_eq;
use crate::forms::json::{find_key, jentries, jget, jm, json_copy, lemma_jentries_len, JModel, JsonValue};

verus! {

/// What a store holds: its values by name, and the names changed since the
/// dirty set was last cleared.
#[verifier::ext_equal]
pub struct StateModel {
    pub values: Map<Seq<char>, JModel>,
    pub dirty: Set<Seq<char>>,
}

impl StateModel {
    /// The model after `set(k, v)`.
    pub open spec fn after_set(self, k: Seq<char>, v: JModel) -> StateModel {
        StateModel { values: self.values.insert(k, v), dirty: self.dirty.insert(k) }
    }

    /// The model after `clear_dirty`.
    pub open spec fn after_clear(self) -> StateModel {
        StateModel { values: self.values, dirty: Set::empty() }
    }

    /// The model after merging `es` in order (a later entry wins).
    pub open spec fn after_merge(self, es: Seq<(Seq<char>, JModel)>) -> StateModel
        decreases es.len(),
    {
        if es.len() == 0 {
            self
        } else {
            self.after_merge(es.drop_last()).after_set(es.last().0, es.last().1)
        }
    }

    pub open spec fn lookup(self, k: Seq<char>) -> Option<JModel> {
        if self.values.dom().contains(k) {
            Some(self.values[k])
        } else {
            None
        }
    }
}

/// The map that object entries stand for: the first entry of each key.
pub open spec fn entries_map(es: Seq<(Seq<char>, JModel)>) -> Map<Seq<char>, JModel> {
    Map::new(|k: Seq<char>| jget(es, k) is Some, |k: Seq<char>| jget(es, k)->0)
}

/// Replacing the first entry of key `k` changes the value under `k` only.
pub proof fn lemma_jget_update(es: Seq<(Seq<char>, JModel)>, i: int, k: Seq<char>, v: JModel, q: Seq<char>)
    requires
        0 <= i < es.len(),
        es[i].0 == k,
        forall|j: int| 0 <= j < i ==> (#[trigger] es[j]).0 != k,
    ensures
        jget(es.update(i, (k, v)), q) == (if q == k {
            Some(v)
        } else {
            jget(es, q)
        }),
    decreases i,
{
    let u = es.update(i, (k, v));
    if i == 0 {
        assert(u.drop_first() =~= es.drop_first());
    } else {
        let t = es.drop_first();
        assert forall|j: int| 0 <= j < i - 1 implies (#[trigger] t[j]).0 != k by {
            assert(t[j] == es[j + 1]);
        }
        lemma_jget_update(t, i - 1, k, v, q);
        assert(u.drop_first() =~= t.update(i - 1, (k, v)));
        assert(u[0] == es[0]);
    }
}

/// Appending an entry of a key not yet present adds that key only.
pub proof fn lemma_jget_push(es: Seq<(Seq<char>, JModel)>, k: Seq<char>, v: JModel, q: Seq<char>)
    requires
        jget(es, k) is None,
    ensures
        jget(es.push((k, v)), q) == (if q == k {
            Some(v)
        } else {
            jget(es, q)
        }),
    decreases es.len(),
{
    let u = es.push((k, v));
    if es.len() > 0 {
        assert(es[0].0 != k);
        lemma_jget_push(es.drop_first(), k, v, q);
        assert(u.drop_first() =~= es.drop_first().push((k, v)));
        assert(u[0] == es[0]);
    } else {
        assert(u.drop_first() =~= Seq::<(Seq<char>, JModel)>::empty());
        assert(jget(u.drop_first(), q) is None);
        assert(u[0] == (k, v));
    }
}

/// The state of one live session.
#[derive(Debug)]
pub struct StateStore {
    values: Vec<(String, JsonValue)>,
    dirty: Vec<String>,
}

impl View for StateStore {
    type V = StateModel;

    closed spec fn view(&self) -> StateModel {
        StateModel {
            values: entries_map(jentries(self.values@)),
            dirty: Set::new(|k: Seq<char>| exists|i: int| 0 <= i < self.dirty@.len() && #[trigger] self.dirty@[i]@ == k),
        }
    }
}

impl StateStore {
    /// No name is held twice, neither among the values nor among the
    /// changed names.
    #[verifier::type_invariant]
    spec fn names_unique(self) -> bool {
        &&& forall|i: int, j: int|
            0 <= i < j < self.dirty@.len() ==> (#[trigger] self.dirty@[i])@ != (#[trigger] self.dirty@[j])@
        &&& forall|i: int, j: int|
            0 <= i < j < self.values@.len() ==> (#[trigger] self.values@[i]).0@ != (
            #[trigger] self.values@[j]).0@
    }
}

fn position(v: &Vec<String>, s: &String) -> (r: Option<usize>)
    ensures
        match r {
            Some(i) => i < v@.len() && v@[i as int]@ == s@,
            None => forall|i: int| 0 <= i < v@.len() ==> #[trigger] v@[i]@ != s@,
        },
{
    let mut i: usize = 0;
    while i < v.len()
        invariant
            i <= v@.len(),
            forall|j: int| 0 <= j < i ==> #[trigger] v@[j]@ != s@,
        decreases v@.len() - i,
    {
        if string_eq(&v[i], s) {
            return Some(i);
        }
        i += 1;
    }
    None
}

impl StateStore {
    /// An empty store.
    pub fn new() -> (r: Self)
        ensures
            r@.values == Map::<Seq<char>, JModel>::empty(),
            r@.dirty == Set::<Seq<char>>::empty(),
    {
        let r = StateStore { values: Vec::new(), dirty: Vec::new() };
        proof {
            assert(jentries(r.values@) =~= Seq::<(Seq<char>, JModel)>::empty());
            assert(r@.values =~= Map::<Seq<char>, JModel>::empty());
            assert(r@.dirty =~= Set::<Seq<char>>::empty());
        }
        r
    }

    /// The value under `key`, if any.
    pub fn get(&self, key: &str) -> (r: Option<&JsonValue>)
        ensures
            match r {
                Some(v) => self@.lookup(key@) == Some(jm(*v)),
                None => self@.lookup(key@) is None,
            },
    {
        let k = crate::text::string_from(key);
        match find_key(&self.values, &k) {
            Some(i) => Some(&self.values[i].1),
            None => None,
        }
    }

    fn mark_dirty(&mut self, key: &String)
        ensures
            final(self).values@ == old(self).values@,
            final(self)@.dirty == old(self)@.dirty.insert(key@),
    {
        proof {
            use_type_invariant(&*self);
        }
        let ghost before = self.dirty@;
        match position(&self.dirty, key) {
            Some(_) => {
                proof {
                    assert(self@.dirty =~= old(self)@.dirty.insert(key@));
                }
            },
            None => {
                let mut d: Vec<String> = Vec::new();
                std::mem::swap(&mut d, &mut self.dirty);
                d.push(key.clone());
                proof {
                    assert forall|i: int, j: int| 0 <= i < j < d@.len() implies (#[trigger] d@[i])@ != (
                    #[trigger] d@[j])@ by {
                        if j == before.len() {
                            assert(d@[i] == before[i]);
                        } else {
                            assert(d@[i] == before[i] && d@[j] == before[j]);
                        }
                    }
                }
                self.dirty = d;
                proof {
                    assert forall|q: Seq<char>| #[trigger] self@.dirty.contains(q) == old(self)@.dirty.insert(key@).contains(q) by {
                        if old(self)@.dirty.contains(q) {
                            let i = choose|i: int| 0 <= i < before.len() && #[trigger] before[i]@ == q;
                            assert(self.dirty@[i] == before[i]);
                        }
                        if q == key@ {
                            assert(self.dirty@[before.len() as int]@ == q);
                        }
                        if self@.dirty.contains(q) {
                            let i = choose|i: int| 0 <= i < self.dirty@.len() && #[trigger] self.dirty@[i]@ == q;
                            if i < before.len() {
                                assert(before[i]@ == q);
                            }
                        }
                    }
                    assert(self@.dirty =~= old(self)@.dirty.insert(key@));
                }
            },
        }
    }

    fn put(&mut self, key: String, value: JsonValue)
        ensures
            final(self).dirty@ == old(self).dirty@,
            final(self)@.values == old(self)@.values.insert(key@, jm(value)),
    {
        proof {
            use_type_invariant(&*self);
        }
        let ghost k = key@;
        let ghost v = jm(value);
        let ghost es = jentries(self.values@);
        proof {
            lemma_jentries_len(self.values@);
        }
        match find_key(&self.values, &key) {
            Some(i) => {
                let ghost old_vals = self.values@;
                let mut vals: Vec<(String, JsonValue)> = Vec::new();
                std::mem::swap(&mut vals, &mut self.values);
                vals.set(i, (key, value));
                proof {
                    assert forall|a: int, b: int| 0 <= a < b < vals@.len() implies (#[trigger] vals@[a]).0@
                        != (#[trigger] vals@[b]).0@ by {
                        assert(old_vals[a].0@ != old_vals[b].0@);
                        if a == i {
                            assert(vals@[a].0@ == old_vals[a].0@);
                        }
                        if b == i {
                            assert(vals@[b].0@ == old_vals[b].0@);
                        }
                    }
                }
                self.values = vals;
                proof {
                    lemma_jentries_len(self.values@);
                    assert forall|j: int| 0 <= j < i implies (#[trigger] es[j]).0 != k by {
                        assert(es[j] == (old_vals[j].0@, jm(old_vals[j].1)));
                    }
                    assert(es[i as int] == (old_vals[i as int].0@, jm(old_vals[i as int].1)));
                    assert(jentries(self.values@) =~= es.update(i as int, (k, v)));
                    assert forall|q: Seq<char>| #[trigger] jget(jentries(self.values@), q) == (if q == k {
                        Some(v)
                    } else {
                        jget(es, q)
                    }) by {
                        lemma_jget_update(es, i as int, k, v, q);
                    }
                    assert(self@.values =~= old(self)@.values.insert(k, v));
                }
            },
            None => {
                let ghost old_vals = self.values@;
                let mut vals: Vec<(String, JsonValue)> = Vec::new();
                std::mem::swap(&mut vals, &mut self.values);
                vals.push((key, value));
                proof {
                    assert forall|a: int, b: int| 0 <= a < b < vals@.len() implies (#[trigger] vals@[a]).0@
                        != (#[trigger] vals@[b]).0@ by {
                        if b == old_vals.len() {
                            assert(vals@[a] == old_vals[a]);
                            assert(es[a] == (old_vals[a].0@, jm(old_vals[a].1)));
                            if old_vals[a].0@ == k {
                                lemma_jget_first(es, k, a);
                            }
                        } else {
                            assert(vals@[a] == old_vals[a] && vals@[b] == old_vals[b]);
                        }
                    }
                }
                self.values = vals;
                proof {
                    lemma_jentries_len(self.values@);
                    assert(jentries(self.values@) =~= es.push((k, v)));
                    assert forall|q: Seq<char>| #[trigger] jget(jentries(self.values@), q) == (if q == k {
                        Some(v)
                    } else {
                        jget(es, q)
                    }) by {
                        lemma_jget_push(es, k, v, q);
                    }
                    assert(self@.values =~= old(self)@.values.insert(k, v));
                }
            },
        }
    }

    /// Stores `value` under `key` and marks `key` as changed.
    pub fn set(&mut self, key: &str, value: JsonValue)
        ensures
            final(self)@ == old(self)@.after_set(key@, jm(value)),
    {
        let k = crate::text::string_from(key);
        self.mark_dirty(&k);
        self.put(k, value);
        proof {
            assert(self@ =~= old(self)@.after_set(key@, jm(value)));
        }
    }

    /// The names changed since the last `clear_dirty`, each once.
    pub fn get_dirty(&self) -> (r: Vec<String>)
        ensures
            forall|q: Seq<char>| self@.dirty.contains(q) <==> exists|i: int| 0 <= i < r@.len() && #[trigger] r@[i]@ == q,
            r@.map_values(|s: String| s@).no_duplicates(),
    {
        proof {
            use_type_invariant(self);
        }
        let mut r: Vec<String> = Vec::new();
        let mut i: usize = 0;
        while i < self.dirty.len()
            invariant
                i <= self.dirty@.len(),
                r@.len() == i,
                forall|j: int| 0 <= j < i ==> #[trigger] r@[j]@ == self.dirty@[j]@,
            decreases self.dirty@.len() - i,
        {
            r.push(self.dirty[i].clone());
            i += 1;
        }
        proof {
            assert forall|q: Seq<char>| self@.dirty.contains(q) <==> exists|i: int| 0 <= i < r@.len() && #[trigger] r@[i]@ == q by {
                if self@.dirty.contains(q) {
                    let i = choose|i: int| 0 <= i < self.dirty@.len() && #[trigger] self.dirty@[i]@ == q;
                    assert(r@[i]@ == q);
                }
                if exists|i: int| 0 <= i < r@.len() && #[trigger] r@[i]@ == q {
                    let i = choose|i: int| 0 <= i < r@.len() && #[trigger] r@[i]@ == q;
                    assert(self.dirty@[i]@ == q);
                }
            }
        }
        r
    }

    /// Forgets which names changed; the values stay.
    pub fn clear_dirty(&mut self)
        ensures
            final(self)@ == old(self)@.after_clear(),
    {
        proof {
            use_type_invariant(&*self);
        }
        self.dirty = Vec::new();
        proof {
            assert(self@ =~= old(self)@.after_clear());
        }
    }

    /// Whether `key` changed since the last `clear_dirty`.
    pub fn is_dirty(&self, key: &str) -> (r: bool)
        ensures
            r == self@.dirty.contains(key@),
    {
        let k = crate::text::string_from(key);
        match position(&self.dirty, &k) {
            Some(i) => {
                proof {
                    assert(self.dirty@[i as int]@ == key@);
                }
                true
            },
            None => false,
        }
    }

    /// The names that hold a value.
    pub fn keys(&self) -> (r: Vec<String>)
        ensures
            forall|q: Seq<char>| self@.values.dom().contains(q) <==> exists|i: int| 0 <= i < r@.len() && #[trigger] r@[i]@ == q,
            r@.map_values(|s: String| s@).no_duplicates(),
    {
        proof {
            use_type_invariant(self);
        }
        proof {
            lemma_jentries_len(self.values@);
        }
        let ghost es = jentries(self.values@);
        let mut r: Vec<String> = Vec::new();
        let mut i: usize = 0;
        while i < self.values.len()
            invariant
                i <= self.values@.len(),
                es == jentries(self.values@),
                es.len() == self.values@.len(),
                forall|j: int| 0 <= j < self.values@.len() ==> #[trigger] es[j] == (self.values@[j].0@, jm(self.values@[j].1)),
                r@.len() == i,
                forall|j: int| 0 <= j < i ==> #[trigger] r@[j]@ == self.values@[j].0@,
            decreases self.values@.len() - i,
        {
            r.push(self.values[i].0.clone());
            i += 1;
        }
        proof {
            assert forall|q: Seq<char>| self@.values.dom().contains(q) <==> exists|i: int| 0 <= i < r@.len() && #[trigger] r@[i]@ == q by {
                if self@.values.dom().contains(q) {
                    assert(jget(es, q) is Some);
                    if forall|j: int| 0 <= j < es.len() ==> (#[trigger] es[j]).0 != q {
                        crate::forms::json::lemma_jget_absent(es, q);
                    }
                    let j = choose|j: int| 0 <= j < es.len() && (#[trigger] es[j]).0 == q;
                    assert(r@[j]@ == q);
                }
                if exists|i: int| 0 <= i < r@.len() && #[trigger] r@[i]@ == q {
                    let i = choose|i: int| 0 <= i < r@.len() && #[trigger] r@[i]@ == q;
                    assert(es[i].0 == q);
                    lemma_jget_first(es, q, i);
                }
            }
        }
        r
    }

    /// The values as object entries, one per name.
    pub fn to_map(&self) -> (r: &Vec<(String, JsonValue)>)
        ensures
            entries_map(jentries(r@)) == self@.values,
    {
        &self.values
    }

    /// Stores every entry of `other`, in order, marking each name as changed.
    pub fn merge(&mut self, other: Vec<(String, JsonValue)>)
        ensures
            final(self)@ == old(self)@.after_merge(jentries(other@)),
    {
        proof {
            lemma_jentries_len(other@);
        }
        let ghost es = jentries(other@);
        let mut i: usize = 0;
        while i < other.len()
            invariant
                i <= other@.len(),
                es == jentries(other@),
                es.len() == other@.len(),
                forall|j: int| 0 <= j < other@.len() ==> #[trigger] es[j] == (other@[j].0@, jm(other@[j].1)),
                self@ == old(self)@.after_merge(es.take(i as int)),
            decreases other@.len() - i,
        {
            let k = other[i].0.clone();
            let v = json_copy(&other[i].1);
            self.mark_dirty(&k);
            self.put(k, v);
            proof {
                assert(es.take(i + 1).drop_last() =~= es.take(i as int));
                assert(es.take(i + 1).last() == es[i as int]);
                assert(self@ =~= old(self)@.after_merge(es.take(i + 1)));
            }
            i += 1;
        }
        proof {
            assert(es.take(other@.len() as int) =~= es);
        }
    }
}

/// Some entry with key `q` means `jget` finds a value under `q`.
pub proof fn lemma_jget_first(es: Seq<(Seq<char>, JModel)>, q: Seq<char>, i: int)
    requires
        0 <= i < es.len(),
        es[i].0 == q,
    ensures
        jget(es, q) is Some,
    decreases es.len(),
{
    if es[0].0 != q {
        lemma_jget_first(es.drop_first(), q, i - 1);
    }
}

impl Default for StateStore {
    fn default() -> (r: Self)
        ensures
            r@.values == Map::<Seq<char>, JModel>::empty(),
            r@.dirty == Set::<Seq<char>>::empty(),
    {
        StateStore::new()
    }
}

/// Reading a name back after writing it gives what was written, and marks it
/// changed; every other name keeps its value.
pub proof fn law_get_after_set(s: StateModel, k: Seq<char>, v: JModel, q: Seq<char>)
    ensures
        s.after_set(k, v).lookup(k) == Some(v),
        s.after_set(k, v).dirty.contains(k),
        q != k ==> s.after_set(k, v).lookup(q) == s.lookup(q),
{
}

/// Clearing the changed names leaves every value in place.
pub proof fn law_clear_keeps_values(s: StateModel, q: Seq<char>)
    ensures
        s.after_clear().lookup(q) == s.lookup(q),
        !s.after_clear().dirty.contains(q),
{
}

/// After a merge every merged name is marked changed, and holds the value of
/// its last entry.
pub proof fn law_merge_marks_dirty(s: StateModel, es: Seq<(Seq<char>, JModel)>, i: int)
    requires
        0 <= i < es.len(),
    ensures
        s.after_merge(es).dirty.contains(es[i].0),
        (forall|j: int| i < j < es.len() ==> (#[trigger] es[j]).0 != es[i].0) ==> s.after_merge(es).lookup(es[i].0)
            == Some(es[i].1),
    decreases es.len(),
{
    if i < es.len() - 1 {
        let t = es.drop_last();
        assert forall|j: int| i < j < t.len() implies (#[trigger] t[j]).0 == es[j].0 by {}
        law_merge_marks_dirty(s, t, i);
        assert(t[i] == es[i]);
    }
}

} // verus!
