//! An in-memory store of records, each kept under its tenant and its id; a
//! tenant sees and changes only its own records.

use vstd::prelude::*;
use crate::runtime::ids::TenantId;

verus! {

/// The records of all tenants, each under (tenant, id).
pub struct InMemoryRepository<T> {
    records: Vec<(u128, u128, T)>,
}

/// The ids of `tenant`'s records in `m`, listed once each by `ids`.
pub open spec fn lists_ids<T>(m: Map<(u128, u128), T>, tenant: u128, ids: Seq<u128>) -> bool {
    &&& ids.no_duplicates()
    &&& forall|id: u128| #[trigger] m.dom().contains((tenant, id)) <==> ids.contains(id)
}

impl<T> InMemoryRepository<T> {
    /// No two records share a tenant and an id.
    pub closed spec fn wf(&self) -> bool {
        forall|i: int, j: int|
            0 <= i < j < self.records@.len() ==> (#[trigger] self.records@[i]).0 != (#[trigger] self.records@[j]).0
                || self.records@[i].1 != self.records@[j].1
    }

    closed spec fn has_key(&self, k: (u128, u128)) -> bool {
        exists|j: int| 0 <= j < self.records@.len() && (#[trigger] self.records@[j]).0 == k.0 && self.records@[j].1 == k.1
    }

    /// The records by (tenant, id).
    pub closed spec fn view(&self) -> Map<(u128, u128), T> {
        Map::new(
            |k: (u128, u128)| self.has_key(k),
            |k: (u128, u128)|
                self.records@[choose|j: int|
                    0 <= j < self.records@.len() && (#[trigger] self.records@[j]).0 == k.0 && self.records@[j].1
                        == k.1].2,
        )
    }

    proof fn lemma_at(&self, j: int)
        requires
            self.wf(),
            0 <= j < self.records@.len(),
        ensures
            self.view().dom().contains((self.records@[j].0, self.records@[j].1)),
            self.view()[(self.records@[j].0, self.records@[j].1)] == self.records@[j].2,
    {
        let k = (self.records@[j].0, self.records@[j].1);
        assert(self.has_key(k));
        let c = choose|c: int|
            0 <= c < self.records@.len() && (#[trigger] self.records@[c]).0 == k.0 && self.records@[c].1 == k.1;
        if c < j {
            assert(self.records@[c].0 != self.records@[j].0 || self.records@[c].1 != self.records@[j].1);
        } else if c > j {
            assert(self.records@[j].0 != self.records@[c].0 || self.records@[j].1 != self.records@[c].1);
        }
    }

    /// An empty store.
    pub fn new() -> (r: Self)
        ensures
            r.wf(),
            r.view() == Map::<(u128, u128), T>::empty(),
    {
        let r = InMemoryRepository { records: Vec::new() };
        proof {
            assert(r.view() =~= Map::<(u128, u128), T>::empty());
        }
        r
    }

    fn position(&self, tenant: u128, id: u128) -> (r: Option<usize>)
        requires
            self.wf(),
        ensures
            match r {
                Some(j) => j < self.records@.len() && self.records@[j as int].0 == tenant && self.records@[j as int].1
                    == id && self.view().dom().contains((tenant, id)) && self.view()[(tenant, id)]
                    == self.records@[j as int].2,
                None => !self.view().dom().contains((tenant, id)),
            },
    {
        let mut j: usize = 0;
        while j < self.records.len()
            invariant
                self.wf(),
                j <= self.records@.len(),
                forall|i: int| 0 <= i < j ==> (#[trigger] self.records@[i]).0 != tenant || self.records@[i].1 != id,
            decreases self.records@.len() - j,
        {
            if self.records[j].0 == tenant && self.records[j].1 == id {
                proof {
                    self.lemma_at(j as int);
                }
                return Some(j);
            }
            j += 1;
        }
        None
    }

    /// The number of records of `tenant`.
    pub fn count(&self, tenant: &TenantId) -> (r: usize)
        requires
            self.wf(),
        ensures
            exists|ids: Seq<u128>| lists_ids(self.view(), tenant.0, ids) && ids.len() == r,
    {
        let t = tenant.0;
        let mut n: usize = 0;
        let mut j: usize = 0;
        let ghost mut ids: Seq<u128> = Seq::empty();
        while j < self.records.len()
            invariant
                self.wf(),
                j <= self.records@.len(),
                n == ids.len(),
                n <= j,
                ids.no_duplicates(),
                forall|id: u128| #[trigger] ids.contains(id) <==> exists|i: int|
                    0 <= i < j && (#[trigger] self.records@[i]).0 == t && self.records@[i].1 == id,
            decreases self.records@.len() - j,
        {
            if self.records[j].0 == t {
                proof {
                    let id = self.records@[j as int].1;
                    assert(!ids.contains(id)) by {
                        if ids.contains(id) {
                            let i = choose|i: int| 0 <= i < j && (#[trigger] self.records@[i]).0 == t && self.records@[i].1 == id;
                            assert(self.records@[i].0 != self.records@[j as int].0 || self.records@[i].1 != self.records@[j as int].1);
                        }
                    }
                    assert forall|q: u128| #[trigger] ids.push(id).contains(q) <==> exists|i: int|
                        0 <= i < j + 1 && (#[trigger] self.records@[i]).0 == t && self.records@[i].1 == q by {
                        if ids.push(id).contains(q) {
                            if q != id {
                                assert(ids.contains(q)) by {
                                    let k = choose|k: int| 0 <= k < ids.push(id).len() && ids.push(id)[k] == q;
                                    assert(ids[k] == q);
                                }
                            } else {
                                assert(self.records@[j as int].1 == q);
                            }
                        }
                        if exists|i: int| 0 <= i < j + 1 && (#[trigger] self.records@[i]).0 == t && self.records@[i].1 == q {
                            let i = choose|i: int| 0 <= i < j + 1 && (#[trigger] self.records@[i]).0 == t && self.records@[i].1 == q;
                            if i < j {
                                assert(ids.contains(q));
                                let k = choose|k: int| 0 <= k < ids.len() && ids[k] == q;
                                assert(ids.push(id)[k] == q);
                            } else {
                                assert(ids.push(id)[ids.len() as int] == q);
                            }
                        }
                    }
                    ids = ids.push(id);
                }
                n += 1;
            } else {
                proof {
                    assert forall|q: u128| #[trigger] ids.contains(q) <==> exists|i: int|
                        0 <= i < j + 1 && (#[trigger] self.records@[i]).0 == t && self.records@[i].1 == q by {
                        if exists|i: int| 0 <= i < j + 1 && (#[trigger] self.records@[i]).0 == t && self.records@[i].1 == q {
                            let i = choose|i: int| 0 <= i < j + 1 && (#[trigger] self.records@[i]).0 == t && self.records@[i].1 == q;
                            assert(i < j);
                        }
                    }
                }
            }
            j += 1;
        }
        proof {
            assert forall|id: u128| #[trigger] self.view().dom().contains((t, id)) <==> ids.contains(id) by {
                if self.view().dom().contains((t, id)) {
                    assert(self.has_key((t, id)));
                }
            }
        }
        n
    }

    /// The record of `tenant` with `id`, if the tenant has one (a clone).
    pub fn find(&self, tenant: &TenantId, id: u128) -> (r: Option<T>)
        where
            T: Clone,
        requires
            self.wf(),
        ensures
            match r {
                Some(v) => self.view().dom().contains((tenant.0, id)) && cloned::<T>(self.view()[(tenant.0, id)], v),
                None => !self.view().dom().contains((tenant.0, id)),
            },
    {
        match self.position(tenant.0, id) {
            Some(j) => Some(self.records[j].2.clone()),
            None => None,
        }
    }

    /// Stores a clone of `item` as `tenant`'s record `id` (replacing one
    /// there) and gives `item` back.
    pub fn create(&mut self, tenant: &TenantId, id: u128, item: T) -> (r: T)
        where
            T: Clone,
        requires
            old(self).wf(),
        ensures
            final(self).wf(),
            r == item,
            final(self).view().dom() == old(self).view().dom().insert((tenant.0, id)),
            cloned::<T>(item, final(self).view()[(tenant.0, id)]),
            forall|k: (u128, u128)| k != (tenant.0, id) && #[trigger] old(self).view().dom().contains(k) ==> final(self).view()[k] == old(self).view()[k],
    {
        let c = item.clone();
        let ghost before = *self;
        match self.position(tenant.0, id) {
            Some(j) => {
                self.records.set(j, (tenant.0, id, c));
                proof {
                    assert(self.wf()) by {
                        assert forall|a: int, b: int| 0 <= a < b < self.records@.len() implies (#[trigger] self.records@[a]).0
                            != (#[trigger] self.records@[b]).0 || self.records@[a].1 != self.records@[b].1 by {
                            assert(before.records@[a].0 != before.records@[b].0 || before.records@[a].1 != before.records@[b].1);
                        }
                    }
                    self.lemma_replaced(before, j as int);
                }
            },
            None => {
                self.records.push((tenant.0, id, c));
                proof {
                    assert(self.wf()) by {
                        assert forall|a: int, b: int| 0 <= a < b < self.records@.len() implies (#[trigger] self.records@[a]).0
                            != (#[trigger] self.records@[b]).0 || self.records@[a].1 != self.records@[b].1 by {
                            if b == before.records@.len() {
                                before.lemma_at(a);
                            } else {
                                assert(before.records@[a].0 != before.records@[b].0 || before.records@[a].1 != before.records@[b].1);
                            }
                        }
                    }
                    assert(self.records@.drop_last() =~= before.records@);
                    self.lemma_pushed(before);
                }
            },
        }
        item
    }

    proof fn lemma_replaced(&self, before: Self, j: int)
        requires
            before.wf(),
            self.wf(),
            0 <= j < before.records@.len(),
            self.records@ == before.records@.update(j, (before.records@[j].0, before.records@[j].1, self.records@[j].2)),
        ensures
            self.view().dom() == before.view().dom(),
            self.view()[(before.records@[j].0, before.records@[j].1)] == self.records@[j].2,
            forall|k: (u128, u128)| k != (before.records@[j].0, before.records@[j].1) && #[trigger] before.view().dom().contains(k)
                ==> self.view()[k] == before.view()[k],
    {
        assert forall|k: (u128, u128)| #[trigger] self.view().dom().contains(k) == before.view().dom().contains(k) by {
            if self.has_key(k) {
                let i = choose|i: int| 0 <= i < self.records@.len() && (#[trigger] self.records@[i]).0 == k.0 && self.records@[i].1 == k.1;
                assert(before.records@[i].0 == k.0 && before.records@[i].1 == k.1);
                assert(before.has_key(k));
            }
            if before.has_key(k) {
                let i = choose|i: int| 0 <= i < before.records@.len() && (#[trigger] before.records@[i]).0 == k.0 && before.records@[i].1 == k.1;
                assert(self.records@[i].0 == k.0 && self.records@[i].1 == k.1);
                assert(self.has_key(k));
            }
        }
        assert(self.view().dom() =~= before.view().dom());
        self.lemma_at(j);
        assert forall|k: (u128, u128)| k != (before.records@[j].0, before.records@[j].1) && #[trigger] before.view().dom().contains(k)
            implies self.view()[k] == before.view()[k] by {
            assert(before.has_key(k));
            let i = choose|i: int| 0 <= i < before.records@.len() && (#[trigger] before.records@[i]).0 == k.0 && before.records@[i].1 == k.1;
            before.lemma_at(i);
            self.lemma_at(i);
        }
    }

    proof fn lemma_pushed(&self, before: Self)
        requires
            before.wf(),
            self.wf(),
            self.records@.len() == before.records@.len() + 1,
            self.records@.drop_last() == before.records@,
        ensures
            self.view().dom() == before.view().dom().insert((self.records@.last().0, self.records@.last().1)),
            self.view()[(self.records@.last().0, self.records@.last().1)] == self.records@.last().2,
            forall|k: (u128, u128)| #[trigger] before.view().dom().contains(k) ==> self.view()[k] == before.view()[k],
    {
        let n = before.records@.len() as int;
        assert forall|i: int| 0 <= i < n implies #[trigger] self.records@[i] == before.records@[i] by {
            assert(self.records@.drop_last()[i] == self.records@[i]);
        }
        let nk = (self.records@.last().0, self.records@.last().1);
        assert forall|k: (u128, u128)| #[trigger] self.view().dom().contains(k) == before.view().dom().insert(nk).contains(k) by {
            if self.has_key(k) {
                let i = choose|i: int| 0 <= i < self.records@.len() && (#[trigger] self.records@[i]).0 == k.0 && self.records@[i].1 == k.1;
                if i < n {
                    assert(before.records@[i] == self.records@[i]);
                    assert(before.has_key(k));
                }
            }
            if before.has_key(k) {
                let i = choose|i: int| 0 <= i < before.records@.len() && (#[trigger] before.records@[i]).0 == k.0 && before.records@[i].1 == k.1;
                assert(self.records@[i] == before.records@[i]);
                assert(self.has_key(k));
            }
            if k == nk {
                assert(self.records@[n].0 == k.0 && self.records@[n].1 == k.1);
                assert(self.has_key(k));
            }
        }
        assert(self.view().dom() =~= before.view().dom().insert(nk));
        self.lemma_at(n);
        assert forall|k: (u128, u128)| #[trigger] before.view().dom().contains(k) implies self.view()[k] == before.view()[k] by {
            assert(before.has_key(k));
            let i = choose|i: int| 0 <= i < before.records@.len() && (#[trigger] before.records@[i]).0 == k.0 && before.records@[i].1 == k.1;
            before.lemma_at(i);
            assert(self.records@[i] == before.records@[i]);
            self.lemma_at(i);
        }
    }

    /// Replaces `tenant`'s record `id` with a clone of `item` and gives `item`
    /// back; `None`, and no change, when the tenant has no such record.
    pub fn update(&mut self, tenant: &TenantId, id: u128, item: T) -> (r: Option<T>)
        where
            T: Clone,
        requires
            old(self).wf(),
        ensures
            final(self).wf(),
            old(self).view().dom().contains((tenant.0, id)) ==> {
                &&& r == Some(item)
                &&& final(self).view().dom() == old(self).view().dom()
                &&& cloned::<T>(item, final(self).view()[(tenant.0, id)])
                &&& forall|k: (u128, u128)| k != (tenant.0, id) && #[trigger] old(self).view().dom().contains(k) ==> final(self).view()[k] == old(self).view()[k]
            },
            !old(self).view().dom().contains((tenant.0, id)) ==> r is None && final(self).view() == old(self).view(),
    {
        let ghost before = *self;
        match self.position(tenant.0, id) {
            Some(j) => {
                let c = item.clone();
                self.records.set(j, (tenant.0, id, c));
                proof {
                    assert(self.wf()) by {
                        assert forall|a: int, b: int| 0 <= a < b < self.records@.len() implies (#[trigger] self.records@[a]).0
                            != (#[trigger] self.records@[b]).0 || self.records@[a].1 != self.records@[b].1 by {
                            assert(before.records@[a].0 != before.records@[b].0 || before.records@[a].1 != before.records@[b].1);
                        }
                    }
                    self.lemma_replaced(before, j as int);
                }
                Some(item)
            },
            None => None,
        }
    }

    /// Removes `tenant`'s record `id`; whether there was one.
    pub fn delete(&mut self, tenant: &TenantId, id: u128) -> (r: bool)
        requires
            old(self).wf(),
        ensures
            final(self).wf(),
            r == old(self).view().dom().contains((tenant.0, id)),
            final(self).view() == old(self).view().remove((tenant.0, id)),
    {
        let ghost before = *self;
        match self.position(tenant.0, id) {
            Some(j) => {
                self.records.remove(j);
                proof {
                    let jj = j as int;
                    assert forall|i: int| 0 <= i < self.records@.len() implies #[trigger] self.records@[i] == (if i < jj {
                        before.records@[i]
                    } else {
                        before.records@[i + 1]
                    }) by {}
                    assert(self.wf()) by {
                        assert forall|a: int, b: int| 0 <= a < b < self.records@.len() implies (#[trigger] self.records@[a]).0
                            != (#[trigger] self.records@[b]).0 || self.records@[a].1 != self.records@[b].1 by {
                            let a2 = if a < jj { a } else { a + 1 };
                            let b2 = if b < jj { b } else { b + 1 };
                            assert(self.records@[a] == before.records@[a2]);
                            assert(self.records@[b] == before.records@[b2]);
                            assert(before.records@[a2].0 != before.records@[b2].0 || before.records@[a2].1 != before.records@[b2].1);
                        }
                    }
                    let gone = (tenant.0, id);
                    assert forall|k: (u128, u128)| #[trigger] self.view().dom().contains(k) == before.view().remove(gone).dom().contains(k) by {
                        if self.has_key(k) {
                            let i = choose|i: int| 0 <= i < self.records@.len() && (#[trigger] self.records@[i]).0 == k.0 && self.records@[i].1 == k.1;
                            let i2 = if i < jj { i } else { i + 1 };
                            assert(before.records@[i2] == self.records@[i]);
                            assert(before.has_key(k));
                            assert(before.records@[jj].0 != before.records@[i2].0 || before.records@[jj].1 != before.records@[i2].1);
                        }
                        if before.has_key(k) && k != gone {
                            let i = choose|i: int| 0 <= i < before.records@.len() && (#[trigger] before.records@[i]).0 == k.0 && before.records@[i].1 == k.1;
                            assert(i != jj);
                            let i2 = if i < jj { i } else { i - 1 };
                            assert(self.records@[i2] == before.records@[i]);
                            assert(self.has_key(k));
                        }
                    }
                    assert(self.view().dom() =~= before.view().remove(gone).dom());
                    assert forall|k: (u128, u128)| #[trigger] self.view().dom().contains(k) implies self.view()[k] == before.view()[k] by {
                        let i = choose|i: int| 0 <= i < self.records@.len() && (#[trigger] self.records@[i]).0 == k.0 && self.records@[i].1 == k.1;
                        let i2 = if i < jj { i } else { i + 1 };
                        assert(before.records@[i2] == self.records@[i]);
                        self.lemma_at(i);
                        before.lemma_at(i2);
                    }
                    assert(self.view() =~= before.view().remove(gone));
                }
                true
            },
            None => {
                proof {
                    assert(self.view() =~= before.view().remove((tenant.0, id)));
                }
                false
            },
        }
    }
}


/// How many of `bs` hold.
pub open spec fn count_true(bs: Seq<bool>) -> nat
    decreases bs.len(),
{
    if bs.len() == 0 {
        0
    } else {
        count_true(bs.drop_last()) + if bs.last() {
            1nat
        } else {
            0nat
        }
    }
}

/// The ids of `t`'s records among the first `j` of `recs`, in order.
pub open spec fn ids_upto<T>(recs: Seq<(u128, u128, T)>, t: u128, j: int) -> Seq<u128>
    decreases j,
{
    if j <= 0 {
        seq![]
    } else if recs[j - 1].0 == t {
        ids_upto(recs, t, j - 1).push(recs[j - 1].1)
    } else {
        ids_upto(recs, t, j - 1)
    }
}

impl<T> InMemoryRepository<T> {
    proof fn lemma_ids_upto(&self, t: u128, j: int)
        requires
            self.wf(),
            0 <= j <= self.records@.len(),
        ensures
            ids_upto(self.records@, t, j).no_duplicates(),
            forall|id: u128| #[trigger] ids_upto(self.records@, t, j).contains(id) <==> exists|i: int|
                0 <= i < j && (#[trigger] self.records@[i]).0 == t && self.records@[i].1 == id,
        decreases j,
    {
        if j > 0 {
            self.lemma_ids_upto(t, j - 1);
            let prev = ids_upto(self.records@, t, j - 1);
            let r = self.records@[j - 1];
            if r.0 == t {
                assert(!prev.contains(r.1)) by {
                    if prev.contains(r.1) {
                        let i = choose|i: int| 0 <= i < j - 1 && (#[trigger] self.records@[i]).0 == t && self.records@[i].1 == r.1;
                        assert(self.records@[i].0 != self.records@[j - 1].0 || self.records@[i].1 != self.records@[j - 1].1);
                    }
                }
                assert forall|id: u128| #[trigger] prev.push(r.1).contains(id) <==> exists|i: int|
                    0 <= i < j && (#[trigger] self.records@[i]).0 == t && self.records@[i].1 == id by {
                    if prev.push(r.1).contains(id) {
                        let k = choose|k: int| 0 <= k < prev.push(r.1).len() && prev.push(r.1)[k] == id;
                        if k < prev.len() {
                            assert(prev[k] == id);
                            assert(prev.contains(id));
                        } else {
                            assert(self.records@[j - 1].1 == id);
                        }
                    }
                    if exists|i: int| 0 <= i < j && (#[trigger] self.records@[i]).0 == t && self.records@[i].1 == id {
                        let i = choose|i: int| 0 <= i < j && (#[trigger] self.records@[i]).0 == t && self.records@[i].1 == id;
                        if i < j - 1 {
                            assert(prev.contains(id));
                            let k = choose|k: int| 0 <= k < prev.len() && prev[k] == id;
                            assert(prev.push(r.1)[k] == id);
                        } else {
                            assert(prev.push(r.1)[prev.len() as int] == id);
                        }
                    }
                }
            } else {
                assert forall|id: u128| #[trigger] prev.contains(id) <==> exists|i: int|
                    0 <= i < j && (#[trigger] self.records@[i]).0 == t && self.records@[i].1 == id by {
                    if exists|i: int| 0 <= i < j && (#[trigger] self.records@[i]).0 == t && self.records@[i].1 == id {
                        let i = choose|i: int| 0 <= i < j && (#[trigger] self.records@[i]).0 == t && self.records@[i].1 == id;
                        assert(i < j - 1);
                    }
                }
            }
        }
    }

    proof fn lemma_lists(&self, t: u128)
        requires
            self.wf(),
        ensures
            lists_ids(self.view(), t, ids_upto(self.records@, t, self.records@.len() as int)),
    {
        let n = self.records@.len() as int;
        self.lemma_ids_upto(t, n);
        let ids = ids_upto(self.records@, t, n);
        assert forall|id: u128| #[trigger] self.view().dom().contains((t, id)) <==> ids.contains(id) by {
            if self.view().dom().contains((t, id)) {
                assert(self.has_key((t, id)));
            }
        }
    }

    /// Clones of `tenant`'s records, each once.
    pub fn for_tenant(&self, tenant: &TenantId) -> (r: Vec<T>)
        where
            T: Clone,
        requires
            self.wf(),
        ensures
            exists|ids: Seq<u128>| {
                &&& lists_ids(self.view(), tenant.0, ids)
                &&& ids.len() == r@.len()
                &&& forall|i: int| 0 <= i < ids.len() ==> cloned::<T>(self.view()[(tenant.0, ids[i])], #[trigger] r@[i])
            },
    {
        let t = tenant.0;
        let mut r: Vec<T> = Vec::new();
        let mut j: usize = 0;
        while j < self.records.len()
            invariant
                self.wf(),
                j <= self.records@.len(),
                r@.len() == ids_upto(self.records@, t, j as int).len(),
                forall|i: int| 0 <= i < r@.len() ==> cloned::<T>(self.view()[(t, ids_upto(self.records@, t, j as int)[i])], #[trigger] r@[i]),
            decreases self.records@.len() - j,
        {
            let ghost prev = ids_upto(self.records@, t, j as int);
            if self.records[j].0 == t {
                let c = self.records[j].2.clone();
                r.push(c);
                proof {
                    self.lemma_at(j as int);
                    let now = ids_upto(self.records@, t, j + 1);
                    assert(now == prev.push(self.records@[j as int].1));
                    assert forall|i: int| 0 <= i < r@.len() implies cloned::<T>(self.view()[(t, now[i])], #[trigger] r@[i]) by {
                        if i < prev.len() {
                            assert(now[i] == prev[i]);
                        }
                    }
                }
            }
            j += 1;
        }
        proof {
            self.lemma_lists(t);
        }
        r
    }

    /// Clones of `tenant`'s records on which `predicate` held, each once; the
    /// predicate is asked once of each of the tenant's records.
    pub fn search<F: Fn(&T) -> bool>(&self, tenant: &TenantId, predicate: F) -> (r: Vec<T>)
        where
            T: Clone,
        requires
            self.wf(),
            forall|x: &T| #[trigger] predicate.requires((x,)),
        ensures
            exists|ids: Seq<u128>, kept: Seq<bool>, from: Seq<int>| {
                &&& lists_ids(self.view(), tenant.0, ids)
                &&& kept.len() == ids.len()
                &&& forall|i: int| 0 <= i < ids.len() ==> predicate.ensures((&self.view()[(tenant.0, ids[i])],), #[trigger] kept[i])
                &&& r@.len() == count_true(kept)
                &&& from.len() == r@.len()
                &&& forall|i: int| 0 <= i < r@.len() ==> 0 <= #[trigger] from[i] < ids.len() && kept[from[i]] && cloned::<T>(self.view()[(tenant.0, ids[from[i]])], r@[i])
                &&& forall|i: int, k: int| 0 <= i < k < r@.len() ==> #[trigger] from[i] < #[trigger] from[k]
            },
    {
        let t = tenant.0;
        let mut r: Vec<T> = Vec::new();
        let mut j: usize = 0;
        let ghost mut kept: Seq<bool> = Seq::empty();
        let ghost mut from: Seq<int> = Seq::empty();
        while j < self.records.len()
            invariant
                self.wf(),
                j <= self.records@.len(),
                forall|x: &T| #[trigger] predicate.requires((x,)),
                kept.len() == ids_upto(self.records@, t, j as int).len(),
                forall|i: int| 0 <= i < kept.len() ==> predicate.ensures((&self.view()[(t, ids_upto(self.records@, t, j as int)[i])],), #[trigger] kept[i]),
                r@.len() == count_true(kept),
                from.len() == r@.len(),
                forall|i: int| 0 <= i < r@.len() ==> 0 <= #[trigger] from[i] < kept.len() && kept[from[i]] && cloned::<T>(self.view()[(t, ids_upto(self.records@, t, j as int)[from[i]])], r@[i]),
                forall|i: int, k: int| 0 <= i < k < r@.len() ==> #[trigger] from[i] < #[trigger] from[k],
            decreases self.records@.len() - j,
        {
            let ghost prev = ids_upto(self.records@, t, j as int);
            let ghost r_before = r@;
            if self.records[j].0 == t {
                let ok = predicate(&self.records[j].2);
                proof {
                    self.lemma_at(j as int);
                    assert(kept.push(ok).drop_last() =~= kept);
                }
                if ok {
                    let c = self.records[j].2.clone();
                    r.push(c);
                    proof {
                        from = from.push(kept.len() as int);
                    }
                }
                proof {
                    let now = ids_upto(self.records@, t, j + 1);
                    let nk = kept.push(ok);
                    assert(now == prev.push(self.records@[j as int].1));
                    assert forall|i: int| 0 <= i < nk.len() implies predicate.ensures((&self.view()[(t, now[i])],), #[trigger] nk[i]) by {
                        if i < kept.len() {
                            assert(now[i] == prev[i]);
                            assert(nk[i] == kept[i]);
                        }
                    }
                    assert forall|i: int| 0 <= i < r@.len() implies 0 <= #[trigger] from[i] < nk.len() && nk[from[i]] && cloned::<T>(self.view()[(t, now[from[i]])], r@[i]) by {
                        if ok && i == r@.len() - 1 {
                            assert(from[i] == kept.len());
                        } else {
                            assert(r@[i] == r_before[i]);
                            assert(now[from[i]] == prev[from[i]]);
                            assert(nk[from[i]] == kept[from[i]]);
                        }
                    }
                    kept = nk;
                }
            } else {
                proof {
                    assert(ids_upto(self.records@, t, j + 1) == prev);
                }
            }
            j += 1;
        }
        proof {
            self.lemma_lists(t);
        }
        r
    }

    /// Clones of every tenant's records, each once. This bypasses tenant
    /// isolation and is meant for administration only.
    pub fn all_unscoped(&self) -> (r: Vec<T>)
        where
            T: Clone,
        requires
            self.wf(),
        ensures
            exists|keys: Seq<(u128, u128)>| {
                &&& keys.no_duplicates()
                &&& forall|k: (u128, u128)| #[trigger] self.view().dom().contains(k) <==> keys.contains(k)
                &&& keys.len() == r@.len()
                &&& forall|i: int| 0 <= i < keys.len() ==> cloned::<T>(self.view()[keys[i]], #[trigger] r@[i])
            },
    {
        let mut r: Vec<T> = Vec::new();
        let mut j: usize = 0;
        while j < self.records.len()
            invariant
                self.wf(),
                j <= self.records@.len(),
                r@.len() == j,
                forall|i: int| 0 <= i < j ==> cloned::<T>(self.view()[(self.records@[i].0, self.records@[i].1)], #[trigger] r@[i]),
            decreases self.records@.len() - j,
        {
            let c = self.records[j].2.clone();
            proof {
                self.lemma_at(j as int);
            }
            r.push(c);
            j += 1;
        }
        proof {
            let keys = Seq::new(self.records@.len(), |i: int| (self.records@[i].0, self.records@[i].1));
            assert forall|a: int, b: int| 0 <= a < keys.len() && 0 <= b < keys.len() && a != b implies keys[a] != keys[b] by {
                if a < b {
                    assert(self.records@[a].0 != self.records@[b].0 || self.records@[a].1 != self.records@[b].1);
                } else {
                    assert(self.records@[b].0 != self.records@[a].0 || self.records@[b].1 != self.records@[a].1);
                }
            }
            assert forall|k: (u128, u128)| #[trigger] self.view().dom().contains(k) <==> keys.contains(k) by {
                if self.view().dom().contains(k) {
                    assert(self.has_key(k));
                    let i = choose|i: int| 0 <= i < self.records@.len() && (#[trigger] self.records@[i]).0 == k.0 && self.records@[i].1 == k.1;
                    assert(keys[i] == k);
                }
                if keys.contains(k) {
                    let i = choose|i: int| 0 <= i < keys.len() && keys[i] == k;
                    self.lemma_at(i);
                }
            }
            assert forall|i: int| 0 <= i < keys.len() implies cloned::<T>(self.view()[keys[i]], #[trigger] r@[i]) by {}
        }
        r
    }
}

/// A tenant's writes leave every other tenant's records as they were.
pub proof fn law_tenant_isolation<T>(before: Map<(u128, u128), T>, after: Map<(u128, u128), T>, t: u128, id: u128, other: u128, oid: u128)
    requires
        other != t,
        after.dom() == before.dom().insert((t, id)) || after.dom() == before.dom() || after == before.remove((t, id)),
        forall|k: (u128, u128)| k != (t, id) && #[trigger] before.dom().contains(k) ==> after[k] == before[k],
    ensures
        after.dom().contains((other, oid)) == before.dom().contains((other, oid)),
        before.dom().contains((other, oid)) ==> after[(other, oid)] == before[(other, oid)],
{
}

} // verus!
