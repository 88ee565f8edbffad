//! Which migrations have been applied, which are pending, and which one a
//! rollback undoes. Running the SQL is left to the caller, which reports each
//! success back with `mark_applied` / `complete_rollback`.

use vstd::prelude::*;
use crate::text::string_eq;
use crate::db::migration::Migration;
use crate::db::error::{error_text, DbError};
use crate::text::{append_str, append_string, string_from};

verus! {

/// Whether migration `m` is applied and when it is listed.
#[derive(Debug, Clone)]
pub struct MigrationStatus {
    pub version: String,
    pub name: String,
    pub applied: bool,
}

/// Whether `version` is among `applied`.
pub open spec fn is_applied(applied: Seq<String>, version: Seq<char>) -> bool {
    exists|i: int| 0 <= i < applied.len() && #[trigger] applied[i]@ == version
}

/// The migrations of `ms` not yet applied, in order.
pub open spec fn pending_of(ms: Seq<Migration>, applied: Seq<String>) -> Seq<Migration>
    decreases ms.len(),
{
    if ms.len() == 0 {
        seq![]
    } else {
        let rest = pending_of(ms.drop_last(), applied);
        if is_applied(applied, ms.last().version@) {
            rest
        } else {
            rest.push(ms.last())
        }
    }
}

/// A copy of `m` with the same texts.
pub open spec fn same_migration(a: Migration, b: Migration) -> bool {
    a.version@ == b.version@ && a.name@ == b.name@ && a.up@ == b.up@ && a.down@ == b.down@
}

impl Migration {
    /// A copy of this migration.
    pub fn copy(&self) -> (r: Migration)
        ensures
            same_migration(r, *self),
    {
        Migration {
            version: self.version.clone(),
            name: self.name.clone(),
            up: self.up.clone(),
            down: self.down.clone(),
        }
    }
}

fn contains_version(applied: &Vec<String>, version: &String) -> (r: bool)
    ensures
        r == is_applied(applied@, version@),
{
    let mut i: usize = 0;
    while i < applied.len()
        invariant
            i <= applied@.len(),
            forall|j: int| 0 <= j < i ==> #[trigger] applied@[j]@ != version@,
        decreases applied@.len() - i,
    {
        if string_eq(&applied[i], version) {
            return true;
        }
        i += 1;
    }
    false
}

/// The migrations known to a database, and the versions applied to it.
pub struct MigrationRunner {
    migrations: Vec<Migration>,
    applied: Vec<String>,
}

impl MigrationRunner {
    pub closed spec fn migrations(&self) -> Seq<Migration> {
        self.migrations@
    }

    /// The applied versions, oldest first.
    pub closed spec fn applied_versions(&self) -> Seq<String> {
        self.applied@
    }

    /// No migrations and nothing applied.
    pub fn new() -> (r: Self)
        ensures
            r.migrations().len() == 0,
            r.applied_versions().len() == 0,
    {
        MigrationRunner { migrations: Vec::new(), applied: Vec::new() }
    }

    pub fn add(self, migration: Migration) -> (r: Self)
        ensures
            r.migrations() == self.migrations().push(migration),
            r.applied_versions() == self.applied_versions(),
    {
        let MigrationRunner { mut migrations, applied } = self;
        migrations.push(migration);
        MigrationRunner { migrations, applied }
    }

    pub fn add_all(self, migrations: Vec<Migration>) -> (r: Self)
        ensures
            r.migrations() == self.migrations() + migrations@,
            r.applied_versions() == self.applied_versions(),
    {
        let MigrationRunner { migrations: mut ms, applied } = self;
        let mut more = migrations;
        ms.append(&mut more);
        MigrationRunner { migrations: ms, applied }
    }

    /// Records `version` as applied (last).
    pub fn mark_applied(&mut self, version: &str)
        ensures
            final(self).migrations() == old(self).migrations(),
            final(self).applied_versions().len() == old(self).applied_versions().len() + 1,
            final(self).applied_versions().drop_last() == old(self).applied_versions(),
            final(self).applied_versions().last()@ == version@,
    {
        self.applied.push(crate::text::string_from(version));
        proof {
            assert(self.applied@.drop_last() =~= old(self).applied@);
        }
    }

    /// Copies of the migrations not yet applied, in the order they were added.
    pub fn pending(&self) -> (r: Vec<Migration>)
        ensures
            r@.len() == pending_of(self.migrations(), self.applied_versions()).len(),
            forall|i: int| 0 <= i < r@.len() ==> same_migration(#[trigger] r@[i], pending_of(self.migrations(), self.applied_versions())[i]),
    {
        let ms = &self.migrations;
        let mut r: Vec<Migration> = Vec::new();
        let mut i: usize = 0;
        while i < ms.len()
            invariant
                ms == &self.migrations,
                i <= ms@.len(),
                r@.len() == pending_of(ms@.take(i as int), self.applied@).len(),
                forall|j: int| 0 <= j < r@.len() ==> same_migration(#[trigger] r@[j], pending_of(ms@.take(i as int), self.applied@)[j]),
            decreases ms@.len() - i,
        {
            proof {
                assert(ms@.take(i + 1).drop_last() =~= ms@.take(i as int));
                assert(ms@.take(i + 1).last() == ms@[i as int]);
            }
            if !contains_version(&self.applied, &ms[i].version) {
                let ghost before = r@;
                r.push(ms[i].copy());
                proof {
                    let p = pending_of(ms@.take(i as int), self.applied@);
                    assert forall|j: int| 0 <= j < r@.len() implies same_migration(#[trigger] r@[j], p.push(ms@[i as int])[j]) by {
                        if j < before.len() {
                            assert(r@[j] == before[j]);
                        }
                    }
                }
            }
            i += 1;
        }
        proof {
            assert(ms@.take(ms@.len() as int) =~= ms@);
        }
        r
    }

    /// The applied versions, oldest first.
    pub fn applied(&self) -> (r: &Vec<String>)
        ensures
            r@ == self.applied_versions(),
    {
        &self.applied
    }

    /// The migration a rollback undoes: the first one whose version is the
    /// last applied, if there is one.
    pub fn rollback_target(&self) -> (r: Option<usize>)
        ensures
            match r {
                Some(i) => self.applied_versions().len() > 0 && i < self.migrations().len()
                    && self.migrations()[i as int].version@ == self.applied_versions().last()@
                    && forall|j: int| 0 <= j < i ==> #[trigger] self.migrations()[j].version@ != self.applied_versions().last()@,
                None => self.applied_versions().len() == 0 || forall|j: int| 0 <= j < self.migrations().len() ==> #[trigger] self.migrations()[j].version@ != self.applied_versions().last()@,
            },
    {
        if self.applied.len() == 0 {
            return None;
        }
        let last = &self.applied[self.applied.len() - 1];
        let mut i: usize = 0;
        while i < self.migrations.len()
            invariant
                i <= self.migrations@.len(),
                self.applied@.len() > 0,
                *last == self.applied@.last(),
                forall|j: int| 0 <= j < i ==> #[trigger] self.migrations@[j].version@ != last@,
            decreases self.migrations@.len() - i,
        {
            if string_eq(&self.migrations[i].version, last) {
                return Some(i);
            }
            i += 1;
        }
        None
    }

    /// A copy of migration `i`.
    pub fn migration(&self, i: usize) -> (r: Migration)
        requires
            i < self.migrations().len(),
        ensures
            same_migration(r, self.migrations()[i as int]),
    {
        self.migrations[i].copy()
    }

    /// Records that the last applied migration was undone.
    pub fn complete_rollback(&mut self)
        ensures
            final(self).migrations() == old(self).migrations(),
            final(self).applied_versions() == (if old(self).applied_versions().len() == 0 {
                old(self).applied_versions()
            } else {
                old(self).applied_versions().drop_last()
            }),
    {
        if self.applied.len() > 0 {
            self.applied.pop();
        }
    }

    /// Every migration, in order, with whether it is applied.
    pub fn status(&self) -> (r: Vec<MigrationStatus>)
        ensures
            r@.len() == self.migrations().len(),
            forall|i: int| 0 <= i < r@.len() ==> {
                &&& (#[trigger] r@[i]).version@ == self.migrations()[i].version@
                &&& r@[i].name@ == self.migrations()[i].name@
                &&& r@[i].applied == is_applied(self.applied_versions(), self.migrations()[i].version@)
            },
    {
        let mut r: Vec<MigrationStatus> = Vec::new();
        let mut i: usize = 0;
        while i < self.migrations.len()
            invariant
                i <= self.migrations@.len(),
                r@.len() == i,
                forall|j: int| 0 <= j < i ==> {
                    &&& (#[trigger] r@[j]).version@ == self.migrations@[j].version@
                    &&& r@[j].name@ == self.migrations@[j].name@
                    &&& r@[j].applied == is_applied(self.applied@, self.migrations@[j].version@)
                },
            decreases self.migrations@.len() - i,
        {
            let m = &self.migrations[i];
            let a = contains_version(&self.applied, &m.version);
            r.push(MigrationStatus { version: m.version.clone(), name: m.name.clone(), applied: a });
            i += 1;
        }
        r
    }
}

/// Once a migration's version is marked applied, it is no longer pending.
pub proof fn law_applied_not_pending(ms: Seq<Migration>, applied: Seq<String>, v: String, i: int)
    requires
        0 <= i < pending_of(ms, applied.push(v)).len(),
    ensures
        pending_of(ms, applied.push(v))[i].version@ != v@,
    decreases ms.len(),
{
    let ap = applied.push(v);
    assert(ap[applied.len() as int] == v);
    let rest = pending_of(ms.drop_last(), ap);
    if i < rest.len() {
        law_applied_not_pending(ms.drop_last(), applied, v, i);
    }
}

/// What running migration `name` reports when its SQL fails with `e`:
/// `MigrationError("<name>: <message of e>")`.
pub fn migration_failed(name: &String, e: &DbError) -> (r: DbError)
    ensures
        r matches DbError::MigrationError(m) && m@ == name@ + ": "@ + error_text(*e),
{
    let mut m = name.clone();
    append_str(&mut m, ": ");
    let t = e.message();
    append_string(&mut m, &t);
    DbError::MigrationError(m)
}

/// What rolling back migration `name` reports when its SQL fails with `e`:
/// `MigrationError("rollback <name>: <message of e>")`.
pub fn rollback_failed(name: &String, e: &DbError) -> (r: DbError)
    ensures
        r matches DbError::MigrationError(m) && m@ == "rollback "@ + name@ + ": "@ + error_text(*e),
{
    let mut m = string_from("rollback ");
    append_string(&mut m, name);
    append_str(&mut m, ": ");
    let t = e.message();
    append_string(&mut m, &t);
    DbError::MigrationError(m)
}

} // verus!
