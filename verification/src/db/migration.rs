//! Migrations, plans of migrations, and column definitions that render as
//! `CREATE TABLE` text.

use vstd::prelude::*;
use crate::text::{append_str, append_string, string_from};
use crate::parser::split::join;
use crate::db::sql::lemma_join_take;

verus! {

/// One schema change, with the SQL that applies it and the SQL that undoes it.
#[derive(Debug, Clone)]
pub struct Migration {
    pub version: String,
    pub name: String,
    pub up: String,
    pub down: String,
}

/// Migrations in the order they are to be applied.
#[derive(Debug, Clone)]
pub struct MigrationPlan {
    pub migrations: Vec<Migration>,
}

/// A column of a table to be created.
#[derive(Debug, Clone)]
pub struct ColumnDef {
    pub name: String,
    pub sql_type: String,
    pub nullable: bool,
    pub primary_key: bool,
    pub unique: bool,
    pub default: Option<String>,
}

/// The SQL fragment of a column: name, type, then `PRIMARY KEY`, `NOT NULL`
/// (only for a non-key column that is not nullable), `UNIQUE` and
/// `DEFAULT <v>` where they apply, separated by spaces.
pub open spec fn column_sql(c: ColumnDef) -> Seq<char> {
    c.name@ + " "@ + c.sql_type@ + (if c.primary_key {
        " PRIMARY KEY"@
    } else {
        seq![]
    }) + (if !c.nullable && !c.primary_key {
        " NOT NULL"@
    } else {
        seq![]
    }) + (if c.unique {
        " UNIQUE"@
    } else {
        seq![]
    }) + (match c.default {
        Some(d) => " DEFAULT "@ + d@,
        None => seq![],
    })
}

pub open spec fn columns_sql(cs: Seq<ColumnDef>) -> Seq<Seq<char>> {
    Seq::new(cs.len(), |i: int| column_sql(cs[i]))
}

impl ColumnDef {
    /// A nullable column with no key, uniqueness or default.
    pub fn new(name: &str, sql_type: &str) -> (r: Self)
        ensures
            r.name@ == name@,
            r.sql_type@ == sql_type@,
            r.nullable,
            !r.primary_key,
            !r.unique,
            r.default is None,
    {
        ColumnDef {
            name: string_from(name),
            sql_type: string_from(sql_type),
            nullable: true,
            primary_key: false,
            unique: false,
            default: None,
        }
    }

    /// Makes the column the primary key, which is never null.
    pub fn primary_key(self) -> (r: Self)
        ensures
            r == (ColumnDef { primary_key: true, nullable: false, ..self }),
    {
        ColumnDef { primary_key: true, nullable: false, ..self }
    }

    pub fn not_null(self) -> (r: Self)
        ensures
            r == (ColumnDef { nullable: false, ..self }),
    {
        ColumnDef { nullable: false, ..self }
    }

    pub fn unique(self) -> (r: Self)
        ensures
            r == (ColumnDef { unique: true, ..self }),
    {
        ColumnDef { unique: true, ..self }
    }

    pub fn default_value(self, value: &str) -> (r: Self)
        ensures
            r.name == self.name,
            r.sql_type == self.sql_type,
            r.nullable == self.nullable,
            r.primary_key == self.primary_key,
            r.unique == self.unique,
            r.default matches Some(d) && d@ == value@,
    {
        ColumnDef { default: Some(string_from(value)), ..self }
    }

    /// Appends `column_sql(self)` to `out`.
    fn append_sql(&self, out: &mut String)
        ensures
            final(out)@ == old(out)@ + column_sql(*self),
    {
        append_string(out, &self.name);
        append_str(out, " ");
        append_string(out, &self.sql_type);
        if self.primary_key {
            append_str(out, " PRIMARY KEY");
        }
        if !self.nullable && !self.primary_key {
            append_str(out, " NOT NULL");
        }
        if self.unique {
            append_str(out, " UNIQUE");
        }
        match &self.default {
            Some(d) => {
                append_str(out, " DEFAULT ");
                append_string(out, d);
            },
            None => {},
        }
        proof {
            assert(final(out)@ =~= old(out)@ + column_sql(*self));
        }
    }

    /// The SQL fragment of this column.
    pub fn to_sql(&self) -> (r: String)
        ensures
            r@ == column_sql(*self),
    {
        let mut s = String::new();
        self.append_sql(&mut s);
        proof {
            assert(s@ =~= column_sql(*self));
        }
        s
    }
}

impl MigrationPlan {
    /// An empty plan.
    pub fn new() -> (r: Self)
        ensures
            r.migrations@.len() == 0,
    {
        MigrationPlan { migrations: Vec::new() }
    }

    /// The plan with `migration` added last.
    pub fn add(self, migration: Migration) -> (r: Self)
        ensures
            r.migrations@ == self.migrations@.push(migration),
    {
        let mut ms = self.migrations;
        ms.push(migration);
        MigrationPlan { migrations: ms }
    }

    /// The migration that creates table `name` with `columns` (one per line)
    /// and whose undo drops it; its version is empty.
    pub fn create_table(name: &str, columns: Vec<ColumnDef>) -> (r: Migration)
        ensures
            r.version@ == Seq::<char>::empty(),
            r.name@ == "create_"@ + name@,
            r.up@ == "CREATE TABLE "@ + name@ + " (\n  "@ + join(columns_sql(columns@), ",\n  "@) + "\n);"@,
            r.down@ == "DROP TABLE IF EXISTS "@ + name@ + ";"@,
    {
        let mut up = string_from("CREATE TABLE ");
        append_str(&mut up, name);
        append_str(&mut up, " (\n  ");
        let ghost parts = columns_sql(columns@);
        let ghost start = up@;
        let mut i: usize = 0;
        while i < columns.len()
            invariant
                i <= columns@.len(),
                parts == columns_sql(columns@),
                up@ == start + join(parts.take(i as int), ",\n  "@),
            decreases columns@.len() - i,
        {
            proof {
                lemma_join_take(parts, ",\n  "@, i as int);
            }
            if i > 0 {
                append_str(&mut up, ",\n  ");
            }
            columns[i].append_sql(&mut up);
            i += 1;
        }
        proof {
            assert(parts.take(columns@.len() as int) =~= parts);
        }
        append_str(&mut up, "\n);");
        let mut down = string_from("DROP TABLE IF EXISTS ");
        append_str(&mut down, name);
        append_str(&mut down, ";");
        let mut n = string_from("create_");
        append_str(&mut n, name);
        Migration { version: String::new(), name: n, up, down }
    }
}

impl Default for MigrationPlan {
    fn default() -> (r: Self)
        ensures
            r.migrations@.len() == 0,
    {
        MigrationPlan::new()
    }
}

} // verus!
