use adapto::db::error::DbError;
use adapto::db::migration::{ColumnDef, Migration, MigrationPlan};
use adapto::db::query::{Condition, Direction, Query};
use adapto::db::pool::InMemoryPool;
use adapto::db::runner::{migration_failed, rollback_failed, MigrationRunner};
use adapto::db::sql::{count_sql, delete_sql, insert_sql, select_by_id_sql, truncate_sql, update_sql, upsert_sql};
use adapto::forms::json::{append_json, JsonNumber, JsonValue};

fn s(x: &str) -> JsonValue {
    JsonValue::Str(x.to_string())
}

fn n(x: u64) -> JsonValue {
    JsonValue::Number(JsonNumber::PosInt(x))
}

fn f(x: f64, t: &str) -> JsonValue {
    JsonValue::Number(JsonNumber::Float { bits: x.to_bits(), text: t.to_string() })
}

fn texts(vs: &[JsonValue]) -> Vec<String> {
    vs.iter()
        .map(|v| {
            let mut out = String::new();
            append_json(&mut out, v);
            out
        })
        .collect()
}

fn migration(v: &str, name: &str, up: &str, down: &str) -> Migration {
    Migration { version: v.into(), name: name.into(), up: up.into(), down: down.into() }
}

fn test_data() -> Vec<(String, JsonValue)> {
    // in key order, as an ordered map yields them
    vec![("email".to_string(), s("alice@example.com")), ("name".to_string(), s("Alice"))]
}

#[test]
fn query_simple_eq() {
    let (sql, params) = Query::table("users").where_eq("name", s("Alice")).to_sql();
    assert_eq!(sql, "SELECT * FROM users WHERE name = $1");
    assert_eq!(texts(&params), vec!["\"Alice\""]);
}

#[test]
fn query_ne() {
    let (sql, params) = Query::table("users").where_ne("status", s("banned")).to_sql();
    assert_eq!(sql, "SELECT * FROM users WHERE status != $1");
    assert_eq!(texts(&params), vec!["\"banned\""]);
}

#[test]
fn query_gt_lt() {
    let (sql, params) = Query::table("orders").where_gt("amount", n(100)).where_lt("amount", n(500)).to_sql();
    assert_eq!(sql, "SELECT * FROM orders WHERE amount > $1 AND amount < $2");
    assert_eq!(texts(&params), vec!["100", "500"]);
}

#[test]
fn query_gte_lte() {
    let (sql, params) = Query::table("products")
        .where_gte("price", f(10.0, "10.0"))
        .where_lte("price", f(99.99, "99.99"))
        .to_sql();
    assert_eq!(sql, "SELECT * FROM products WHERE price >= $1 AND price <= $2");
    assert_eq!(texts(&params), vec!["10.0", "99.99"]);
}

#[test]
fn query_like() {
    let (sql, params) = Query::table("products").where_like("name", "%widget%").to_sql();
    assert_eq!(sql, "SELECT * FROM products WHERE name LIKE $1");
    assert_eq!(texts(&params), vec!["\"%widget%\""]);
}

#[test]
fn query_in() {
    let (sql, params) = Query::table("users").where_in("role", vec![s("admin"), s("editor")]).to_sql();
    assert_eq!(sql, "SELECT * FROM users WHERE role IN ($1, $2)");
    assert_eq!(texts(&params), vec!["\"admin\"", "\"editor\""]);
}

#[test]
fn query_null_checks() {
    let (sql, params) = Query::table("users").where_null("deleted_at").where_not_null("email").to_sql();
    assert_eq!(sql, "SELECT * FROM users WHERE deleted_at IS NULL AND email IS NOT NULL");
    assert!(params.is_empty());
}

#[test]
fn query_compound_and() {
    let (sql, params) = Query::table("users")
        .and(vec![Condition::Eq("status".into(), s("active")), Condition::Gt("age".into(), n(18))])
        .to_sql();
    assert_eq!(sql, "SELECT * FROM users WHERE (status = $1 AND age > $2)");
    assert_eq!(texts(&params), vec!["\"active\"", "18"]);
}

#[test]
fn query_compound_or() {
    let (sql, params) = Query::table("users")
        .or(vec![Condition::Eq("role".into(), s("admin")), Condition::Eq("role".into(), s("superadmin"))])
        .to_sql();
    assert_eq!(sql, "SELECT * FROM users WHERE (role = $1 OR role = $2)");
    assert_eq!(texts(&params), vec!["\"admin\"", "\"superadmin\""]);
}

#[test]
fn query_nested_groups_number_on() {
    let (sql, params) = Query::table("t")
        .where_eq("a", n(1))
        .or(vec![
            Condition::And(vec![Condition::Eq("b".into(), n(2)), Condition::In("c".into(), vec![n(3), n(4)])]),
            Condition::IsNull("d".into()),
            Condition::Like("e".into(), "x%".into()),
        ])
        .to_sql();
    assert_eq!(sql, "SELECT * FROM t WHERE a = $1 AND ((b = $2 AND c IN ($3, $4)) OR d IS NULL OR e LIKE $5)");
    assert_eq!(texts(&params), vec!["1", "2", "3", "4", "\"x%\""]);
}

#[test]
fn query_order_by_asc() {
    let (sql, _) = Query::table("users").order_by("name", Direction::Asc).to_sql();
    assert_eq!(sql, "SELECT * FROM users ORDER BY name ASC");
}

#[test]
fn query_order_by_desc() {
    let (sql, _) = Query::table("users").order_by("created_at", Direction::Desc).to_sql();
    assert_eq!(sql, "SELECT * FROM users ORDER BY created_at DESC");
}

#[test]
fn query_limit_and_offset() {
    let (sql, _) = Query::table("users").limit(10).offset(20).to_sql();
    assert_eq!(sql, "SELECT * FROM users LIMIT 10 OFFSET 20");
}

#[test]
fn query_limit_only() {
    let (sql, _) = Query::table("users").limit(5).to_sql();
    assert_eq!(sql, "SELECT * FROM users LIMIT 5");
}

#[test]
fn query_no_conditions() {
    let (sql, params) = Query::table("logs").to_sql();
    assert_eq!(sql, "SELECT * FROM logs");
    assert!(params.is_empty());
}

#[test]
fn query_full_combination() {
    let (sql, params) = Query::table("orders")
        .where_eq("tenant_id", s("abc"))
        .where_like("description", "%urgent%")
        .order_by("created_at", Direction::Desc)
        .limit(25)
        .offset(50)
        .to_sql();
    assert_eq!(
        sql,
        "SELECT * FROM orders WHERE tenant_id = $1 AND description LIKE $2 ORDER BY created_at DESC LIMIT 25 OFFSET 50"
    );
    assert_eq!(params.len(), 2);
    assert_eq!(texts(&params), vec!["\"abc\"", "\"%urgent%\""]);
}

#[test]
fn query_multiple_order_by() {
    let (sql, _) = Query::table("users")
        .order_by("last_name", Direction::Asc)
        .order_by("first_name", Direction::Asc)
        .to_sql();
    assert_eq!(sql, "SELECT * FROM users ORDER BY last_name ASC, first_name ASC");
}

#[test]
fn query_parameterized_indices_sequential() {
    let (sql, params) = Query::table("t").where_eq("a", n(1)).where_eq("b", n(2)).where_eq("c", n(3)).to_sql();
    assert_eq!(sql, "SELECT * FROM t WHERE a = $1 AND b = $2 AND c = $3");
    assert_eq!(texts(&params), vec!["1", "2", "3"]);
}

#[test]
fn insert_generates_correct_sql() {
    let (sql, params) = insert_sql("users", &test_data());
    assert!(sql.starts_with("INSERT INTO users"));
    assert!(sql.contains("$1"));
    assert!(sql.contains("$2"));
    assert!(sql.contains("RETURNING *"));
    assert_eq!(params.len(), 2);
    assert_eq!(sql, "INSERT INTO users (email, name) VALUES ($1, $2) RETURNING *");
}

#[test]
fn update_generates_correct_sql() {
    let (sql, params) = update_sql("users", "id", &s("uuid-1"), &test_data());
    assert!(sql.starts_with("UPDATE users SET"));
    assert!(sql.contains("WHERE id = $3"));
    assert!(sql.contains("RETURNING *"));
    assert_eq!(params.len(), 3);
    assert_eq!(sql, "UPDATE users SET email = $1, name = $2 WHERE id = $3 RETURNING *");
    assert_eq!(texts(&params)[2], "\"uuid-1\"");
}

#[test]
fn delete_generates_correct_sql() {
    let (sql, params) = delete_sql("users", "id", &s("uuid-1"));
    assert_eq!(sql, "DELETE FROM users WHERE id = $1");
    assert_eq!(params.len(), 1);
}

#[test]
fn select_by_id_generates_correct_sql() {
    let (sql, params) = select_by_id_sql("users", "id", &n(42));
    assert_eq!(sql, "SELECT * FROM users WHERE id = $1");
    assert_eq!(texts(&params), vec!["42"]);
}

#[test]
fn count_sql_correct() {
    assert_eq!(count_sql("users"), "SELECT COUNT(*) as count FROM users");
}

#[test]
fn upsert_generates_correct_sql() {
    let (sql, params) = upsert_sql("users", "email", &test_data());
    assert!(sql.contains("ON CONFLICT (email)"));
    assert!(sql.contains("DO UPDATE SET"));
    assert!(sql.contains("RETURNING *"));
    assert_eq!(params.len(), 2);
    assert_eq!(
        sql,
        "INSERT INTO users (email, name) VALUES ($1, $2) ON CONFLICT (email) DO UPDATE SET name = EXCLUDED.name RETURNING *"
    );
}

#[test]
fn truncate_generates_correct_sql() {
    assert_eq!(truncate_sql("users"), "TRUNCATE TABLE users CASCADE");
}

#[test]
fn migration_create_table_sql() {
    let migration = MigrationPlan::create_table(
        "customers",
        vec![
            ColumnDef::new("id", "UUID").primary_key(),
            ColumnDef::new("name", "VARCHAR(255)").not_null(),
            ColumnDef::new("email", "VARCHAR(255)").not_null().unique(),
            ColumnDef::new("created_at", "TIMESTAMPTZ").not_null().default_value("NOW()"),
        ],
    );
    assert_eq!(migration.name, "create_customers");
    assert!(migration.up.contains("CREATE TABLE customers"));
    assert!(migration.up.contains("id UUID PRIMARY KEY"));
    assert!(migration.up.contains("name VARCHAR(255) NOT NULL"));
    assert!(migration.up.contains("email VARCHAR(255) NOT NULL UNIQUE"));
    assert!(migration.up.contains("created_at TIMESTAMPTZ NOT NULL DEFAULT NOW()"));
    assert!(migration.down.contains("DROP TABLE IF EXISTS customers"));
}

#[test]
fn migration_create_table_exact_text() {
    let m = MigrationPlan::create_table("t", vec![ColumnDef::new("a", "INT"), ColumnDef::new("b", "TEXT").unique()]);
    assert_eq!(m.up, "CREATE TABLE t (\n  a INT,\n  b TEXT UNIQUE\n);");
    assert_eq!(m.down, "DROP TABLE IF EXISTS t;");
    assert_eq!(m.version, "");
}

#[test]
fn column_def_primary_key_sets_not_nullable() {
    let col = ColumnDef::new("id", "UUID").primary_key();
    assert!(col.primary_key);
    assert!(!col.nullable);
    assert_eq!(col.to_sql(), "id UUID PRIMARY KEY");
}

#[test]
fn column_def_all_options() {
    let col = ColumnDef::new("status", "VARCHAR(50)").not_null().unique().default_value("'active'");
    assert_eq!(col.name, "status");
    assert_eq!(col.sql_type, "VARCHAR(50)");
    assert!(!col.nullable);
    assert!(!col.primary_key);
    assert!(col.unique);
    assert_eq!(col.default, Some("'active'".to_string()));
    assert_eq!(col.to_sql(), "status VARCHAR(50) NOT NULL UNIQUE DEFAULT 'active'");
}

#[test]
fn column_def_defaults() {
    let col = ColumnDef::new("notes", "TEXT");
    assert!(col.nullable);
    assert!(!col.primary_key);
    assert!(!col.unique);
    assert!(col.default.is_none());
}

#[test]
fn migration_plan_add_ordering() {
    let plan = MigrationPlan::new()
        .add(migration("001", "create_users", "CREATE TABLE users ();", "DROP TABLE users;"))
        .add(migration("002", "create_orders", "CREATE TABLE orders ();", "DROP TABLE orders;"));
    assert_eq!(plan.migrations.len(), 2);
    assert_eq!(plan.migrations[0].version, "001");
    assert_eq!(plan.migrations[1].version, "002");
}

#[test]
fn db_error_display() {
    assert_eq!(DbError::NotFound.message(), "Record not found");
    assert_eq!(DbError::Duplicate.message(), "Duplicate record");
    assert_eq!(DbError::TenantScopeRequired.message(), "Tenant scope required");
    assert_eq!(DbError::QueryError("bad syntax".into()).message(), "Query error: bad syntax");
    assert_eq!(DbError::MigrationError("version conflict".into()).message(), "Migration error: version conflict");
    assert_eq!(DbError::ConnectionError("timeout".into()).message(), "Connection error: timeout");
}

fn test_migrations() -> Vec<Migration> {
    vec![
        migration("001", "create_users", "CREATE TABLE users (id UUID PRIMARY KEY)", "DROP TABLE users"),
        migration("002", "create_orders", "CREATE TABLE orders (id UUID PRIMARY KEY)", "DROP TABLE orders"),
    ]
}

#[test]
fn runner_pending_returns_unapplied() {
    let runner = MigrationRunner::new().add_all(test_migrations());
    assert_eq!(runner.pending().len(), 2);
}

#[test]
fn runner_mark_applied() {
    let mut runner = MigrationRunner::new().add_all(test_migrations());
    runner.mark_applied("001");
    let pending = runner.pending();
    assert_eq!(pending.len(), 1);
    assert_eq!(pending[0].version, "002");
}

#[test]
fn runner_status_and_rollback_target() {
    let mut runner = MigrationRunner::new().add_all(test_migrations());
    assert!(runner.rollback_target().is_none());
    runner.mark_applied("001");
    runner.mark_applied("002");
    let status = runner.status();
    assert_eq!(status.len(), 2);
    assert!(status[0].applied && status[1].applied);
    let i = runner.rollback_target().unwrap();
    assert_eq!(runner.migration(i).down, "DROP TABLE orders");
    runner.complete_rollback();
    assert_eq!(runner.applied().len(), 1);
    assert_eq!(runner.pending()[0].version, "002");
    assert!(!runner.status()[1].applied);
}

use adapto::db::repository::InMemoryRepository;
use adapto::runtime::ids::TenantId;

#[derive(Debug, Clone, PartialEq)]
struct Customer {
    name: String,
    email: String,
}

fn tenant_a() -> TenantId {
    TenantId(1)
}

fn tenant_b() -> TenantId {
    TenantId(2)
}

fn new_id() -> u128 {
    uuid::Uuid::new_v4().as_u128()
}

fn cust(name: &str, email: &str) -> Customer {
    Customer { name: name.into(), email: email.into() }
}

#[test]
fn repo_create_and_find() {
    let mut repo = InMemoryRepository::<Customer>::new();
    let id = new_id();
    let customer = cust("Alice", "alice@example.com");
    repo.create(&tenant_a(), id, customer.clone());
    assert_eq!(repo.find(&tenant_a(), id), Some(customer));
}

#[test]
fn repo_find_nonexistent() {
    let repo = InMemoryRepository::<Customer>::new();
    assert_eq!(repo.find(&tenant_a(), new_id()), None);
}

#[test]
fn repo_for_tenant() {
    let mut repo = InMemoryRepository::<Customer>::new();
    repo.create(&tenant_a(), new_id(), cust("Alice", "a@x.com"));
    repo.create(&tenant_a(), new_id(), cust("Bob", "b@x.com"));
    repo.create(&tenant_b(), new_id(), cust("Charlie", "c@x.com"));
    assert_eq!(repo.for_tenant(&tenant_a()).len(), 2);
    assert_eq!(repo.for_tenant(&tenant_b()).len(), 1);
}

#[test]
fn repo_update_existing() {
    let mut repo = InMemoryRepository::<Customer>::new();
    let id = new_id();
    repo.create(&tenant_a(), id, cust("Alice", "a@x.com"));
    let updated = cust("Alice Updated", "alice.new@x.com");
    let result = repo.update(&tenant_a(), id, updated.clone());
    assert_eq!(result, Some(updated.clone()));
    assert_eq!(repo.find(&tenant_a(), id).unwrap().name, "Alice Updated");
}

#[test]
fn repo_update_nonexistent() {
    let mut repo = InMemoryRepository::<Customer>::new();
    assert_eq!(repo.update(&tenant_a(), new_id(), cust("Ghost", "ghost@x.com")), None);
}

#[test]
fn repo_update_wrong_tenant() {
    let mut repo = InMemoryRepository::<Customer>::new();
    let id = new_id();
    repo.create(&tenant_a(), id, cust("Alice", "a@x.com"));
    assert_eq!(repo.update(&tenant_b(), id, cust("Hacked", "h@x.com")), None);
    assert_eq!(repo.find(&tenant_a(), id).unwrap().name, "Alice");
}

#[test]
fn repo_delete_existing() {
    let mut repo = InMemoryRepository::<Customer>::new();
    let id = new_id();
    repo.create(&tenant_a(), id, cust("Alice", "a@x.com"));
    assert!(repo.delete(&tenant_a(), id));
    assert_eq!(repo.find(&tenant_a(), id), None);
}

#[test]
fn repo_delete_nonexistent() {
    let mut repo = InMemoryRepository::<Customer>::new();
    assert!(!repo.delete(&tenant_a(), new_id()));
}

#[test]
fn repo_delete_wrong_tenant() {
    let mut repo = InMemoryRepository::<Customer>::new();
    let id = new_id();
    repo.create(&tenant_a(), id, cust("Alice", "a@x.com"));
    assert!(!repo.delete(&tenant_b(), id));
    assert!(repo.find(&tenant_a(), id).is_some());
}

#[test]
fn repo_search_with_predicate() {
    let mut repo = InMemoryRepository::<Customer>::new();
    repo.create(&tenant_a(), new_id(), cust("Alice", "alice@x.com"));
    repo.create(&tenant_a(), new_id(), cust("Bob", "bob@x.com"));
    repo.create(&tenant_a(), new_id(), cust("Alina", "alina@x.com"));
    let results = repo.search(&tenant_a(), |c: &Customer| c.name.starts_with("Al"));
    assert_eq!(results.len(), 2);
}

#[test]
fn repo_search_no_matches() {
    let mut repo = InMemoryRepository::<Customer>::new();
    repo.create(&tenant_a(), new_id(), cust("Alice", "a@x.com"));
    let results = repo.search(&tenant_a(), |c: &Customer| c.name == "Nobody");
    assert!(results.is_empty());
}

#[test]
fn repo_search_empty_tenant() {
    let repo = InMemoryRepository::<Customer>::new();
    let results = repo.search(&tenant_a(), |_: &Customer| true);
    assert!(results.is_empty());
}

#[test]
fn repo_count() {
    let mut repo = InMemoryRepository::<Customer>::new();
    assert_eq!(repo.count(&tenant_a()), 0);
    repo.create(&tenant_a(), new_id(), cust("Alice", "a@x.com"));
    repo.create(&tenant_a(), new_id(), cust("Bob", "b@x.com"));
    assert_eq!(repo.count(&tenant_a()), 2);
    assert_eq!(repo.count(&tenant_b()), 0);
}

#[test]
fn repo_all_unscoped() {
    let mut repo = InMemoryRepository::<Customer>::new();
    repo.create(&tenant_a(), new_id(), cust("Alice", "a@x.com"));
    repo.create(&tenant_b(), new_id(), cust("Bob", "b@x.com"));
    assert_eq!(repo.all_unscoped().len(), 2);
}

#[test]
fn repo_tenant_isolation() {
    let mut repo = InMemoryRepository::<Customer>::new();
    let id_a = new_id();
    let id_b = new_id();
    repo.create(&tenant_a(), id_a, cust("Alice", "a@x.com"));
    repo.create(&tenant_b(), id_b, cust("Bob", "b@x.com"));
    assert_eq!(repo.find(&tenant_a(), id_b), None);
    assert_eq!(repo.find(&tenant_b(), id_a), None);
    assert_eq!(repo.for_tenant(&tenant_a()).len(), 1);
    assert_eq!(repo.for_tenant(&tenant_b()).len(), 1);
    assert!(!repo.delete(&tenant_a(), id_b));
    assert_eq!(repo.find(&tenant_b(), id_b).unwrap().name, "Bob");
}

#[test]
fn repo_create_same_key_replaces() {
    let mut repo = InMemoryRepository::<Customer>::new();
    let id = new_id();
    repo.create(&tenant_a(), id, cust("Alice", "a@x.com"));
    repo.create(&tenant_a(), id, cust("Alicia", "a@x.com"));
    assert_eq!(repo.count(&tenant_a()), 1);
    assert_eq!(repo.find(&tenant_a(), id).unwrap().name, "Alicia");
}

#[test]
fn in_memory_pool_tables() {
    let mut pool = InMemoryPool::new();
    assert_eq!(pool.table_count("users"), 0);
    assert!(pool.table_rows("users").is_empty());
    pool.create_table("users");
    assert_eq!(pool.table_count("users"), 0);
    pool.insert_row("users", vec![("name".to_string(), JsonValue::Str("Ann".to_string()))]);
    pool.insert_row("users", vec![("name".to_string(), JsonValue::Str("Bo".to_string()))]);
    pool.insert_row("orders", vec![]);
    assert_eq!(pool.table_count("users"), 2);
    assert_eq!(pool.table_count("orders"), 1);
    let rows = pool.table_rows("users");
    assert!(matches!(&rows[1], JsonValue::Object(es) if es.len() == 1 && es[0].0 == "name" && matches!(&es[0].1, JsonValue::Str(s) if s == "Bo")));
    pool.create_table("users");
    assert_eq!(pool.table_count("users"), 2);
    pool.clear_table("users");
    assert_eq!(pool.table_count("users"), 0);
    assert_eq!(pool.table_count("orders"), 1);
    pool.clear_table("missing");
    assert_eq!(pool.table_count("missing"), 0);
}

#[test]
fn migration_failures_name_the_migration() {
    let e = migration_failed(&"create_users".to_string(), &DbError::QueryError("bad".to_string()));
    assert_eq!(e.message(), "Migration error: create_users: Query error: bad");
    let r = rollback_failed(&"create_users".to_string(), &DbError::NotFound);
    assert_eq!(r.message(), "Migration error: rollback create_users: Record not found");
}
