use adapto::forms::json::{JsonNumber, JsonValue};
use adapto::runtime::context::{Ctx, PermissionSet};
use adapto::runtime::error::RuntimeError;
use adapto::runtime::ids::{RequestId, RouteId, SessionId, TenantId, UserId};
use adapto::runtime::resource::{ResourceFieldIR, ResourceIR, ResourceIndexIR, ResourceManager};

fn field(name: &str, ty: &str, required: bool, readonly: bool, default: Option<&str>, min: Option<usize>, max: Option<usize>) -> ResourceFieldIR {
    ResourceFieldIR {
        name: name.to_string(),
        ty: ty.to_string(),
        required,
        unique: false,
        searchable: false,
        readonly,
        default: default.map(|d| d.to_string()),
        min,
        max,
    }
}

fn customer(tenant_scoped: bool) -> ResourceManager {
    ResourceManager::new(ResourceIR {
        name: "Customer".to_string(),
        collection_name: "customers".to_string(),
        tenant_scoped,
        primary_key: "id".to_string(),
        fields: vec![
            field("id", "Uuid", false, true, None, None, None),
            field("name", "String", true, false, None, Some(1), Some(5)),
            field("active", "bool", false, false, Some("true"), None, None),
            field("visits", "i64", false, false, Some("0"), None, None),
        ],
        indexes: vec![ResourceIndexIR { field: "name".to_string(), unique: false }],
        permissions: vec![
            ("read".to_string(), "customers.read".to_string()),
            ("update".to_string(), "customers.write".to_string()),
            ("create".to_string(), "customers.write".to_string()),
        ],
    })
}

fn ctx(perms: &[&str], tenant: Option<u128>) -> Ctx {
    let mut p = PermissionSet::new();
    for x in perms {
        p.add(x);
    }
    Ctx {
        user_id: Some(UserId(5)),
        tenant_id: tenant.map(TenantId),
        request_id: RequestId(1),
        permissions: p,
        route: RouteId::from_str("/c"),
        session_id: SessionId::from_str("s"),
    }
}

fn entry(k: &str, v: JsonValue) -> (String, JsonValue) {
    (k.to_string(), v)
}

fn s(v: &str) -> JsonValue {
    JsonValue::Str(v.to_string())
}

#[test]
fn resource_manager_exposes_its_description() {
    let m = customer(true);
    assert_eq!(m.collection_name(), "customers");
    assert_eq!(m.resource_ir().name, "Customer");
}

#[test]
fn check_permission_uses_the_actions_permission() {
    let m = customer(true);
    assert!(m.check_permission("delete", &ctx(&[], None)).is_ok());
    assert!(m.check_permission("read", &ctx(&["customers.read"], None)).is_ok());
    match m.check_permission("read", &ctx(&[], None)) {
        Err(RuntimeError::PermissionDenied { permission, user_id }) => {
            assert_eq!(permission, "customers.read");
            assert_eq!(user_id, Some(UserId(5)));
        }
        other => panic!("unexpected {:?}", other),
    }
}

#[test]
fn validate_fields_reports_the_first_complaint() {
    let m = customer(false);
    let missing = vec![entry("active", JsonValue::Bool(true))];
    assert!(matches!(m.validate_fields(&missing, false), Err(RuntimeError::ValidationError(e)) if e == "field 'name' is required"));
    assert!(m.validate_fields(&missing, true).is_ok());
    let short = vec![entry("name", s(""))];
    assert!(matches!(m.validate_fields(&short, false), Err(RuntimeError::ValidationError(e)) if e == "field 'name' must be at least 1 characters"));
    let long = vec![entry("name", s("abcdef"))];
    assert!(matches!(m.validate_fields(&long, false), Err(RuntimeError::ValidationError(e)) if e == "field 'name' must be at most 5 characters"));
    let number = vec![entry("name", JsonValue::Number(JsonNumber::PosInt(7)))];
    assert!(m.validate_fields(&number, false).is_ok());
}

#[test]
fn check_readonly_names_the_key() {
    let m = customer(false);
    let data = vec![entry("name", s("Al")), entry("id", s("x"))];
    assert!(matches!(m.check_readonly(&data), Err(RuntimeError::ValidationError(e)) if e == "field 'id' is readonly"));
    assert!(m.check_readonly(&vec![entry("name", s("Al"))]).is_ok());
}

#[test]
fn scope_of_tenant_scoped_resource_needs_the_tenant() {
    let m = customer(true);
    assert_eq!(m.scope("read", &ctx(&["customers.read"], Some(9))).unwrap(), Some(TenantId(9)));
    assert!(matches!(m.scope("read", &ctx(&["customers.read"], None)), Err(RuntimeError::TenantRequired)));
    assert!(matches!(m.scope("read", &ctx(&[], Some(9))), Err(RuntimeError::PermissionDenied { .. })));
    let shared = customer(false);
    assert_eq!(shared.scope("delete", &ctx(&[], None)).unwrap(), None);
}

#[test]
fn prepare_update_checks_in_order() {
    let m = customer(true);
    let writer = ctx(&["customers.write"], Some(3));
    assert!(matches!(m.prepare_update(&ctx(&[], Some(3)), &vec![entry("id", s("x"))]), Err(RuntimeError::PermissionDenied { .. })));
    assert!(matches!(m.prepare_update(&writer, &vec![entry("id", s("x"))]), Err(RuntimeError::ValidationError(e)) if e == "field 'id' is readonly"));
    assert!(matches!(m.prepare_update(&writer, &vec![entry("name", s("toolong"))]), Err(RuntimeError::ValidationError(_))));
    assert_eq!(m.prepare_update(&writer, &vec![]).unwrap(), None);
    assert_eq!(m.prepare_update(&writer, &vec![entry("name", s("Bo"))]).unwrap(), Some(Some(TenantId(3))));
    assert!(matches!(m.prepare_update(&ctx(&["customers.write"], None), &vec![entry("name", s("Bo"))]), Err(RuntimeError::TenantRequired)));
}

#[test]
fn prepare_create_requires_fields() {
    let m = customer(false);
    let writer = ctx(&["customers.write"], None);
    assert!(matches!(m.prepare_create(&writer, &vec![]), Err(RuntimeError::ValidationError(e)) if e == "field 'name' is required"));
    assert!(m.prepare_create(&writer, &vec![entry("name", s("Al"))]).is_ok());
    assert!(matches!(m.prepare_create(&ctx(&[], None), &vec![]), Err(RuntimeError::PermissionDenied { .. })));
}

#[test]
fn missing_defaults_lists_absent_fields_with_defaults() {
    let m = customer(false);
    let d = m.missing_defaults(&vec![entry("name", s("Al")), entry("visits", JsonValue::Number(JsonNumber::PosInt(2)))]);
    assert_eq!(d, vec![("active".to_string(), "true".to_string(), "bool".to_string())]);
    let all = m.missing_defaults(&vec![]);
    assert_eq!(all.len(), 2);
    assert_eq!(all[1].0, "visits");
}

fn test_resource_ir() -> ResourceIR {
    ResourceIR {
        name: "Customer".to_string(),
        collection_name: "customers".to_string(),
        tenant_scoped: true,
        primary_key: "id".to_string(),
        fields: vec![
            field("id", "Uuid", false, true, None, None, None),
            field("name", "String", true, false, None, Some(1), Some(120)),
            field("email", "Email", true, false, None, None, None),
            field("status", "Enum", false, false, Some("active"), None, None),
        ],
        indexes: vec![
            ResourceIndexIR { field: "email".to_string(), unique: true },
            ResourceIndexIR { field: "name".to_string(), unique: false },
        ],
        permissions: vec![
            ("read".to_string(), "customers.read".to_string()),
            ("create".to_string(), "customers.create".to_string()),
            ("update".to_string(), "customers.update".to_string()),
            ("delete".to_string(), "customers.delete".to_string()),
        ],
    }
}

fn test_ctx(perms: &[&str]) -> Ctx {
    let mut c = ctx(perms, None);
    c.tenant_id = Some(TenantId::default());
    c
}

fn test_ctx_no_tenant(perms: &[&str]) -> Ctx {
    ctx(perms, None)
}

#[test]
fn create_missing_required_field() {
    let mgr = ResourceManager::new(test_resource_ir());
    let ctx = test_ctx(&["customers.create"]);
    let data = vec![entry("name", s("Test"))];
    let result = mgr.prepare_create(&ctx, &data);
    assert!(result.is_err());
    assert!(result.unwrap_err().message().contains("email"));
}

#[test]
fn create_field_too_long() {
    let mgr = ResourceManager::new(test_resource_ir());
    let ctx = test_ctx(&["customers.create"]);
    let data = vec![entry("name", s(&"x".repeat(200))), entry("email", s("test@test.com"))];
    let result = mgr.prepare_create(&ctx, &data);
    assert!(result.is_err());
    assert!(result.unwrap_err().message().contains("at most 120"));
}

#[test]
fn update_readonly_field_fails() {
    let mgr = ResourceManager::new(test_resource_ir());
    let ctx = test_ctx(&["customers.update"]);
    let data = vec![entry("id", s("new-id"))];
    let result = mgr.prepare_update(&ctx, &data);
    assert!(result.is_err());
    assert!(result.unwrap_err().message().contains("readonly"));
}

#[test]
fn permission_denied_on_read() {
    let mgr = ResourceManager::new(test_resource_ir());
    let ctx = test_ctx(&[]);
    let result = mgr.scope("read", &ctx);
    assert!(result.is_err());
    assert!(result.unwrap_err().message().contains("Permission denied"));
}

#[test]
fn permission_denied_on_create() {
    let mgr = ResourceManager::new(test_resource_ir());
    let ctx = test_ctx(&["customers.read"]);
    let data = vec![entry("name", s("Test")), entry("email", s("test@test.com"))];
    assert!(mgr.prepare_create(&ctx, &data).is_err());
}

#[test]
fn tenant_required_error() {
    let mgr = ResourceManager::new(test_resource_ir());
    let ctx = test_ctx_no_tenant(&["customers.read"]);
    let result = mgr.scope("read", &ctx);
    assert!(result.is_err());
    assert!(result.unwrap_err().message().contains("Tenant"));
}

#[test]
fn default_value_applied() {
    let mgr = ResourceManager::new(test_resource_ir());
    let data = vec![entry("name", s("Test")), entry("email", s("def@test.com"))];
    // `status` is left out and takes its default, "active".
    assert_eq!(
        mgr.missing_defaults(&data),
        vec![("status".to_string(), "active".to_string(), "Enum".to_string())]
    );
}
