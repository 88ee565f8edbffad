use adapto::forms::json::{append_json, JsonNumber, JsonValue};
use adapto::runtime::config::AdaptoConfig;
use adapto::runtime::context::{Ctx, PermissionSet};
use adapto::runtime::error::RuntimeError;
use adapto::runtime::ids::{RequestId, RouteId, SessionId, TenantId, UserId};
use adapto::runtime::state::StateStore;

fn num(n: u64) -> JsonValue {
    JsonValue::Number(JsonNumber::PosInt(n))
}

fn text(v: Option<&JsonValue>) -> Option<String> {
    v.map(|v| {
        let mut s = String::new();
        append_json(&mut s, v);
        s
    })
}

fn make_ctx(user_id: Option<UserId>, tenant_id: Option<TenantId>, permissions: PermissionSet) -> Ctx {
    Ctx {
        user_id,
        tenant_id,
        request_id: RequestId::default(),
        permissions,
        route: RouteId::from_str("/test"),
        session_id: SessionId::from_str("sess_1"),
    }
}

#[test]
fn state_store_set_and_get() {
    let mut store = StateStore::new();
    store.set("count", num(42));
    assert_eq!(text(store.get("count")), Some("42".to_string()));
    assert!(store.get("missing").is_none());
}

#[test]
fn state_store_dirty_tracking() {
    let mut store = StateStore::new();
    store.set("a", num(1));
    store.set("b", num(2));
    assert!(store.is_dirty("a"));
    assert!(store.is_dirty("b"));
    assert!(!store.is_dirty("c"));
    assert_eq!(store.get_dirty().len(), 2);
}

#[test]
fn state_store_clear_dirty() {
    let mut store = StateStore::new();
    store.set("x", JsonValue::Str("hello".to_string()));
    assert!(store.is_dirty("x"));
    store.clear_dirty();
    assert!(!store.is_dirty("x"));
    assert!(store.get_dirty().is_empty());
    assert_eq!(text(store.get("x")), Some("\"hello\"".to_string()));
}

#[test]
fn state_store_merge() {
    let mut store = StateStore::new();
    store.set("existing", num(1));
    store.clear_dirty();
    let other = vec![("new_key".to_string(), num(99)), ("existing".to_string(), num(2))];
    store.merge(other);
    assert_eq!(text(store.get("new_key")), Some("99".to_string()));
    assert_eq!(text(store.get("existing")), Some("2".to_string()));
    assert!(store.is_dirty("new_key"));
    assert!(store.is_dirty("existing"));
}

#[test]
fn state_store_set_twice_keeps_one_key() {
    let mut store = StateStore::new();
    store.set("k", num(1));
    store.set("k", num(2));
    assert_eq!(store.keys().len(), 1);
    assert_eq!(store.get_dirty().len(), 1);
    assert_eq!(text(store.get("k")), Some("2".to_string()));
    assert_eq!(store.to_map().len(), 1);
}

#[test]
fn permission_set_add_and_has() {
    let mut perms = PermissionSet::new();
    perms.add("read");
    perms.add("write");
    assert!(perms.has("read"));
    assert!(perms.has("write"));
    assert!(!perms.has("delete"));
}

#[test]
fn permission_set_has_any() {
    let mut perms = PermissionSet::new();
    perms.add("read");
    assert!(perms.has_any(&["read", "write"]));
    assert!(!perms.has_any(&["delete", "admin"]));
}

#[test]
fn permission_set_has_all() {
    let mut perms = PermissionSet::new();
    perms.add("read");
    perms.add("write");
    assert!(perms.has_all(&["read", "write"]));
    assert!(!perms.has_all(&["read", "write", "admin"]));
}

#[test]
fn ctx_require_permission_ok() {
    let mut perms = PermissionSet::new();
    perms.add("admin");
    let ctx = make_ctx(Some(UserId::default()), None, perms);
    assert!(ctx.require("admin").is_ok());
}

#[test]
fn ctx_require_permission_denied() {
    let ctx = make_ctx(Some(UserId::default()), None, PermissionSet::new());
    let err = ctx.require("admin").unwrap_err();
    assert!(matches!(err, RuntimeError::PermissionDenied { .. }));
}

#[test]
fn ctx_require_auth_ok() {
    let uid = UserId::default();
    let ctx = make_ctx(Some(uid), None, PermissionSet::new());
    assert_eq!(*ctx.require_auth().unwrap(), uid);
}

#[test]
fn ctx_require_auth_unauthenticated() {
    let ctx = make_ctx(None, None, PermissionSet::new());
    assert!(matches!(ctx.require_auth(), Err(RuntimeError::Unauthenticated)));
}

#[test]
fn ctx_require_tenant_ok() {
    let tid = TenantId::default();
    let ctx = make_ctx(None, Some(tid), PermissionSet::new());
    assert_eq!(*ctx.require_tenant().unwrap(), tid);
}

#[test]
fn ctx_require_tenant_missing() {
    let ctx = make_ctx(None, None, PermissionSet::new());
    assert!(matches!(ctx.require_tenant(), Err(RuntimeError::TenantRequired)));
}

#[test]
fn config_default_values() {
    let config = AdaptoConfig::default();
    assert_eq!(config.app.name, "adapto_app");
    assert_eq!(config.app.env, "development");
    assert_eq!(config.server.host, "0.0.0.0");
    assert_eq!(config.server.port, 3000);
    assert!(config.security.csrf);
    assert!(config.security.secure_cookies);
    assert_eq!(config.security.content_security_policy, "strict");
    assert_eq!(config.live.websocket_path, "/_adapto/live");
    assert_eq!(config.live.max_sessions_per_user, 10);
    assert_eq!(config.live.event_rate_limit_per_second, 20);
    assert_eq!(config.tenant.mode, "required");
    assert_eq!(config.tenant.strategy, "subdomain");
    assert!(config.ai.default_model.is_none());
    assert!(config.ai.fallback_model.is_none());
}

#[test]
fn session_id_display() {
    let sid = SessionId::from_str("sess_abc");
    assert_eq!(sid.text(), "sess_abc");
}

#[test]
fn user_id_display() {
    let uid = UserId(0x550e8400_e29b_41d4_a716_446655440000);
    assert_eq!(uid.text(), "550e8400-e29b-41d4-a716-446655440000");
}

#[test]
fn tenant_id_display() {
    let tid = TenantId(0x6ba7b810_9dad_11d1_80b4_00c04fd430c8);
    assert_eq!(tid.text(), "6ba7b810-9dad-11d1-80b4-00c04fd430c8");
}

#[test]
fn request_id_default_generates_new_uuid() {
    let r1 = RequestId::default();
    let r2 = RequestId::default();
    assert_ne!(r1, r2, "Each default RequestId must be unique");
}

#[test]
fn random_ids_are_version_4_text() {
    let t = UserId::random().text();
    assert_eq!(t.len(), 36);
    assert_eq!(t.as_bytes()[14], b'4');
}

#[test]
fn permission_set_empty() {
    let perms = PermissionSet::new();
    assert!(!perms.has("anything"));
    assert!(!perms.has_any(&["a", "b"]));
    assert!(perms.has_all(&[]));
}

#[test]
fn permission_set_has_all_empty_list() {
    let mut perms = PermissionSet::new();
    perms.add("x");
    assert!(perms.has_all(&[]));
}

#[test]
fn permission_set_has_any_empty_list() {
    let mut perms = PermissionSet::new();
    perms.add("x");
    assert!(!perms.has_any(&[]));
}

#[test]
fn permission_set_duplicate_add() {
    let mut perms = PermissionSet::new();
    perms.add("read");
    perms.add("read");
    assert!(perms.has("read"));
}

#[test]
fn ctx_permission_denied_contains_user_id() {
    let uid = UserId::default();
    let ctx = make_ctx(Some(uid), None, PermissionSet::new());
    if let Err(RuntimeError::PermissionDenied { user_id, permission }) = ctx.require("admin") {
        assert_eq!(permission, "admin");
        assert_eq!(user_id, Some(uid));
    } else {
        panic!("Expected PermissionDenied");
    }
}

#[test]
fn ctx_permission_denied_without_user() {
    let ctx = make_ctx(None, None, PermissionSet::new());
    if let Err(RuntimeError::PermissionDenied { user_id, .. }) = ctx.require("admin") {
        assert!(user_id.is_none());
    } else {
        panic!("Expected PermissionDenied");
    }
}

#[test]
fn ctx_full_context() {
    let mut perms = PermissionSet::new();
    perms.add("customers.read");
    perms.add("customers.write");
    let ctx = make_ctx(Some(UserId::default()), Some(TenantId::default()), perms);
    assert!(ctx.require_auth().is_ok());
    assert!(ctx.require_tenant().is_ok());
    assert!(ctx.require("customers.read").is_ok());
    assert!(ctx.require("customers.write").is_ok());
    assert!(ctx.require("customers.delete").is_err());
}

#[test]
fn error_display_messages() {
    assert_eq!(RuntimeError::Unauthenticated.message(), "Unauthenticated");
    assert_eq!(RuntimeError::TenantRequired.message(), "Tenant required");
    assert_eq!(RuntimeError::RateLimitExceeded.message(), "Rate limit exceeded");
    assert_eq!(RuntimeError::SessionNotFound("s1".into()).message(), "Session not found: s1");
    assert_eq!(RuntimeError::UnknownHandler("foo".into()).message(), "Unknown handler: foo");
    assert_eq!(RuntimeError::ValidationError("bad".into()).message(), "Validation error: bad");
    assert_eq!(RuntimeError::Internal("oops".into()).message(), "Internal error: oops");
    let err = RuntimeError::PermissionDenied { permission: "admin".into(), user_id: None };
    assert_eq!(err.message(), "Permission denied: admin");
}

#[test]
fn ctx_require_permission_success() {
    let mut perms = PermissionSet::new();
    perms.add("users:read");
    let ctx = make_ctx(Some(UserId::default()), None, perms);
    assert!(ctx.require("users:read").is_ok());
}

#[test]
fn ctx_require_auth_success() {
    let uid = UserId::default();
    let ctx = make_ctx(Some(uid), None, PermissionSet::new());
    let result = ctx.require_auth().unwrap();
    assert_eq!(result, &uid);
}

#[test]
fn ctx_require_auth_failure() {
    let ctx = make_ctx(None, None, PermissionSet::new());
    let err = ctx.require_auth().unwrap_err();
    assert!(matches!(err, RuntimeError::Unauthenticated));
}

#[test]
fn ctx_require_tenant_success() {
    let tid = TenantId::default();
    let ctx = make_ctx(None, Some(tid), PermissionSet::new());
    let result = ctx.require_tenant().unwrap();
    assert_eq!(result, &tid);
}

#[test]
fn ctx_require_tenant_failure() {
    let ctx = make_ctx(None, None, PermissionSet::new());
    let err = ctx.require_tenant().unwrap_err();
    assert!(matches!(err, RuntimeError::TenantRequired));
}

#[test]
fn session_id_from_string() {
    let sid = SessionId::from_str(&"test".to_string());
    assert_eq!(sid.0, "test");
}

#[test]
fn route_id_from_str_and_string() {
    let r1 = RouteId::from_str("/users");
    let r2 = RouteId::from_str(&"/users".to_string());
    assert_eq!(r1, r2);
}

#[test]
fn component_id_from_str_and_string() {
    let c1 = adapto::runtime::ids::ComponentId::from_str("Counter");
    let c2 = adapto::runtime::ids::ComponentId::from_str(&"Counter".to_string());
    assert_eq!(c1, c2);
    assert_eq!(c1.text(), "Counter");
}

#[test]
fn user_id_from_uuid() {
    let uuid = uuid::Uuid::new_v4().as_u128();
    let uid = UserId(uuid);
    assert_eq!(uid.0, uuid);
}

#[test]
fn tenant_id_from_uuid() {
    let uuid = uuid::Uuid::new_v4().as_u128();
    let tid = TenantId(uuid);
    assert_eq!(tid.0, uuid);
}

#[test]
fn session_id_equality() {
    let a = SessionId::from_str("s1");
    let b = SessionId::from_str("s1");
    let c = SessionId::from_str("s2");
    assert_eq!(a, b);
    assert_ne!(a, c);
}

#[test]
fn type_ids_usable_as_hash_keys() {
    let mut set = std::collections::HashSet::new();
    set.insert(SessionId::from_str("a"));
    set.insert(SessionId::from_str("b"));
    set.insert(SessionId::from_str("a"));
    assert_eq!(set.len(), 2);
}

#[test]
fn state_store_overwrite_marks_dirty() {
    let mut store = StateStore::new();
    store.set("x", num(1));
    store.clear_dirty();
    store.set("x", num(2));
    assert!(store.is_dirty("x"));
    assert_eq!(text(store.get("x")), Some("2".to_string()));
}

#[test]
fn state_store_keys() {
    let mut store = StateStore::new();
    store.set("a", num(1));
    store.set("b", num(2));
    let mut keys = store.keys();
    keys.sort();
    assert_eq!(keys.len(), 2);
}

#[test]
fn state_store_to_map() {
    let mut store = StateStore::new();
    store.set("k", JsonValue::Str("v".to_string()));
    let map = store.to_map();
    let v = map.iter().find(|(k, _)| k == "k").map(|(_, v)| v);
    assert_eq!(text(v), Some("\"v\"".to_string()));
}

#[test]
fn state_store_merge_empty() {
    let mut store = StateStore::new();
    store.set("existing", num(1));
    store.clear_dirty();
    store.merge(Vec::new());
    assert!(store.get_dirty().is_empty());
    assert_eq!(text(store.get("existing")), Some("1".to_string()));
}

#[test]
fn state_store_complex_json() {
    let mut store = StateStore::new();
    store.set(
        "user",
        JsonValue::Object(vec![
            ("name".to_string(), JsonValue::Str("Alice".to_string())),
            (
                "roles".to_string(),
                JsonValue::Array(vec![JsonValue::Str("admin".to_string()), JsonValue::Str("user".to_string())]),
            ),
            ("meta".to_string(), JsonValue::Object(vec![("active".to_string(), JsonValue::Bool(true))])),
        ]),
    );
    let val = store.get("user").unwrap();
    match val {
        JsonValue::Object(es) => {
            assert!(matches!(&es[0], (k, JsonValue::Str(s)) if k == "name" && s == "Alice"));
            assert!(matches!(&es[1].1, JsonValue::Array(items) if matches!(&items[0], JsonValue::Str(s) if s == "admin")));
            assert!(matches!(&es[2].1, JsonValue::Object(m) if matches!(&m[0].1, JsonValue::Bool(true))));
        }
        other => panic!("expected an object, got {:?}", other),
    }
}

#[test]
fn random_ids_are_version_four() {
    for _ in 0..20 {
        for t in [UserId::random().text(), TenantId::random().text(), RequestId::random().text()] {
            let cs: Vec<char> = t.chars().collect();
            assert_eq!(cs[14], '4');
            assert!("89ab".contains(cs[19]), "{}", t);
        }
    }
}
