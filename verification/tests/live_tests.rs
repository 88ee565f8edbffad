use adapto::forms::json::{JsonNumber, JsonValue};
use adapto::live::error::LiveError;
use adapto::live::event::validate_event;
use adapto::live::manager::SessionManager;
use adapto::live::event::{extract_action_args, validate_client_event, validate_form_event, ClientEvent, FormSubmitEvent};
use adapto::live::patch::{eval_expr, DynamicSegment, PatchGenerator, PatchOp, SegmentType};
use adapto::live::session::now_nanos;
use adapto::live::session::{ActionIR, EventRoute, LiveSession};
use adapto::runtime::context::PermissionSet;
use adapto::runtime::ids::{RouteId, SessionId, TenantId, UserId};
use adapto::runtime::state::StateStore;

#[test]
fn live_error_messages() {
    assert_eq!(LiveError::SessionNotFound("s".into()).message(), "Session not found: s");
    assert_eq!(LiveError::SessionExpired.message(), "Session expired");
    assert_eq!(LiveError::MaxSessionsExceeded.message(), "Max sessions exceeded for user");
    assert_eq!(LiveError::InvalidEvent("x".into()).message(), "Invalid event: x");
}

#[test]
fn validate_event_rejects_empty_names() {
    assert!(matches!(validate_event("", "h"), Err(LiveError::InvalidEvent(m)) if m == "empty session"));
    assert!(matches!(validate_event("s", ""), Err(LiveError::InvalidEvent(m)) if m == "empty handler"));
    assert!(validate_event("s", "h").is_ok());
}

#[test]
fn eval_expr_follows_dotted_paths() {
    let mut state = StateStore::new();
    state.set(
        "customer",
        JsonValue::Object(vec![
            ("name".to_string(), JsonValue::Str("Ann".to_string())),
            ("age".to_string(), JsonValue::Number(JsonNumber::PosInt(30))),
            ("note".to_string(), JsonValue::Null),
        ]),
    );
    state.set("count", JsonValue::Number(JsonNumber::PosInt(7)));
    assert_eq!(eval_expr("customer.name", &state), "Ann");
    assert_eq!(eval_expr("state.customer.name", &state), "Ann");
    assert_eq!(eval_expr("customer.age", &state), "30");
    assert_eq!(eval_expr("customer.note", &state), "");
    assert_eq!(eval_expr("customer.missing", &state), "");
    assert_eq!(eval_expr("count", &state), "7");
    assert_eq!(eval_expr("count.x", &state), "");
    assert_eq!(eval_expr("nothing", &state), "");
    assert_eq!(eval_expr("customer", &state), "{\"name\":\"Ann\",\"age\":30,\"note\":null}");
}

fn segment(id: &str, expr: &str, segment_type: SegmentType) -> DynamicSegment {
    let dep = expr.trim_start_matches("state.").split('.').next().unwrap_or("").to_string();
    DynamicSegment { id: id.to_string(), expr: expr.to_string(), deps: vec![dep], segment_type }
}

fn segments() -> Vec<DynamicSegment> {
    vec![
        segment("s1", "count", SegmentType::Text),
        segment("s2", "state.title", SegmentType::Html),
        segment(
            "s3",
            "count",
            SegmentType::Attribute { element_id: "e1".to_string(), attr_name: "data-n".to_string() },
        ),
        segment("s4", "count", SegmentType::Loop),
    ]
}

fn session(id: &str, user: Option<u128>, at: i128) -> LiveSession {
    let actions = vec![
        ActionIR { name: "inc".to_string(), permission: None, body: "count += 1".to_string() },
        ActionIR { name: "wipe".to_string(), permission: Some("admin".to_string()), body: "count = 0".to_string() },
    ];
    LiveSession::new_at(
        SessionId::from_str(id),
        user.map(UserId),
        None,
        RouteId::from_str("/"),
        actions,
        segments(),
        PermissionSet::new(),
        at,
    )
}

#[test]
fn generate_is_empty_without_dirty_state() {
    let state = StateStore::new();
    let ops = PatchGenerator::generate(&state, &vec!["s1".to_string()], &segments());
    assert!(ops.is_empty());
}

#[test]
fn generate_patches_affected_segments_in_order() {
    let mut state = StateStore::new();
    state.set("count", JsonValue::Number(JsonNumber::PosInt(3)));
    state.set("title", JsonValue::Str("<b>hi</b>".to_string()));
    let affected = vec!["s4".to_string(), "s1".to_string(), "s3".to_string(), "s2".to_string()];
    let ops = PatchGenerator::generate(&state, &affected, &segments());
    assert_eq!(ops.len(), 4);
    assert!(matches!(&ops[0], PatchOp::ReplaceText { target, value } if target == "s1" && value == "3"));
    assert!(matches!(&ops[1], PatchOp::ReplaceHtml { target, html } if target == "s2" && html == "<b>hi</b>"));
    assert!(
        matches!(&ops[2], PatchOp::SetAttr { target, name, value } if target == "e1" && name == "data-n" && value == "3")
    );
    assert!(matches!(&ops[3], PatchOp::ReplaceHtml { target, html } if target == "s4" && html == "3"));
    let only = PatchGenerator::generate(&state, &vec!["s2".to_string()], &segments());
    assert_eq!(only.len(), 1);
}

#[test]
fn generate_patches_numbers_rounds_and_clears_dirty() {
    let mut s = session("a", Some(1), 0);
    s.state.set("count", JsonValue::Number(JsonNumber::PosInt(1)));
    let first = s.generate_patches(&vec!["s1".to_string()]);
    assert_eq!(first.seq, 1);
    assert_eq!(first.ops.len(), 1);
    assert!(s.state.get_dirty().is_empty());
    let second = s.generate_patches(&vec!["s1".to_string()]);
    assert_eq!(second.seq, 2);
    assert!(second.ops.is_empty());
}

#[test]
fn route_event_prefers_registered_then_actions() {
    let mut s = session("a", Some(1), 0);
    assert_eq!(s.route_event_at("inc", true, 5).unwrap(), EventRoute::Registered);
    assert_eq!(s.last_event_at, 5);
    assert_eq!(s.route_event_at("inc", false, 6).unwrap(), EventRoute::Action(0));
    assert!(matches!(s.route_event_at("wipe", false, 7), Err(LiveError::PermissionDenied(m)) if m == "Permission denied: admin"));
    assert!(matches!(s.route_event_at("nope", false, 8), Err(LiveError::UnknownHandler(h)) if h == "nope"));
    s.permissions.add("admin");
    assert_eq!(s.route_event_at("wipe", false, 9).unwrap(), EventRoute::Action(1));
}

#[test]
fn session_expiry_by_elapsed_time() {
    let s = session("a", None, 1_000);
    assert!(!s.is_expired_at(1_500, 500));
    assert!(s.is_expired_at(1_501, 500));
    assert!(s.is_expired_at(999, 500));
}

#[test]
fn session_manager_limits_sessions_per_user() {
    let mut m = SessionManager::new(2);
    assert!(m.add(session("a", Some(7), 0)).is_ok());
    assert!(m.add(session("b", Some(7), 0)).is_ok());
    assert!(matches!(m.add(session("c", Some(7), 0)), Err(LiveError::MaxSessionsExceeded)));
    assert!(m.add(session("d", Some(8), 0)).is_ok());
    assert!(m.add(session("e", None, 0)).is_ok());
    assert_eq!(m.count(), 4);
    assert_eq!(m.count_for_user(&UserId(7)), 2);
    assert!(m.has(&SessionId::from_str("a")));
    assert!(!m.has(&SessionId::from_str("c")));
    let gone = m.remove(&SessionId::from_str("a")).unwrap();
    assert_eq!(gone.id.0, "a");
    assert!(m.remove(&SessionId::from_str("a")).is_none());
    assert!(matches!(m.take(&SessionId::from_str("zz")), Err(LiveError::SessionNotFound(id)) if id == "zz"));
    assert_eq!(m.count_for_user(&UserId(7)), 1);
}

#[test]
fn session_manager_cleans_up_expired_sessions() {
    let mut m = SessionManager::new(5);
    m.put(session("old", Some(1), 0));
    m.put(session("new", Some(1), 900));
    assert_eq!(m.cleanup_expired_at(1_000, 500), 1);
    assert_eq!(m.count(), 1);
    assert!(m.has(&SessionId::from_str("new")));
    m.put(session("new", Some(2), 1_000));
    assert_eq!(m.count(), 1);
    assert_eq!(m.count_for_user(&UserId(2)), 1);
}

// The component of the sessions below: a counter and a label, each shown
// in one text segment.

fn text_segment(id: &str, expr: &str, dep: &str) -> DynamicSegment {
    DynamicSegment {
        id: id.to_string(),
        expr: expr.to_string(),
        deps: vec![dep.to_string()],
        segment_type: SegmentType::Text,
    }
}

fn make_segments() -> Vec<DynamicSegment> {
    vec![text_segment("dyn_0", "counter", "counter"), text_segment("dyn_1", "label", "label")]
}

/// What the component's dependency graph answers: the segments that depend
/// on one of the dirty names.
fn affected_by(segments: &[DynamicSegment], dirty: &[String]) -> Vec<String> {
    segments
        .iter()
        .filter(|s| s.deps.iter().any(|d| dirty.contains(d)))
        .map(|s| s.id.clone())
        .collect()
}

fn affected_now(state: &StateStore, segments: &[DynamicSegment]) -> Vec<String> {
    affected_by(segments, &state.get_dirty())
}

fn make_permissions() -> PermissionSet {
    let mut p = PermissionSet::new();
    p.add("read");
    p.add("write");
    p
}

fn make_session() -> LiveSession {
    LiveSession::new(
        SessionId::from_str("sess_1"),
        Some(UserId::default()),
        Some(TenantId::default()),
        RouteId::from_str("/dashboard"),
        vec![],
        make_segments(),
        make_permissions(),
    )
}

fn plain_session(id: &str, user: Option<UserId>, route: &str) -> LiveSession {
    LiveSession::new(
        SessionId::from_str(id),
        user,
        None,
        RouteId::from_str(route),
        vec![],
        make_segments(),
        PermissionSet::new(),
    )
}

fn make_client_event(handler: &str) -> ClientEvent {
    ClientEvent {
        session: "sess_1".to_string(),
        component: "test_component".to_string(),
        event: "click".to_string(),
        handler: handler.to_string(),
        payload: vec![],
        seq: 1,
    }
}

fn make_form_event(handler: &str) -> FormSubmitEvent {
    FormSubmitEvent {
        session: "sess_1".to_string(),
        component: "test_component".to_string(),
        handler: handler.to_string(),
        form: vec![("name".to_string(), JsonValue::Str("Alice".to_string()))],
        seq: 1,
    }
}

/// The registered `increment` handler: adds one to `counter`.
fn increment(state: &mut StateStore) {
    let current = match state.get("counter") {
        Some(JsonValue::Number(JsonNumber::PosInt(n))) => *n,
        _ => 0,
    };
    state.set("counter", JsonValue::Number(JsonNumber::PosInt(current + 1)));
}

/// Handles a click on `session` whose handler `increment` is registered:
/// the event is routed, the handler runs, and the round's patches come back.
fn handle_increment(session: &mut LiveSession, event: &ClientEvent) -> Result<adapto::live::patch::PatchMessage, LiveError> {
    let route = session.route_event(&event.handler, event.handler == "increment")?;
    assert_eq!(route, EventRoute::Registered);
    increment(&mut session.state);
    let affected = affected_now(&session.state, &session.dynamic_segments);
    Ok(session.generate_patches(&affected))
}

#[test]
fn test_session_creation() {
    let session = make_session();
    assert_eq!(session.id, SessionId::from_str("sess_1"));
    assert_eq!(session.route, RouteId::from_str("/dashboard"));
    assert_eq!(session.seq, 0);
    assert!(session.user_id.is_some());
    assert!(session.tenant_id.is_some());
}

#[test]
fn test_handle_event_with_registered_handler() {
    let mut session = make_session();
    session.state.set("counter", JsonValue::Number(JsonNumber::PosInt(0)));
    session.state.clear_dirty();
    let event = make_client_event("increment");
    let patch = handle_increment(&mut session, &event).unwrap();
    assert!(!patch.ops.is_empty());
    assert_eq!(patch.seq, 1);
}

#[test]
fn test_handle_event_unknown_handler() {
    let mut session = make_session();
    let event = make_client_event("nonexistent");
    match session.route_event(&event.handler, false).unwrap_err() {
        LiveError::UnknownHandler(name) => assert_eq!(name, "nonexistent"),
        other => panic!("Expected UnknownHandler, got: {:?}", other),
    }
}

#[test]
fn test_generate_patches_dirty_state() {
    let mut session = make_session();
    session.state.set("counter", JsonValue::Number(JsonNumber::PosInt(42)));
    let affected = affected_now(&session.state, &session.dynamic_segments);
    let patch = session.generate_patches(&affected);
    assert!(!patch.ops.is_empty());
    assert!(session.state.get_dirty().is_empty());
}

#[test]
fn test_generate_patches_clean_state() {
    let mut session = make_session();
    let affected = affected_now(&session.state, &session.dynamic_segments);
    let patch = session.generate_patches(&affected);
    assert!(patch.ops.is_empty());
}

#[test]
fn test_session_ctx() {
    let session = make_session();
    let ctx = session.ctx();
    assert!(ctx.user_id.is_some());
    assert!(ctx.tenant_id.is_some());
    assert_eq!(ctx.route, RouteId::from_str("/dashboard"));
    assert_eq!(ctx.session_id, SessionId::from_str("sess_1"));
    assert!(ctx.permissions.has("read"));
    assert!(ctx.permissions.has("write"));
}

#[test]
fn test_session_is_expired() {
    let mut session = make_session();
    assert!(!session.is_expired(60 * 1_000_000_000));
    session.last_event_at = now_nanos() - 120 * 1_000_000_000;
    assert!(session.is_expired(60 * 1_000_000_000));
}

#[test]
fn test_session_touch_via_handle_event() {
    let mut session = make_session();
    session.state.set("counter", JsonValue::Number(JsonNumber::PosInt(0)));
    session.state.clear_dirty();
    session.last_event_at = now_nanos() - 300 * 1_000_000_000;
    let event = make_client_event("increment");
    handle_increment(&mut session, &event).unwrap();
    let elapsed = now_nanos() - session.last_event_at;
    assert!(elapsed < 2 * 1_000_000_000, "Expected touch to refresh timestamp");
}

#[test]
fn test_validate_event_empty_session() {
    let event = ClientEvent {
        session: String::new(),
        component: "c".to_string(),
        event: "click".to_string(),
        handler: "h".to_string(),
        payload: vec![],
        seq: 1,
    };
    match validate_client_event(&event).unwrap_err() {
        LiveError::InvalidEvent(msg) => assert_eq!(msg, "empty session"),
        other => panic!("Expected InvalidEvent, got: {:?}", other),
    }
}

#[test]
fn test_validate_event_empty_handler() {
    let event = ClientEvent {
        session: "sess_1".to_string(),
        component: "c".to_string(),
        event: "click".to_string(),
        handler: String::new(),
        payload: vec![],
        seq: 1,
    };
    match validate_client_event(&event).unwrap_err() {
        LiveError::InvalidEvent(msg) => assert_eq!(msg, "empty handler"),
        other => panic!("Expected InvalidEvent, got: {:?}", other),
    }
}

#[test]
fn test_validate_form_event_valid() {
    let event = make_form_event("submit");
    assert!(validate_form_event(&event).is_ok());
}

#[test]
fn test_validate_form_event_empty_session() {
    let event = FormSubmitEvent {
        session: String::new(),
        component: "c".to_string(),
        handler: "submit".to_string(),
        form: vec![],
        seq: 1,
    };
    match validate_form_event(&event).unwrap_err() {
        LiveError::InvalidEvent(msg) => assert_eq!(msg, "empty session"),
        other => panic!("Expected InvalidEvent, got: {:?}", other),
    }
}

#[test]
fn test_validate_form_event_empty_handler() {
    let event = FormSubmitEvent {
        session: "sess_1".to_string(),
        component: "c".to_string(),
        handler: String::new(),
        form: vec![],
        seq: 1,
    };
    match validate_form_event(&event).unwrap_err() {
        LiveError::InvalidEvent(msg) => assert_eq!(msg, "empty handler"),
        other => panic!("Expected InvalidEvent, got: {:?}", other),
    }
}

#[test]
fn test_patch_generator_dirty_text() {
    let mut state = StateStore::new();
    state.set("counter", JsonValue::Number(JsonNumber::PosInt(7)));
    let segments = vec![text_segment("dyn_0", "counter", "counter")];
    let ops = PatchGenerator::generate(&state, &affected_now(&state, &make_segments()), &segments);
    assert_eq!(ops.len(), 1);
    match &ops[0] {
        PatchOp::ReplaceText { target, value } => {
            assert_eq!(target, "dyn_0");
            assert_eq!(value, "7");
        }
        other => panic!("Expected ReplaceText, got: {:?}", other),
    }
}

#[test]
fn test_patch_generator_no_patches_when_clean() {
    let state = StateStore::new();
    let segments = vec![text_segment("dyn_0", "counter", "counter")];
    let ops = PatchGenerator::generate(&state, &affected_now(&state, &make_segments()), &segments);
    assert!(ops.is_empty());
}

#[test]
fn test_patch_generator_multiple_dirty_fields() {
    let mut state = StateStore::new();
    state.set("counter", JsonValue::Number(JsonNumber::PosInt(10)));
    state.set("label", JsonValue::Str("hello".to_string()));
    let segments = make_segments();
    let ops = PatchGenerator::generate(&state, &affected_now(&state, &segments), &segments);
    assert_eq!(ops.len(), 2);
}

#[test]
fn test_patch_generator_eval_simple() {
    let mut state = StateStore::new();
    state.set("name", JsonValue::Str("Alice".to_string()));
    let segments = vec![text_segment("dyn_name", "name", "name")];
    let ops = PatchGenerator::generate(&state, &affected_now(&state, &segments), &segments);
    assert_eq!(ops.len(), 1);
    match &ops[0] {
        PatchOp::ReplaceText { value, .. } => assert_eq!(value, "Alice"),
        other => panic!("Expected ReplaceText, got: {:?}", other),
    }
}

#[test]
fn test_patch_generator_eval_dotted_path() {
    let mut state = StateStore::new();
    state.set(
        "customer",
        JsonValue::Object(vec![
            ("name".to_string(), JsonValue::Str("Bob".to_string())),
            ("age".to_string(), JsonValue::Number(JsonNumber::PosInt(30))),
        ]),
    );
    let segments = vec![text_segment("dyn_cname", "customer.name", "customer")];
    let ops = PatchGenerator::generate(&state, &affected_now(&state, &segments), &segments);
    assert_eq!(ops.len(), 1);
    match &ops[0] {
        PatchOp::ReplaceText { value, .. } => assert_eq!(value, "Bob"),
        other => panic!("Expected ReplaceText, got: {:?}", other),
    }
}

#[test]
fn test_manager_add_and_count() {
    let mut manager = SessionManager::new(10);
    assert_eq!(manager.count(), 0);
    manager.add(make_session()).unwrap();
    assert_eq!(manager.count(), 1);
}

#[test]
fn test_manager_with_session() {
    let mut manager = SessionManager::new(10);
    let session = make_session();
    let sid = session.id.clone();
    manager.add(session).unwrap();
    let s = manager.take(&sid).unwrap();
    let route = s.route.clone();
    manager.put(s);
    assert_eq!(route, RouteId::from_str("/dashboard"));
    assert!(manager.has(&sid));
}

#[test]
fn test_manager_remove() {
    let mut manager = SessionManager::new(10);
    let session = make_session();
    let sid = session.id.clone();
    manager.add(session).unwrap();
    assert_eq!(manager.count(), 1);
    let removed = manager.remove(&sid);
    assert!(removed.is_some());
    assert_eq!(manager.count(), 0);
}

#[test]
fn test_manager_has() {
    let mut manager = SessionManager::new(10);
    let session = make_session();
    let sid = session.id.clone();
    assert!(!manager.has(&sid));
    manager.add(session).unwrap();
    assert!(manager.has(&sid));
}

#[test]
fn test_manager_count_for_user() {
    let mut manager = SessionManager::new(10);
    let user_id = UserId::default();
    manager.add(plain_session("s1", Some(user_id), "/a")).unwrap();
    manager.add(plain_session("s2", Some(user_id), "/b")).unwrap();
    manager.add(plain_session("s3", Some(UserId::default()), "/c")).unwrap();
    assert_eq!(manager.count_for_user(&user_id), 2);
    assert_eq!(manager.count(), 3);
}

#[test]
fn test_manager_max_sessions_exceeded() {
    let user_id = UserId::default();
    let mut manager = SessionManager::new(1);
    manager.add(plain_session("s1", Some(user_id), "/a")).unwrap();
    match manager.add(plain_session("s2", Some(user_id), "/b")).unwrap_err() {
        LiveError::MaxSessionsExceeded => {}
        other => panic!("Expected MaxSessionsExceeded, got: {:?}", other),
    }
}

#[test]
fn test_manager_cleanup_expired() {
    let mut manager = SessionManager::new(10);
    let mut s1 = plain_session("s_old", None, "/old");
    s1.last_event_at = now_nanos() - 600 * 1_000_000_000;
    let s2 = plain_session("s_new", None, "/new");
    manager.add(s1).unwrap();
    manager.add(s2).unwrap();
    assert_eq!(manager.count(), 2);
    let removed = manager.cleanup_expired(300 * 1_000_000_000);
    assert_eq!(removed, 1);
    assert_eq!(manager.count(), 1);
    assert!(manager.has(&SessionId::from_str("s_new")));
    assert!(!manager.has(&SessionId::from_str("s_old")));
}

#[test]
fn test_manager_anonymous_sessions_bypass_limit() {
    let mut manager = SessionManager::new(1);
    manager.add(plain_session("anon_1", None, "/a")).unwrap();
    manager.add(plain_session("anon_2", None, "/b")).unwrap();
    assert_eq!(manager.count(), 2);
}

#[test]
fn test_manager_count_for_unknown_user() {
    let mut manager = SessionManager::new(10);
    manager.add(make_session()).unwrap();
    let unknown = UserId::random();
    assert_eq!(manager.count_for_user(&unknown), 0);
}

#[test]
fn test_manager_remove_nonexistent() {
    let mut manager = SessionManager::new(10);
    assert!(manager.remove(&SessionId::from_str("ghost")).is_none());
}

#[test]
fn test_manager_cleanup_none_expired() {
    let mut manager = SessionManager::new(10);
    manager.add(make_session()).unwrap();
    let removed = manager.cleanup_expired(3600 * 1_000_000_000);
    assert_eq!(removed, 0);
    assert_eq!(manager.count(), 1);
}

#[test]
fn test_validate_client_event_valid() {
    let event = make_client_event("do_stuff");
    assert!(validate_client_event(&event).is_ok());
}

#[test]
fn test_validate_event_empty_component_passes() {
    let event = ClientEvent {
        session: "s".to_string(),
        component: String::new(),
        event: "click".to_string(),
        handler: "h".to_string(),
        payload: vec![],
        seq: 1,
    };
    assert!(validate_client_event(&event).is_ok());
}

#[test]
fn test_extract_action_args_empty() {
    let event = make_client_event("handler");
    let args = extract_action_args(&event);
    assert!(matches!(args, JsonValue::Object(es) if es.is_empty()));
}

#[test]
fn test_extract_action_args_with_fields() {
    let mut event = make_client_event("handler");
    event.payload.push(("idx".to_string(), JsonValue::Number(JsonNumber::PosInt(5))));
    event.payload.push(("name".to_string(), JsonValue::Str("Alice".to_string())));
    let args = extract_action_args(&event);
    match args {
        JsonValue::Object(es) => {
            assert_eq!(es.len(), 2);
            assert!(es.iter().any(|(k, v)| k == "idx" && matches!(v, JsonValue::Number(JsonNumber::PosInt(5)))));
            assert!(es.iter().any(|(k, v)| k == "name" && matches!(v, JsonValue::Str(s) if s == "Alice")));
        }
        other => panic!("Expected an object, got: {:?}", other),
    }
}

#[test]
fn test_patch_generator_attribute_segment() {
    let mut state = StateStore::new();
    state.set("color", JsonValue::Str("red".to_string()));
    let segments = vec![DynamicSegment {
        id: "dyn_attr".to_string(),
        expr: "color".to_string(),
        deps: vec!["color".to_string()],
        segment_type: SegmentType::Attribute { element_id: "el_1".to_string(), attr_name: "style".to_string() },
    }];
    let ops = PatchGenerator::generate(&state, &affected_now(&state, &segments), &segments);
    assert_eq!(ops.len(), 1);
    match &ops[0] {
        PatchOp::SetAttr { target, name, value } => {
            assert_eq!(target, "el_1");
            assert_eq!(name, "style");
            assert_eq!(value, "red");
        }
        other => panic!("Expected SetAttr, got: {:?}", other),
    }
}

#[test]
fn test_patch_generator_html_segment() {
    let mut state = StateStore::new();
    state.set("content", JsonValue::Str("<b>bold</b>".to_string()));
    let segments = vec![DynamicSegment {
        id: "dyn_html".to_string(),
        expr: "content".to_string(),
        deps: vec!["content".to_string()],
        segment_type: SegmentType::Html,
    }];
    let ops = PatchGenerator::generate(&state, &affected_now(&state, &segments), &segments);
    assert_eq!(ops.len(), 1);
    match &ops[0] {
        PatchOp::ReplaceHtml { target, html } => {
            assert_eq!(target, "dyn_html");
            assert_eq!(html, "<b>bold</b>");
        }
        other => panic!("Expected ReplaceHtml, got: {:?}", other),
    }
}

#[test]
fn test_validate_form_event_empty_component_passes() {
    let event = FormSubmitEvent {
        session: "s".to_string(),
        component: String::new(),
        handler: "submit".to_string(),
        form: vec![],
        seq: 1,
    };
    assert!(validate_form_event(&event).is_ok());
}
