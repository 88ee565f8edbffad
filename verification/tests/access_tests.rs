use adapto::forms::json::{append_json, JsonNumber, JsonValue};
use adapto::runtime::access::{field_of, index_of, name_of};
use adapto::runtime::state::StateStore;

fn n(x: u64) -> JsonValue {
    JsonValue::Number(JsonNumber::PosInt(x))
}

fn s(x: &str) -> JsonValue {
    JsonValue::Str(x.to_string())
}

fn text(v: &JsonValue) -> String {
    let mut out = String::new();
    append_json(&mut out, v);
    out
}

#[test]
fn names_resolve_local_then_state_then_args() {
    let mut state = StateStore::new();
    state.set("count", n(1));
    let args = JsonValue::Object(vec![("count".to_string(), n(3)), ("name".to_string(), s("x"))]);
    assert_eq!(text(&name_of(Some(&n(7)), &state, &args, "count")), "7");
    assert_eq!(text(&name_of(None, &state, &args, "count")), "1");
    assert_eq!(text(&name_of(None, &state, &args, "name")), "\"x\"");
    assert_eq!(text(&name_of(None, &state, &args, "missing")), "null");
    assert_eq!(text(&name_of(None, &state, &JsonValue::Null, "missing")), "null");
}

#[test]
fn fields_and_indexes() {
    let obj = JsonValue::Object(vec![("a".to_string(), n(1))]);
    assert_eq!(text(&field_of(&obj, &"a".to_string())), "1");
    assert_eq!(text(&field_of(&obj, &"b".to_string())), "null");
    assert_eq!(text(&field_of(&n(4), &"a".to_string())), "null");
    let arr = JsonValue::Array(vec![s("p"), s("q")]);
    assert_eq!(text(&index_of(&arr, &n(1))), "\"q\"");
    assert_eq!(text(&index_of(&arr, &n(2))), "null");
    assert_eq!(text(&index_of(&arr, &JsonValue::Number(JsonNumber::NegInt(-1)))), "\"p\"");
    assert_eq!(text(&index_of(&obj, &s("a"))), "1");
    assert_eq!(text(&index_of(&obj, &n(0))), "null");
}
