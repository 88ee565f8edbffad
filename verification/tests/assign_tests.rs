use adapto::forms::json::{append_json, JsonNumber, JsonValue};
use adapto::runtime::assign::{collect_path, set_nested};
use adapto::runtime::syntax::Expr;

fn n(x: u64) -> JsonValue {
    JsonValue::Number(JsonNumber::PosInt(x))
}

fn text(v: &JsonValue) -> String {
    let mut out = String::new();
    append_json(&mut out, v);
    out
}

fn dot(e: Expr, f: &str) -> Expr {
    Expr::DotAccess(Box::new(e), f.to_string())
}

#[test]
fn dotted_paths_are_read_left_to_right() {
    let e = dot(dot(Expr::Ident("user".into()), "address"), "city");
    assert_eq!(collect_path(&e), Some(vec!["user".to_string(), "address".to_string(), "city".to_string()]));
    let bad = dot(Expr::IndexAccess(Box::new(Expr::Ident("a".into())), Box::new(Expr::Null)), "b");
    assert_eq!(collect_path(&bad), None);
}

#[test]
fn set_nested_replaces_and_creates() {
    let path = vec!["root".to_string(), "a".to_string(), "b".to_string()];
    let obj = JsonValue::Object(vec![("a".to_string(), JsonValue::Object(vec![("b".to_string(), n(1))])), ("z".to_string(), n(9))]);
    assert_eq!(text(&set_nested(obj, &path, 1, n(2))), "{\"a\":{\"b\":2},\"z\":9}");
    let empty = JsonValue::Object(vec![]);
    assert_eq!(text(&set_nested(empty, &path, 1, n(3))), "{\"a\":{\"b\":3}}");
}

#[test]
fn set_nested_leaves_non_objects() {
    let path = vec!["root".to_string(), "a".to_string(), "b".to_string()];
    assert_eq!(text(&set_nested(n(5), &path, 1, n(3))), "5");
    let obj = JsonValue::Object(vec![("a".to_string(), n(1))]);
    assert_eq!(text(&set_nested(obj, &path, 1, n(3))), "{\"a\":1}");
    assert_eq!(text(&set_nested(n(5), &path, 3, n(7))), "7");
}
