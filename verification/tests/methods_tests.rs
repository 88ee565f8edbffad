use adapto::forms::json::{append_json, JsonNumber, JsonValue};
use adapto::runtime::error::RuntimeError;
use adapto::runtime::methods::{call_method, MethodResult};

fn s(x: &str) -> JsonValue {
    JsonValue::Str(x.to_string())
}

fn n(x: u64) -> JsonValue {
    JsonValue::Number(JsonNumber::PosInt(x))
}

fn json_text(v: &JsonValue) -> String {
    let mut out = String::new();
    append_json(&mut out, v);
    out
}

fn value_of(obj: &JsonValue, method: &str, args: Vec<JsonValue>) -> String {
    match call_method(obj, method, &args) {
        Ok(MethodResult::Value(v)) => json_text(&v),
        Ok(MethodResult::AbsOf(_)) => panic!("expected a value"),
        Err(e) => panic!("unexpected error: {}", e.message()),
    }
}

fn error_of(obj: &JsonValue, method: &str) -> String {
    match call_method(obj, method, &Vec::new()) {
        Err(RuntimeError::Internal(m)) => m,
        _ => panic!("expected an internal error"),
    }
}

#[test]
fn string_methods() {
    let hello = s("Hello World");
    assert_eq!(value_of(&hello, "to_lowercase", vec![]), "\"hello world\"");
    assert_eq!(value_of(&hello, "contains", vec![s("World")]), "true");
}

#[test]
fn array_methods() {
    let arr = JsonValue::Array(vec![n(1), n(2), n(3)]);
    assert_eq!(value_of(&arr, "len", vec![]), "3");
    assert_eq!(value_of(&arr, "is_empty", vec![]), "false");
}

#[test]
fn array_push_appends_every_argument() {
    let arr = JsonValue::Array(vec![n(1)]);
    assert_eq!(value_of(&arr, "push", vec![n(2), s("x")]), "[1,2,\"x\"]");
    assert_eq!(value_of(&arr, "filter", vec![]), "[1]");
    assert_eq!(value_of(&arr, "map", vec![]), "[1]");
    assert_eq!(value_of(&JsonValue::Array(vec![]), "isEmpty", vec![]), "true");
    assert_eq!(value_of(&arr, "length", vec![]), "1");
}

#[test]
fn array_contains_compares_json_values() {
    let arr = JsonValue::Array(vec![n(1), s("a"), JsonValue::Null]);
    assert_eq!(value_of(&arr, "contains", vec![s("a")]), "true");
    assert_eq!(value_of(&arr, "includes", vec![n(2)]), "false");
    assert_eq!(value_of(&arr, "contains", vec![]), "true");
    let no_null = JsonValue::Array(vec![n(1)]);
    assert_eq!(value_of(&no_null, "contains", vec![]), "false");
    let float_one = JsonValue::Number(JsonNumber::Float { bits: 1.0f64.to_bits(), text: "1.0".to_string() });
    assert_eq!(value_of(&no_null, "contains", vec![float_one]), "false");
}

#[test]
fn string_length_counts_bytes() {
    assert_eq!(value_of(&s("héllo"), "len", vec![]), "6");
    assert_eq!(value_of(&s(""), "length", vec![]), "0");
}

#[test]
fn string_case_trim_and_tests() {
    assert_eq!(value_of(&s("abC"), "toUpperCase", vec![]), "\"ABC\"");
    assert_eq!(value_of(&s("  a b \n"), "trim", vec![]), "\"a b\"");
    assert_eq!(value_of(&s("hello"), "starts_with", vec![s("he")]), "true");
    assert_eq!(value_of(&s("hello"), "startsWith", vec![s("lo")]), "false");
    assert_eq!(value_of(&s("hello"), "ends_with", vec![s("lo")]), "true");
    assert_eq!(value_of(&s("lo"), "endsWith", vec![s("hello")]), "false");
    assert_eq!(value_of(&s("hello"), "includes", vec![n(1)]), "true");
    assert_eq!(value_of(&s(""), "is_empty", vec![]), "true");
}

#[test]
fn split_defaults_to_comma() {
    assert_eq!(value_of(&s("a,b,,c"), "split", vec![]), "[\"a\",\"b\",\"\",\"c\"]");
    assert_eq!(value_of(&s("a--b--"), "split", vec![s("--")]), "[\"a\",\"b\",\"\"]");
    assert_eq!(value_of(&s("abc"), "split", vec![s("x")]), "[\"abc\"]");
}

#[test]
fn split_on_empty_separator_gives_each_character() {
    assert_eq!(value_of(&s("ab"), "split", vec![s("")]), "[\"\",\"a\",\"b\",\"\"]");
    assert_eq!(value_of(&s(""), "split", vec![s("")]), "[\"\",\"\"]");
}

#[test]
fn replace_every_occurrence() {
    assert_eq!(value_of(&s("a-b-c"), "replace", vec![s("-"), s("+")]), "\"a+b+c\"");
    assert_eq!(value_of(&s("aaa"), "replace", vec![s("aa"), s("b")]), "\"ba\"");
    assert_eq!(value_of(&s("a-b"), "replace", vec![s("-")]), "\"ab\"");
    assert_eq!(value_of(&s("ab"), "replace", vec![s(""), s("|")]), "\"|a|b|\"");
}

#[test]
fn object_keys_and_values_in_entry_order() {
    let obj = JsonValue::Object(vec![("b".to_string(), n(2)), ("a".to_string(), s("x"))]);
    assert_eq!(value_of(&obj, "keys", vec![]), "[\"b\",\"a\"]");
    assert_eq!(value_of(&obj, "values", vec![]), "[2,\"x\"]");
}

#[test]
fn abs_hands_the_number_back() {
    let neg = JsonValue::Number(JsonNumber::NegInt(-4));
    match call_method(&neg, "abs", &Vec::new()) {
        Ok(MethodResult::AbsOf(JsonNumber::NegInt(v))) => assert_eq!(v, -4),
        _ => panic!("expected the number back"),
    }
}

#[test]
fn unknown_method_names_method_and_kind() {
    assert_eq!(error_of(&s("x"), "frobnicate"), "unknown method 'frobnicate' on \"string\"");
    assert_eq!(error_of(&JsonValue::Null, "len"), "unknown method 'len' on \"null\"");
    assert_eq!(error_of(&n(3), "len"), "unknown method 'len' on \"number\"");
    assert_eq!(error_of(&JsonValue::Bool(true), "abs"), "unknown method 'abs' on \"bool\"");
    assert_eq!(error_of(&JsonValue::Array(vec![]), "keys"), "unknown method 'keys' on \"array\"");
    assert_eq!(error_of(&JsonValue::Object(vec![]), "len"), "unknown method 'len' on \"object\"");
}
