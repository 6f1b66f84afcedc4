use mcp_dap::context::truncation::{summarize_array, summarize_object, truncate_nested, truncate_value};
use mcp_dap::json::{JsonNumber, JsonValue};

fn num(i: u64) -> JsonValue {
    JsonValue::Number(JsonNumber::PosInt(i))
}

fn s(t: &str) -> JsonValue {
    JsonValue::String(t.to_string())
}

fn arr(items: Vec<JsonValue>) -> JsonValue {
    JsonValue::Array(items)
}

fn obj(members: Vec<(&str, JsonValue)>) -> JsonValue {
    JsonValue::Object(members.into_iter().map(|(k, v)| (k.to_string(), v)).collect())
}

#[test]
fn short_string_unchanged() {
    assert_eq!(truncate_value("hello", 10), "hello");
}

#[test]
fn exact_length_unchanged() {
    assert_eq!(truncate_value("hello", 5), "hello");
}

#[test]
fn long_string_truncated() {
    let result = truncate_value("hello world", 5);
    assert!(result.starts_with("hello"));
    assert!(result.contains("truncated"));
    assert!(result.contains("11 total chars"));
}

#[test]
fn empty_string() {
    assert_eq!(truncate_value("", 10), "");
}

#[test]
fn zero_max_len() {
    let result = truncate_value("hello", 0);
    assert!(result.starts_with("..."));
    assert!(result.contains("truncated"));
}

#[test]
fn utf8_boundary_no_panic() {
    // 🌍 is 4 bytes; cutting at byte 1 would split a character
    let emoji = "🌍🌍🌍";
    let result = truncate_value(emoji, 1);
    assert!(result.contains("truncated"));
    assert!(!result.contains('\u{FFFD}'));
}

#[test]
fn truncated_value_exact_text() {
    assert_eq!(truncate_value("hello world", 5), "hello... [truncated, 11 total chars]");
    assert_eq!(truncate_value("é🌍x", 5), "é... [truncated, 7 total chars]");
}

#[test]
fn summarize_array_under_limit() {
    let a = arr(vec![num(1), num(2), num(3)]);
    assert_eq!(summarize_array(&a, 5), a);
}

#[test]
fn summarize_array_over_limit() {
    let a = arr(vec![num(1), num(2), num(3), num(4), num(5)]);
    let result = summarize_array(&a, 2);
    assert!(result.get("_summary").unwrap().as_str().unwrap().contains("5 items"));
    assert_eq!(result.get("items").unwrap().as_array().unwrap().len(), 2);
}

#[test]
fn summarize_array_exact_shape() {
    let a = arr(vec![num(1), num(2), num(3)]);
    let result = summarize_array(&a, 1);
    let expected = obj(vec![
        ("_summary", s("[Array of 3 items — showing first 1]")),
        ("items", arr(vec![num(1)])),
    ]);
    assert_eq!(result, expected);
}

#[test]
fn summarize_array_empty() {
    let a = arr(vec![]);
    assert_eq!(summarize_array(&a, 5), a);
}

#[test]
fn summarize_array_non_array_passthrough() {
    let val = s("not an array");
    assert_eq!(summarize_array(&val, 5), val);
}

#[test]
fn summarize_object_under_limit() {
    let o = obj(vec![("a", num(1)), ("b", num(2))]);
    assert_eq!(summarize_object(&o, 5), o);
}

#[test]
fn summarize_object_over_limit() {
    let o = obj(vec![("a", num(1)), ("b", num(2)), ("c", num(3)), ("d", num(4)), ("e", num(5))]);
    let result = summarize_object(&o, 2);
    assert!(result.get("_summary").unwrap().as_str().unwrap().contains("5 keys"));
    // Should have 2 kept keys + _summary
    assert_eq!(result.as_object().unwrap().len(), 3);
}

#[test]
fn summarize_object_summary_sorts_first() {
    let o = obj(vec![("a", num(1)), ("b", num(2)), ("c", num(3))]);
    let result = summarize_object(&o, 2);
    let expected = obj(vec![
        ("_summary", s("[Object with 3 keys — showing first 2]")),
        ("a", num(1)),
        ("b", num(2)),
    ]);
    assert_eq!(result, expected);
}

#[test]
fn summarize_object_empty() {
    let o = obj(vec![]);
    assert_eq!(summarize_object(&o, 5), o);
}

#[test]
fn summarize_object_non_object_passthrough() {
    let val = num(42);
    assert_eq!(summarize_object(&val, 5), val);
}

#[test]
fn truncate_nested_shallow_unchanged() {
    let val = obj(vec![("a", num(1)), ("b", arr(vec![num(2), num(3)]))]);
    assert_eq!(truncate_nested(&val, 3), val);
}

#[test]
fn truncate_nested_deep_replaced() {
    let val = obj(vec![("a", obj(vec![("b", obj(vec![("c", obj(vec![("d", num(1))]))]))]))]);
    let result = truncate_nested(&val, 2);
    // max_depth=2: root(2) → a's value(1) → b's value(0) → replaced
    let deep = result.get("a").unwrap().get("b").unwrap();
    assert!(deep.as_str().unwrap().contains("depth limit reached"));
}

#[test]
fn truncate_nested_scalar_passthrough() {
    assert_eq!(truncate_nested(&num(42), 0), num(42));
    assert_eq!(truncate_nested(&s("hello"), 0), s("hello"));
    assert_eq!(truncate_nested(&JsonValue::Null, 0), JsonValue::Null);
}

#[test]
fn truncate_nested_zero_depth_replaces_root_containers() {
    let a = arr(vec![num(1), num(2), num(3)]);
    let result = truncate_nested(&a, 0);
    assert!(result.as_str().unwrap().contains("Array with 3 items"));

    let o = obj(vec![("a", num(1))]);
    let result = truncate_nested(&o, 0);
    assert!(result.as_str().unwrap().contains("Object with 1 keys"));
}
