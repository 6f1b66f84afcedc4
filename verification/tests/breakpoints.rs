use mcp_dap::json::{JsonNumber, JsonValue};
use mcp_dap::tools::breakpoint::{
    breakpoints_json, no_breakpoint_message, removed_message, set_breakpoint_message, BreakpointTable,
    RemoveBreakpointParams, SetBreakpointParams, TrackedBreakpoint,
};

fn num(i: i64) -> JsonValue {
    if i >= 0 {
        JsonValue::Number(JsonNumber::PosInt(i as u64))
    } else {
        JsonValue::Number(JsonNumber::NegInt(i))
    }
}

fn s(t: &str) -> JsonValue {
    JsonValue::String(t.to_string())
}

fn obj(members: Vec<(&str, JsonValue)>) -> JsonValue {
    JsonValue::Object(members.into_iter().map(|(k, v)| (k.to_string(), v)).collect())
}

fn bp(line: i64, condition: Option<&str>) -> TrackedBreakpoint {
    TrackedBreakpoint { line, condition: condition.map(String::from) }
}

fn lines(bps: &[TrackedBreakpoint]) -> Vec<i64> {
    bps.iter().map(|b| b.line).collect()
}

#[test]
fn add_appends_per_file() {
    let mut t = BreakpointTable::new();
    t.add("a.rs", bp(10, None));
    t.add("b.rs", bp(3, None));
    t.add("a.rs", bp(20, Some("x > 1")));
    assert_eq!(lines(&t.breakpoints_of("a.rs")), vec![10, 20]);
    assert_eq!(lines(&t.breakpoints_of("b.rs")), vec![3]);
    assert!(t.breakpoints_of("c.rs").is_empty());
    assert_eq!(t.breakpoints_of("a.rs")[1].condition.as_deref(), Some("x > 1"));
}

#[test]
fn remove_line_keeps_others_in_order() {
    let mut t = BreakpointTable::new();
    t.add("a.rs", bp(10, None));
    t.add("a.rs", bp(20, None));
    t.add("a.rs", bp(10, Some("c")));
    t.add("a.rs", bp(30, None));
    t.add("b.rs", bp(10, None));
    assert_eq!(t.remove_line("a.rs", 10), Some(2));
    assert_eq!(lines(&t.breakpoints_of("a.rs")), vec![20, 30]);
    assert_eq!(lines(&t.breakpoints_of("b.rs")), vec![10]);
}

#[test]
fn remove_missing_line_changes_nothing() {
    let mut t = BreakpointTable::new();
    t.add("a.rs", bp(10, None));
    assert_eq!(t.remove_line("a.rs", 11), None);
    assert_eq!(t.remove_line("z.rs", 10), None);
    assert_eq!(lines(&t.breakpoints_of("a.rs")), vec![10]);
}

#[test]
fn drop_if_empty_forgets_file() {
    let mut t = BreakpointTable::new();
    t.add("a.rs", bp(10, None));
    assert_eq!(t.remove_line("a.rs", 10), Some(0));
    t.drop_if_empty("a.rs");
    assert!(t.breakpoints_of("a.rs").is_empty());
    t.add("a.rs", bp(5, None));
    t.drop_if_empty("a.rs");
    assert_eq!(lines(&t.breakpoints_of("a.rs")), vec![5]);
}

#[test]
fn breakpoints_json_shape() {
    let v = breakpoints_json(&vec![bp(4, None), bp(-2, Some("i == 3"))]);
    let expected = JsonValue::Array(vec![
        obj(vec![("line", num(4))]),
        obj(vec![("condition", s("i == 3")), ("line", num(-2))]),
    ]);
    assert_eq!(v, expected);
}

#[test]
fn set_breakpoint_reply_verified_with_condition() {
    let params = SetBreakpointParams { file: "src/main.rs".into(), line: 42, condition: Some("n > 0".into()) };
    let body = obj(vec![(
        "breakpoints",
        JsonValue::Array(vec![
            obj(vec![("line", num(42)), ("verified", JsonValue::Bool(false))]),
            obj(vec![("line", num(7)), ("verified", JsonValue::Bool(true))]),
            obj(vec![("line", num(42)), ("verified", JsonValue::Bool(true))]),
        ]),
    )]);
    assert_eq!(set_breakpoint_message(&params, &body), "Breakpoint verified at src/main.rs:42 (condition: n > 0)");
}

#[test]
fn set_breakpoint_reply_pending_and_fallback() {
    let params = SetBreakpointParams { file: "m.py".into(), line: 3, condition: None };
    let body = obj(vec![("breakpoints", JsonValue::Array(vec![obj(vec![("line", num(3))])]))]);
    assert_eq!(set_breakpoint_message(&params, &body), "Breakpoint pending at m.py:3");
    let none = obj(vec![]);
    assert_eq!(set_breakpoint_message(&params, &none), "Breakpoint set at m.py:3");
}

#[test]
fn remove_replies() {
    let params = RemoveBreakpointParams { file: "m.go".into(), line: 9 };
    assert_eq!(no_breakpoint_message(&params), "No breakpoint at m.go:9");
    assert_eq!(removed_message(&params, 2), "Breakpoint removed at m.go:9 (2 remaining)");
}

#[test]
fn set_breakpoints_arguments_shape() {
    let args = mcp_dap::tools::breakpoint::set_breakpoints_arguments("/src/a.rs", &vec![bp(3, None), bp(8, Some("k"))]);
    let expected = obj(vec![
        (
            "breakpoints",
            JsonValue::Array(vec![obj(vec![("line", num(3))]), obj(vec![("condition", s("k")), ("line", num(8))])]),
        ),
        ("source", obj(vec![("path", s("/src/a.rs"))])),
    ]);
    assert_eq!(args, expected);
}
