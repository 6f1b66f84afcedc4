use mcp_dap::error::AppError;
use mcp_dap::json::{JsonNumber, JsonValue};
use mcp_dap::tools::inspect::{
    children_value, default_max_frames, first_frame_id, int_member, result_type, stack_trace_arguments, evaluate_arguments, format_compact, frame_line, frame_location,
    is_internal, line_index, scalar_result, scope_locals, scope_reference, scopes_to_expand, source_target,
    stopped_context, visible_variables,
    PaginationMeta,
};

fn num(i: i64) -> JsonValue {
    if i >= 0 {
        JsonValue::Number(JsonNumber::PosInt(i as u64))
    } else {
        JsonValue::Number(JsonNumber::NegInt(i))
    }
}

fn s(t: &str) -> JsonValue {
    JsonValue::String(t.to_string())
}

fn obj(members: Vec<(&str, JsonValue)>) -> JsonValue {
    JsonValue::Object(members.into_iter().map(|(k, v)| (k.to_string(), v)).collect())
}

fn var(name: &str, value: &str, ty: &str) -> JsonValue {
    obj(vec![("name", s(name)), ("type", s(ty)), ("value", s(value))])
}

fn entry(value: &str, ty: &str) -> JsonValue {
    obj(vec![("type", s(ty)), ("value", s(value))])
}

#[test]
fn default_frames_is_twenty() {
    assert_eq!(default_max_frames(), 20);
}

#[test]
fn internal_names() {
    assert!(is_internal("special variables"));
    assert!(is_internal("function variables"));
    assert!(is_internal("len()"));
    assert!(is_internal("__dict__"));
    assert!(is_internal("____"));
    assert!(is_internal("__"));
    assert!(!is_internal("__init"));
    assert!(!is_internal("x"));
}

#[test]
fn visible_variables_filters_internal() {
    let vars = vec![var("a", "1", "int"), var("special variables", "", ""), var("__len__", "", ""), var("b", "2", "int")];
    let shown = visible_variables(&vars);
    assert_eq!(shown, vec![var("a", "1", "int"), var("b", "2", "int")]);
}

#[test]
fn children_array_by_counts() {
    let body = obj(vec![("variables", JsonValue::Array(vec![var("x", "1", "int"), var("y", "\x1b[1m22", "int")]))]);
    let (v, is_array) = children_value(&body, Some(2), Some(0), 100).unwrap();
    assert!(is_array);
    assert_eq!(v, JsonValue::Array(vec![entry("1", "int"), entry("22", "int")]));
}

#[test]
fn children_object_by_names_and_truncation() {
    let body = obj(vec![(
        "variables",
        JsonValue::Array(vec![var("b", "hello world", "str"), var("a", "1", "int"), var("b", "x", "str")]),
    )]);
    let (v, is_array) = children_value(&body, None, None, 5).unwrap();
    assert!(!is_array);
    assert_eq!(v, obj(vec![("a", entry("1", "int")), ("b", entry("x", "str"))]));
    let body2 = obj(vec![("variables", JsonValue::Array(vec![var("long", "hello world", "str")]))]);
    let (v2, _) = children_value(&body2, Some(0), Some(1), 5).unwrap();
    assert_eq!(v2, obj(vec![("long", entry("hello... [truncated, 11 total chars]", "str"))]));
}

#[test]
fn children_array_by_index_names() {
    let body = obj(vec![("variables", JsonValue::Array(vec![var("0", "a", "char"), var("+1", "b", "char")]))]);
    let (_, is_array) = children_value(&body, None, Some(0), 10).unwrap();
    assert!(is_array);
    let body2 = obj(vec![("variables", JsonValue::Array(vec![var("0", "a", "char"), var("-1", "b", "char")]))]);
    let (_, is_array2) = children_value(&body2, None, None, 10).unwrap();
    assert!(!is_array2);
}

#[test]
fn children_none_when_all_hidden() {
    let body = obj(vec![("variables", JsonValue::Array(vec![var("special variables", "", "")]))]);
    assert!(children_value(&body, None, None, 10).is_none());
    assert!(children_value(&obj(vec![]), None, None, 10).is_none());
}

#[test]
fn compact_array_with_page() {
    let v = JsonValue::Array(vec![entry("1", "int"), s("two"), num(3)]);
    let meta = PaginationMeta { token: "pg_1".into(), total: 30, offset: 10, end: 13 };
    assert_eq!(
        format_compact(&v, true, "xs", "Vec<i32>", Some(&meta)),
        "xs (Vec<i32>, 30 items, showing 10..13) [page: pg_1]\n[10] 1 (int)\n[11] two\n[12] 3\n"
    );
}

#[test]
fn compact_object_skips_bookkeeping() {
    let v = obj(vec![("_summary", s("x")), ("a", entry("1", "")), ("b", JsonValue::Bool(true))]);
    assert_eq!(format_compact(&v, false, "o", "dict", None), "o (dict, 3 keys)\na: 1\nb: true\n");
}

#[test]
fn frame_lines() {
    let frame = obj(vec![
        ("id", num(1000)),
        ("line", num(42)),
        ("name", s("main")),
        ("source", obj(vec![("path", s("/src/main.rs"))])),
    ]);
    assert_eq!(frame_line(0, &frame), "#0 main at /src/main.rs:42\n");
    assert_eq!(frame_location(&frame), Some(("/src/main.rs".to_string(), 42)));
    assert_eq!(frame_line(7, &obj(vec![("line", num(3))])), "#7 <unknown>\n");
}

#[test]
fn source_targets_only_top_frames() {
    let frame = obj(vec![("line", num(-5)), ("source", obj(vec![("path", s("f.py"))]))]);
    assert_eq!(source_target(0, &frame), Some(("f.py".to_string(), 0)));
    assert_eq!(source_target(2, &frame), Some(("f.py".to_string(), 0)));
    assert_eq!(source_target(3, &frame), None);
    assert_eq!(source_target(0, &obj(vec![("line", num(5))])), None);
    assert_eq!(line_index(17), 17);
    assert_eq!(line_index(-1), 0);
}

#[test]
fn scope_locals_text() {
    let scope = obj(vec![("name", s("Locals")), ("variablesReference", num(5))]);
    let vars = obj(vec![(
        "variables",
        JsonValue::Array(vec![var("x", "1", "int"), var("__dict__", "{}", "dict"), var("s", "abcdef", ""), var("z", "9", "int")]),
    )]);
    assert_eq!(scope_locals(&scope, &vars, 2, 3), "\nLocals:\n  x: 1 (int)\n  s: abc... [truncated, 6 total chars]\n");
    assert_eq!(scope_locals(&obj(vec![]), &vars, 1, 10), "\nScope:\n  x: 1 (int)\n");
    assert_eq!(scope_locals(&scope, &vars, 0, 10), "");
    assert_eq!(scope_reference(&scope), 5);
    assert_eq!(scope_reference(&obj(vec![])), 0);
}

#[test]
fn scalar_results() {
    let body = obj(vec![("result", s("42")), ("type", s("i32"))]);
    assert_eq!(scalar_result("divisor", &body, 100), "divisor = 42 (type: i32)");
    assert_eq!(scalar_result("q", &obj(vec![]), 100), "q = <no result> (type: unknown)");
}

#[test]
fn evaluate_arguments_shape() {
    assert_eq!(
        evaluate_arguments("a + b", 7),
        obj(vec![("context", s("watch")), ("expression", s("a + b")), ("frameId", num(7))])
    );
}

#[test]
fn request_arguments_for_inspection() {
    assert_eq!(stack_trace_arguments(3, 20), obj(vec![("levels", num(20)), ("threadId", num(3))]));
    assert_eq!(int_member("frameId", -4), obj(vec![("frameId", num(-4))]));
    assert_eq!(int_member("variablesReference", 9), obj(vec![("variablesReference", num(9))]));
}

#[test]
fn top_frame_and_result_type() {
    let body = obj(vec![("stackFrames", JsonValue::Array(vec![obj(vec![("id", num(77))])]))]);
    assert_eq!(first_frame_id(&body).unwrap(), 77);
    match first_frame_id(&obj(vec![])) {
        Err(AppError::DapError(m)) => assert_eq!(m, "no stack frames available"),
        other => panic!("unexpected {other:?}"),
    }
    assert_eq!(result_type(&obj(vec![("type", s("int"))])), "int");
    assert_eq!(result_type(&obj(vec![])), "unknown");
}

#[test]
fn scopes_expanded_for_auto_context() {
    let scopes = obj(vec![(
        "scopes",
        JsonValue::Array(vec![
            obj(vec![("name", s("Locals")), ("variablesReference", num(4))]),
            obj(vec![("name", s("Registers")), ("variablesReference", num(0))]),
            obj(vec![("name", s("Globals")), ("variablesReference", num(9))]),
            obj(vec![("name", s("Statics")), ("variablesReference", num(12))]),
        ]),
    )]);
    let names = |v: Vec<JsonValue>| v.iter().map(|x| x.get_str("name").unwrap().to_string()).collect::<Vec<_>>();
    assert_eq!(names(scopes_to_expand(&scopes, 3)), vec!["Locals", "Globals"]);
    assert_eq!(names(scopes_to_expand(&scopes, 1)), vec!["Locals"]);
    assert!(scopes_to_expand(&scopes, 0).is_empty());
    assert!(scopes_to_expand(&obj(vec![]), 3).is_empty());
}

#[test]
fn stopped_context_layout() {
    assert_eq!(stopped_context("Stopped: step (thread 1)", "#0 main\n", 1, "\nLocals:\n  x: 1\n"), "Stopped: step (thread 1)\n\n#0 main\n\nLocals:\n  x: 1\n");
    assert_eq!(stopped_context("Paused: pause (thread 2)", "", 0, ""), "Paused: pause (thread 2)");
}
