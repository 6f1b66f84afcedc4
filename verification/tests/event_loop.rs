use mcp_dap::dap::state_machine::SessionPhase;
use mcp_dap::dap::types::DapEvent;
use mcp_dap::json::{JsonNumber, JsonValue};
use mcp_dap::services::event_loop::{action_for_message, LoopAction};

fn num(i: i64) -> JsonValue {
    if i >= 0 {
        JsonValue::Number(JsonNumber::PosInt(i as u64))
    } else {
        JsonValue::Number(JsonNumber::NegInt(i))
    }
}

fn s(t: &str) -> JsonValue {
    JsonValue::String(t.to_string())
}

fn obj(members: Vec<(&str, JsonValue)>) -> JsonValue {
    JsonValue::Object(members.into_iter().map(|(k, v)| (k.to_string(), v)).collect())
}

#[test]
fn response_goes_to_its_request() {
    let msg = obj(vec![("request_seq", num(7)), ("success", JsonValue::Bool(true)), ("type", s("response"))]);
    assert!(matches!(action_for_message(&msg), LoopAction::DeliverResponse { request_seq: 7 }));
}

#[test]
fn response_without_request_seq_uses_minus_one() {
    let msg = obj(vec![("type", s("response"))]);
    assert!(matches!(action_for_message(&msg), LoopAction::DeliverResponse { request_seq: -1 }));
}

#[test]
fn stopped_event_moves_to_stopped() {
    let body = obj(vec![("allThreadsStopped", JsonValue::Bool(true)), ("reason", s("breakpoint")), ("threadId", num(3))]);
    let msg = obj(vec![("body", body), ("event", s("stopped")), ("type", s("event"))]);
    match action_for_message(&msg) {
        LoopAction::Broadcast { event: DapEvent::Stopped { thread_id, reason, all_threads_stopped }, phase } => {
            assert_eq!(thread_id, 3);
            assert_eq!(reason, "breakpoint");
            assert!(all_threads_stopped);
            assert_eq!(phase, Some(SessionPhase::Stopped));
        }
        other => panic!("unexpected action {other:?}"),
    }
}

#[test]
fn stopped_event_defaults() {
    let msg = obj(vec![("event", s("stopped")), ("type", s("event"))]);
    match action_for_message(&msg) {
        LoopAction::Broadcast { event: DapEvent::Stopped { thread_id, reason, all_threads_stopped }, .. } => {
            assert_eq!(thread_id, 0);
            assert_eq!(reason, "unknown");
            assert!(!all_threads_stopped);
        }
        other => panic!("unexpected action {other:?}"),
    }
}

#[test]
fn lifecycle_events_map_to_phases() {
    let cases = [
        ("continued", Some(SessionPhase::Running)),
        ("exited", Some(SessionPhase::Terminated)),
        ("terminated", Some(SessionPhase::Terminated)),
        ("initialized", Some(SessionPhase::Running)),
        ("output", None),
        ("capabilities", None),
    ];
    for (name, expected) in cases {
        let msg = obj(vec![("event", s(name)), ("type", s("event"))]);
        match action_for_message(&msg) {
            LoopAction::Broadcast { phase, .. } => assert_eq!(phase, expected, "event {name}"),
            other => panic!("unexpected action {other:?} for {name}"),
        }
    }
}

#[test]
fn exited_event_default_code() {
    let msg = obj(vec![("event", s("exited")), ("type", s("event"))]);
    assert!(matches!(
        action_for_message(&msg),
        LoopAction::Broadcast { event: DapEvent::Exited { exit_code: -1 }, .. }
    ));
}

#[test]
fn output_event_is_sanitized() {
    let body = obj(vec![("category", s("stdout")), ("output", s("\x1b[31mred\x1b[0m\x07!\n"))]);
    let msg = obj(vec![("body", body), ("event", s("output")), ("type", s("event"))]);
    match action_for_message(&msg) {
        LoopAction::Broadcast { event: DapEvent::Output { category, output }, phase: None } => {
            assert_eq!(category.as_deref(), Some("stdout"));
            assert_eq!(output, "red!\n");
        }
        other => panic!("unexpected action {other:?}"),
    }
}

#[test]
fn unknown_event_is_ignored() {
    let msg = obj(vec![("event", s("module")), ("type", s("event"))]);
    assert!(matches!(action_for_message(&msg), LoopAction::Ignore));
}

#[test]
fn unknown_type_is_ignored() {
    let msg = obj(vec![("type", s("gossip"))]);
    assert!(matches!(action_for_message(&msg), LoopAction::Ignore));
    assert!(matches!(action_for_message(&obj(vec![])), LoopAction::Ignore));
}

#[test]
fn reverse_request_is_rejected() {
    let msg = obj(vec![("command", s("runInTerminal")), ("seq", num(12)), ("type", s("request"))]);
    let expected = obj(vec![
        ("command", s("runInTerminal")),
        ("message", s("mcp-dap-rs does not support reverse request 'runInTerminal'")),
        ("request_seq", num(12)),
        ("seq", num(0)),
        ("success", JsonValue::Bool(false)),
        ("type", s("response")),
    ]);
    match action_for_message(&msg) {
        LoopAction::RejectRequest { response } => assert_eq!(response, expected),
        other => panic!("unexpected action {other:?}"),
    }
}

#[test]
fn reverse_request_defaults() {
    let msg = obj(vec![("type", s("request"))]);
    match action_for_message(&msg) {
        LoopAction::RejectRequest { response } => {
            assert_eq!(response.get_str("command"), Some("unknown"));
            assert_eq!(response.get_i64("request_seq"), Some(0));
        }
        other => panic!("unexpected action {other:?}"),
    }
}
