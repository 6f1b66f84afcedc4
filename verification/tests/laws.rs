use mcp_dap::config::Config;
use mcp_dap::context::sanitize::sanitize_debuggee_output;
use mcp_dap::context::truncation::{truncate_nested, truncate_value};
use mcp_dap::dap::state_machine::{SessionPhase, SessionState};
use mcp_dap::json::{object_insert, JsonNumber, JsonValue};
use mcp_dap::state::AppState;

fn num(i: u64) -> JsonValue {
    JsonValue::Number(JsonNumber::PosInt(i))
}

#[test]
fn sanitizing_twice_changes_nothing_more() {
    let raw = "a\x1b[1;31mb\x1b[0m\u{0085}c\x1b[\x07\td\x1b";
    let once = sanitize_debuggee_output(raw);
    assert_eq!(once, "abc");
    assert_eq!(sanitize_debuggee_output(&once), once);
    let raw2 = "x\x00y\x1bz\u{009b}\r\n";
    let once2 = sanitize_debuggee_output(raw2);
    assert_eq!(once2, "xyz\r\n");
    assert_eq!(sanitize_debuggee_output(&once2), once2);
}

#[test]
fn truncation_keeps_longest_fitting_prefix() {
    // "aé" is 3 bytes; a budget of 2 bytes keeps only "a".
    assert_eq!(truncate_value("aéb", 2), "a... [truncated, 4 total chars]");
    assert_eq!(truncate_value("aéb", 3), "aé... [truncated, 4 total chars]");
}

#[test]
fn depth_limit_is_idempotent() {
    let deep = JsonValue::Array(vec![JsonValue::Array(vec![JsonValue::Array(vec![num(1)])]), num(2)]);
    let once = truncate_nested(&deep, 2);
    let expected = JsonValue::Array(vec![
        JsonValue::Array(vec![JsonValue::String("[Array with 1 items — depth limit reached]".into())]),
        num(2),
    ]);
    assert_eq!(once, expected);
    assert_eq!(truncate_nested(&once, 2), once);
}

#[test]
fn object_insert_reads_back() {
    let mut members: Vec<(String, JsonValue)> = vec![("b".into(), num(2)), ("d".into(), num(4))];
    object_insert(&mut members, "c", num(3));
    object_insert(&mut members, "a", num(1));
    object_insert(&mut members, "d", num(40));
    let v = JsonValue::Object(members);
    assert_eq!(v.get_i64("c"), Some(3));
    assert_eq!(v.get_i64("d"), Some(40));
    assert_eq!(v.get_i64("b"), Some(2));
    let keys: Vec<String> = v.as_object().unwrap().iter().map(|(k, _)| k.clone()).collect();
    assert_eq!(keys, vec!["a", "b", "c", "d"]);
}

#[test]
fn listed_adapter_allowed_through_any_directory() {
    let state = AppState::new(Config::default());
    assert!(state.validate_adapter_path("/opt/tools/bin/dlv").is_ok());
    assert!(state.validate_adapter_path("dlv").is_ok());
    assert!(state.validate_adapter_path("./dlv").is_ok());
    assert!(state.validate_adapter_path("/opt/../bin/dlv").is_err());
}

#[test]
fn no_phase_moves_to_itself() {
    let phases = [
        SessionPhase::Uninitialized,
        SessionPhase::Initializing,
        SessionPhase::Running,
        SessionPhase::Stopped,
        SessionPhase::Terminated,
    ];
    for p in phases {
        let mut state = SessionState::new();
        let path: &[SessionPhase] = match p {
            SessionPhase::Uninitialized => &[],
            SessionPhase::Initializing => &[SessionPhase::Initializing],
            SessionPhase::Running => &[SessionPhase::Initializing, SessionPhase::Running],
            SessionPhase::Stopped => &[SessionPhase::Initializing, SessionPhase::Running, SessionPhase::Stopped],
            SessionPhase::Terminated => &[SessionPhase::Initializing, SessionPhase::Running, SessionPhase::Terminated],
        };
        for q in path {
            state.transition(*q).unwrap();
        }
        assert!(state.transition(p).is_err());
        assert_eq!(state.phase(), p);
    }
}

#[test]
fn depth_limits_compose_to_the_smaller() {
    let deep = JsonValue::Array(vec![JsonValue::Array(vec![JsonValue::Array(vec![num(1)])]), num(2)]);
    assert_eq!(truncate_nested(&truncate_nested(&deep, 3), 1), truncate_nested(&deep, 1));
    assert_eq!(truncate_nested(&truncate_nested(&deep, 1), 3), truncate_nested(&deep, 1));
    assert_eq!(truncate_nested(&truncate_nested(&deep, 2), 2), truncate_nested(&deep, 2));
}

#[test]
fn later_tokens_are_fresh() {
    let earlier = mcp_dap::context::pagination::generate_token(0x12, 3);
    let later = mcp_dap::context::pagination::generate_token(0x12, 0x23);
    assert_ne!(earlier, later);
    // A clock that went back can repeat a token: 0x1 then 0x23 reads like 0x12 then 0x3.
    assert_eq!(
        mcp_dap::context::pagination::generate_token(0x1, 0x23),
        mcp_dap::context::pagination::generate_token(0x12, 0x3)
    );
}
