use mcp_dap::dap::request::{
    connect_failed, initialize_arguments, request_message, response_body, tcp_adapter_args, tcp_address,
};
use mcp_dap::dap::state_machine::SessionPhase;
use mcp_dap::error::AppError;
use mcp_dap::json::{JsonNumber, JsonValue};
use mcp_dap::state::{require_no_session, require_phase, require_session, try_start_session};
use mcp_dap::tools::launch::{
    attach_arguments, attach_result, disconnect_arguments, handshake_step, launch_arguments, launch_result,
    AdapterTransport, HandshakeAction, HandshakeStage, LaunchParams,
};

fn num(i: i64) -> JsonValue {
    if i >= 0 {
        JsonValue::Number(JsonNumber::PosInt(i as u64))
    } else {
        JsonValue::Number(JsonNumber::NegInt(i))
    }
}

fn s(t: &str) -> JsonValue {
    JsonValue::String(t.to_string())
}

fn obj(members: Vec<(&str, JsonValue)>) -> JsonValue {
    JsonValue::Object(members.into_iter().map(|(k, v)| (k.to_string(), v)).collect())
}

fn launch_params(cwd: Option<&str>, extra: Option<JsonValue>) -> LaunchParams {
    LaunchParams {
        adapter_path: "codelldb".into(),
        adapter_args: vec![],
        program: "./target/debug/app".into(),
        program_args: vec!["--input".into(), "data.csv".into()],
        cwd: cwd.map(String::from),
        stop_on_entry: true,
        transport: AdapterTransport::default(),
        extra_launch_args: extra,
    }
}

#[test]
fn request_message_shape() {
    let m = request_message(5, "threads", None);
    assert_eq!(m, obj(vec![("command", s("threads")), ("seq", num(5)), ("type", s("request"))]));
    let m2 = request_message(6, "pause", Some(obj(vec![("threadId", num(1))])));
    assert_eq!(
        m2,
        obj(vec![
            ("arguments", obj(vec![("threadId", num(1))])),
            ("command", s("pause")),
            ("seq", num(6)),
            ("type", s("request")),
        ])
    );
}

#[test]
fn response_success_gives_body() {
    let ok = obj(vec![("body", obj(vec![("x", num(1))])), ("success", JsonValue::Bool(true))]);
    assert_eq!(response_body(&ok).unwrap(), obj(vec![("x", num(1))]));
    let no_body = obj(vec![("success", JsonValue::Bool(true))]);
    assert_eq!(response_body(&no_body).unwrap(), JsonValue::Null);
}

#[test]
fn response_failure_gives_dap_error() {
    let failed = obj(vec![("message", s("bad launch")), ("success", JsonValue::Bool(false))]);
    match response_body(&failed) {
        Err(AppError::DapError(m)) => assert_eq!(m, "bad launch"),
        other => panic!("unexpected {other:?}"),
    }
    match response_body(&obj(vec![])) {
        Err(AppError::DapError(m)) => assert_eq!(m, "unknown DAP error"),
        other => panic!("unexpected {other:?}"),
    }
}

#[test]
fn initialize_arguments_shape() {
    assert_eq!(
        initialize_arguments(),
        obj(vec![
            ("adapterID", s("mcp-dap-rs")),
            ("clientID", s("mcp-dap-rs")),
            ("clientName", s("mcp-dap-rs")),
            ("columnsStartAt1", JsonValue::Bool(true)),
            ("linesStartAt1", JsonValue::Bool(true)),
            ("pathFormat", s("path")),
        ])
    );
}

#[test]
fn tcp_transport_arguments() {
    assert_eq!(tcp_address(4711), "127.0.0.1:4711");
    assert_eq!(tcp_adapter_args(&vec!["dap".to_string()], 38697), vec!["dap", "-l", "127.0.0.1:38697"]);
    match connect_failed("127.0.0.1:1", 20) {
        AppError::DapError(m) => assert_eq!(m, "failed to connect to adapter at 127.0.0.1:1 after 20 attempts"),
        other => panic!("unexpected {other:?}"),
    }
}

#[test]
fn launch_arguments_with_cwd_and_extras() {
    let extra = obj(vec![("cwd", s("/override")), ("env", obj(vec![("A", s("1"))])), ("stopOnEntry", JsonValue::Bool(false))]);
    let args = launch_arguments(&launch_params(Some("/work"), Some(extra)));
    assert_eq!(
        args,
        obj(vec![
            ("args", JsonValue::Array(vec![s("--input"), s("data.csv")])),
            ("console", s("internalConsole")),
            ("cwd", s("/override")),
            ("env", obj(vec![("A", s("1"))])),
            ("program", s("./target/debug/app")),
            ("stopOnEntry", JsonValue::Bool(false)),
        ])
    );
}

#[test]
fn launch_arguments_ignore_non_object_extras() {
    let args = launch_arguments(&launch_params(None, Some(JsonValue::Array(vec![num(1)]))));
    assert_eq!(
        args,
        obj(vec![
            ("args", JsonValue::Array(vec![s("--input"), s("data.csv")])),
            ("console", s("internalConsole")),
            ("program", s("./target/debug/app")),
            ("stopOnEntry", JsonValue::Bool(true)),
        ])
    );
}

#[test]
fn launch_and_attach_replies() {
    assert_eq!(launch_result("./app", true), "Debug session started (stopped at entry). Program: ./app");
    assert_eq!(launch_result("./app", false), "Debug session started (running). Program: ./app");
    assert_eq!(attach_result(4242), "Attached to process (PID: 4242)");
    assert_eq!(attach_arguments(4242), obj(vec![("pid", num(4242))]));
    assert_eq!(disconnect_arguments(), obj(vec![("terminateDebuggee", JsonValue::Bool(true))]));
}

#[test]
fn default_transport_is_stdio() {
    assert_eq!(AdapterTransport::default(), AdapterTransport::Stdio);
}

#[test]
fn session_guards() {
    assert!(require_no_session(false).is_ok());
    assert!(matches!(require_no_session(true), Err(AppError::SessionActive)));
    assert!(require_session(true).is_ok());
    assert!(matches!(require_session(false), Err(AppError::NoSession)));
    assert_eq!(try_start_session(false).unwrap().phase(), SessionPhase::Initializing);
    assert!(matches!(try_start_session(true), Err(AppError::SessionActive)));
}

#[test]
fn phase_requirements() {
    assert!(require_phase(Some(SessionPhase::Stopped), &[SessionPhase::Stopped]).is_ok());
    assert!(matches!(require_phase(None, &[SessionPhase::Stopped]), Err(AppError::NoSession)));
    match require_phase(Some(SessionPhase::Running), &[SessionPhase::Stopped, SessionPhase::Initializing]) {
        Err(AppError::InvalidState { from, to }) => {
            assert_eq!(from, "Running");
            assert_eq!(to, "one of [Stopped, Initializing]");
        }
        other => panic!("unexpected {other:?}"),
    }
}

fn run_handshake(stop_on_entry: bool, fail_at: Option<usize>) -> Vec<HandshakeAction> {
    let mut stage = HandshakeStage::Start;
    let mut ok = true;
    let mut actions = Vec::new();
    for step in 0..10 {
        let (next, action) = handshake_step(stage, ok, stop_on_entry);
        stage = next;
        actions.push(action);
        if matches!(action, HandshakeAction::Reply | HandshakeAction::Fail | HandshakeAction::Nothing) {
            break;
        }
        ok = fail_at != Some(step);
    }
    actions
}

#[test]
fn handshake_order_without_entry_stop() {
    assert_eq!(
        run_handshake(false, None),
        vec![HandshakeAction::SendInitialize, HandshakeAction::SendStart, HandshakeAction::WaitForInitialized, HandshakeAction::SendConfigurationDone, HandshakeAction::CollectStartResponse, HandshakeAction::Reply]
    );
}

#[test]
fn handshake_order_with_entry_stop() {
    assert_eq!(
        run_handshake(true, None),
        vec![HandshakeAction::SendInitialize, HandshakeAction::SendStart, HandshakeAction::WaitForInitialized, HandshakeAction::SendConfigurationDone, HandshakeAction::CollectStartResponse, HandshakeAction::WaitForStopped, HandshakeAction::Reply]
    );
}

#[test]
fn handshake_stops_at_first_failure() {
    assert_eq!(run_handshake(true, Some(2)), vec![HandshakeAction::SendInitialize, HandshakeAction::SendStart, HandshakeAction::WaitForInitialized, HandshakeAction::Fail]);
    assert_eq!(run_handshake(false, Some(0)), vec![HandshakeAction::SendInitialize, HandshakeAction::Fail]);
    assert_eq!(handshake_step(HandshakeStage::Done, true, true), (HandshakeStage::Done, HandshakeAction::Nothing));
}
