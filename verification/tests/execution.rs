use mcp_dap::dap::types::DapEvent;
use mcp_dap::error::AppError;
use mcp_dap::json::{JsonNumber, JsonValue};
use mcp_dap::tools::execution::{
    first_thread_id, resume_arguments, step_command, stop_reply, threads_listing, StepGranularity,
};

fn num(i: i64) -> JsonValue {
    if i >= 0 {
        JsonValue::Number(JsonNumber::PosInt(i as u64))
    } else {
        JsonValue::Number(JsonNumber::NegInt(i))
    }
}

fn s(t: &str) -> JsonValue {
    JsonValue::String(t.to_string())
}

fn obj(members: Vec<(&str, JsonValue)>) -> JsonValue {
    JsonValue::Object(members.into_iter().map(|(k, v)| (k.to_string(), v)).collect())
}

#[test]
fn step_commands() {
    assert_eq!(step_command(StepGranularity::Over), "next");
    assert_eq!(step_command(StepGranularity::In), "stepIn");
    assert_eq!(step_command(StepGranularity::Out), "stepOut");
}

#[test]
fn resume_arguments_shape() {
    assert_eq!(resume_arguments(4, false), obj(vec![("threadId", num(4))]));
    assert_eq!(
        resume_arguments(4, true),
        obj(vec![("singleThread", JsonValue::Bool(true)), ("threadId", num(4))])
    );
}

#[test]
fn first_thread_found_or_error() {
    let body = obj(vec![("threads", JsonValue::Array(vec![obj(vec![("id", num(11))]), obj(vec![("id", num(12))])]))]);
    assert_eq!(first_thread_id(&body).unwrap(), 11);
    let empty = obj(vec![("threads", JsonValue::Array(vec![]))]);
    match first_thread_id(&empty) {
        Err(AppError::DapError(m)) => assert_eq!(m, "no threads available"),
        other => panic!("unexpected {other:?}"),
    }
}

#[test]
fn stop_replies() {
    let stopped = DapEvent::Stopped { thread_id: 1, reason: "breakpoint".into(), all_threads_stopped: true };
    assert_eq!(stop_reply(&stopped, "Stopped"), "Stopped: breakpoint (thread 1, all threads stopped)");
    let step = DapEvent::Stopped { thread_id: 2, reason: "step".into(), all_threads_stopped: false };
    assert_eq!(stop_reply(&step, "Stepped (next)"), "Stepped (next): step (thread 2)");
    assert_eq!(stop_reply(&DapEvent::Exited { exit_code: -3 }, "Stopped"), "Process exited with code -3");
    assert_eq!(stop_reply(&DapEvent::Terminated, "Paused"), "Debug session terminated");
}

#[test]
fn threads_listing_text() {
    let body = obj(vec![(
        "threads",
        JsonValue::Array(vec![obj(vec![("id", num(1)), ("name", s("main\x1b[0m"))]), obj(vec![])]),
    )]);
    assert_eq!(threads_listing(&body), "Thread 1: main\nThread -1: unnamed\n\n2 thread(s) total");
    assert_eq!(threads_listing(&obj(vec![])), "No threads available");
}
