use mcp_dap::dap::state_machine::{SessionPhase, SessionState};
use mcp_dap::error::AppError;

#[test]
fn initial_state_is_uninitialized() {
    let state = SessionState::new();
    assert_eq!(state.phase(), SessionPhase::Uninitialized);
}

#[test]
fn valid_transition_uninitialized_to_initializing() {
    let mut state = SessionState::new();
    assert!(state.transition(SessionPhase::Initializing).is_ok());
    assert_eq!(state.phase(), SessionPhase::Initializing);
}

#[test]
fn valid_transition_initializing_to_running() {
    let mut state = SessionState::new();
    state.transition(SessionPhase::Initializing).unwrap();
    assert!(state.transition(SessionPhase::Running).is_ok());
    assert_eq!(state.phase(), SessionPhase::Running);
}

#[test]
fn valid_transition_running_to_stopped() {
    let mut state = SessionState::new();
    state.transition(SessionPhase::Initializing).unwrap();
    state.transition(SessionPhase::Running).unwrap();
    assert!(state.transition(SessionPhase::Stopped).is_ok());
    assert_eq!(state.phase(), SessionPhase::Stopped);
}

#[test]
fn valid_transition_stopped_to_running() {
    let mut state = SessionState::new();
    state.transition(SessionPhase::Initializing).unwrap();
    state.transition(SessionPhase::Running).unwrap();
    state.transition(SessionPhase::Stopped).unwrap();
    assert!(state.transition(SessionPhase::Running).is_ok());
    assert_eq!(state.phase(), SessionPhase::Running);
}

#[test]
fn valid_transition_running_to_terminated() {
    let mut state = SessionState::new();
    state.transition(SessionPhase::Initializing).unwrap();
    state.transition(SessionPhase::Running).unwrap();
    assert!(state.transition(SessionPhase::Terminated).is_ok());
    assert_eq!(state.phase(), SessionPhase::Terminated);
}

#[test]
fn valid_transition_stopped_to_terminated() {
    let mut state = SessionState::new();
    state.transition(SessionPhase::Initializing).unwrap();
    state.transition(SessionPhase::Running).unwrap();
    state.transition(SessionPhase::Stopped).unwrap();
    assert!(state.transition(SessionPhase::Terminated).is_ok());
    assert_eq!(state.phase(), SessionPhase::Terminated);
}

#[test]
fn valid_transition_terminated_to_uninitialized() {
    let mut state = SessionState::new();
    state.transition(SessionPhase::Initializing).unwrap();
    state.transition(SessionPhase::Running).unwrap();
    state.transition(SessionPhase::Terminated).unwrap();
    assert!(state.transition(SessionPhase::Uninitialized).is_ok());
    assert_eq!(state.phase(), SessionPhase::Uninitialized);
}

#[test]
fn full_lifecycle() {
    let mut state = SessionState::new();
    state.transition(SessionPhase::Initializing).unwrap();
    state.transition(SessionPhase::Running).unwrap();
    state.transition(SessionPhase::Stopped).unwrap();
    state.transition(SessionPhase::Running).unwrap();
    state.transition(SessionPhase::Terminated).unwrap();
    state.transition(SessionPhase::Uninitialized).unwrap();
    assert_eq!(state.phase(), SessionPhase::Uninitialized);
}

#[test]
fn invalid_skip_phase() {
    let mut state = SessionState::new();
    let err = state.transition(SessionPhase::Running).unwrap_err();
    assert!(matches!(err, AppError::InvalidState { .. }));
}

#[test]
fn invalid_backwards_transition() {
    let mut state = SessionState::new();
    state.transition(SessionPhase::Initializing).unwrap();
    state.transition(SessionPhase::Running).unwrap();
    let err = state.transition(SessionPhase::Initializing).unwrap_err();
    assert!(matches!(err, AppError::InvalidState { .. }));
}

#[test]
fn invalid_self_transition() {
    let mut state = SessionState::new();
    let err = state.transition(SessionPhase::Uninitialized).unwrap_err();
    assert!(matches!(err, AppError::InvalidState { .. }));
}

#[test]
fn error_contains_state_names() {
    let mut state = SessionState::new();
    let err = state.transition(SessionPhase::Running).unwrap_err();
    let msg = err.to_string();
    assert!(
        msg.contains("Uninitialized"),
        "should contain 'Uninitialized': {msg}"
    );
    assert!(msg.contains("Running"), "should contain 'Running': {msg}");
}

#[test]
fn failed_transition_keeps_phase() {
    let mut state = SessionState::new();
    state.transition(SessionPhase::Initializing).unwrap();
    assert!(state.transition(SessionPhase::Stopped).is_err());
    assert_eq!(state.phase(), SessionPhase::Initializing);
}

#[test]
fn invalid_state_message_is_exact() {
    let mut state = SessionState::new();
    let err = state.transition(SessionPhase::Terminated).unwrap_err();
    assert_eq!(
        err.to_string(),
        "invalid session state transition: Uninitialized → Terminated"
    );
    assert!(err.is_invalid_params());
}

#[test]
fn error_messages() {
    assert_eq!(AppError::DapTimeout(30).to_string(), "DAP request timed out after 30s");
    assert_eq!(AppError::NoSession.to_string(), "no active debug session");
    assert_eq!(AppError::Codec("x".into()).to_string(), "codec error: x");
    assert!(!AppError::DapTimeout(1).is_invalid_params());
    assert!(AppError::SessionActive.is_invalid_params());
}
