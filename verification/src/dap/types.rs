//! DAP events, as re-broadcast to tool handlers.

use vstd::prelude::*;

use crate::dap::state_machine::SessionPhase;
use crate::json::{JsonValue, JsonView};

verus! {

/// DAP events re-broadcast to tool handlers.
#[derive(Debug)]
pub enum DapEvent {
    /// Adapter has finished initializing and is ready for configuration.
    Initialized,
    Stopped { thread_id: i64, reason: String, all_threads_stopped: bool },
    Continued { thread_id: i64 },
    Exited { exit_code: i64 },
    Terminated,
    Output { category: Option<String>, output: String },
    /// Adapter capabilities changed mid-session.
    Capabilities(JsonValue),
    /// Adapter process exited unexpectedly (event loop stream ended).
    AdapterCrashed,
}

/// Mathematical view of a DAP event.
pub enum EventView {
    Initialized,
    Stopped { thread_id: i64, reason: Seq<char>, all_threads_stopped: bool },
    Continued { thread_id: i64 },
    Exited { exit_code: i64 },
    Terminated,
    Output { category: Option<Seq<char>>, output: Seq<char> },
    Capabilities(JsonView),
    AdapterCrashed,
}

impl DapEvent {
    pub open spec fn view(&self) -> EventView {
        match self {
            DapEvent::Initialized => EventView::Initialized,
            DapEvent::Stopped { thread_id, reason, all_threads_stopped } => EventView::Stopped {
                thread_id: *thread_id,
                reason: reason@,
                all_threads_stopped: *all_threads_stopped,
            },
            DapEvent::Continued { thread_id } => EventView::Continued { thread_id: *thread_id },
            DapEvent::Exited { exit_code } => EventView::Exited { exit_code: *exit_code },
            DapEvent::Terminated => EventView::Terminated,
            DapEvent::Output { category, output } => EventView::Output {
                category: match category {
                    Some(c) => Some(c@),
                    None => None,
                },
                output: output@,
            },
            DapEvent::Capabilities(v) => EventView::Capabilities(v@),
            DapEvent::AdapterCrashed => EventView::AdapterCrashed,
        }
    }
}

/// The phase an adapter event moves the session to, if any.
pub open spec fn phase_after(e: EventView) -> Option<SessionPhase> {
    match e {
        EventView::Stopped { .. } => Some(SessionPhase::Stopped),
        EventView::Continued { .. } => Some(SessionPhase::Running),
        EventView::Exited { .. } => Some(SessionPhase::Terminated),
        EventView::Terminated => Some(SessionPhase::Terminated),
        EventView::Initialized => Some(SessionPhase::Running),
        _ => None,
    }
}

/// Whether the event ends a wait for execution to stop: a stop, an exit or termination.
pub open spec fn is_stop_event(e: EventView) -> bool {
    e is Stopped || e is Terminated || e is Exited
}

impl DapEvent {
    /// The phase this event moves the session to, if any.
    pub fn phase_after(&self) -> (p: Option<SessionPhase>)
        ensures
            p == phase_after(self@),
    {
        match self {
            DapEvent::Stopped { .. } => Some(SessionPhase::Stopped),
            DapEvent::Continued { .. } => Some(SessionPhase::Running),
            DapEvent::Exited { .. } => Some(SessionPhase::Terminated),
            DapEvent::Terminated => Some(SessionPhase::Terminated),
            DapEvent::Initialized => Some(SessionPhase::Running),
            _ => None,
        }
    }

    /// Whether the event ends a wait for execution to stop.
    pub fn is_stop_event(&self) -> (b: bool)
        ensures
            b == is_stop_event(self@),
    {
        match self {
            DapEvent::Stopped { .. } => true,
            DapEvent::Terminated => true,
            DapEvent::Exited { .. } => true,
            _ => false,
        }
    }
}

} // verus!
