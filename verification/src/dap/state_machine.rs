//! Session lifecycle phases and their validated transitions.

use vstd::prelude::*;

use crate::error::AppError;


verus! {

/// DAP session lifecycle phases.
#[derive(Debug, Clone, Copy, PartialEq, Eq, Structural)]
pub enum SessionPhase {
    Uninitialized,
    Initializing,
    Running,
    Stopped,
    Terminated,
}

/// The transitions the lifecycle allows:
/// Uninitialized → Initializing → Running ⇄ Stopped, Running/Stopped → Terminated → Uninitialized.
pub open spec fn valid_transition(from: SessionPhase, to: SessionPhase) -> bool {
    match (from, to) {
        (SessionPhase::Uninitialized, SessionPhase::Initializing) => true,
        (SessionPhase::Initializing, SessionPhase::Running) => true,
        (SessionPhase::Stopped, SessionPhase::Running) => true,
        (SessionPhase::Running, SessionPhase::Stopped) => true,
        (SessionPhase::Running, SessionPhase::Terminated) => true,
        (SessionPhase::Stopped, SessionPhase::Terminated) => true,
        (SessionPhase::Terminated, SessionPhase::Uninitialized) => true,
        _ => false,
    }
}

impl SessionPhase {
    /// The display name of the phase.
    pub open spec fn name_text(self) -> Seq<char> {
        match self {
            SessionPhase::Uninitialized => "Uninitialized"@,
            SessionPhase::Initializing => "Initializing"@,
            SessionPhase::Running => "Running"@,
            SessionPhase::Stopped => "Stopped"@,
            SessionPhase::Terminated => "Terminated"@,
        }
    }

    /// The display name of the phase, as a string.
    pub fn to_string(&self) -> (s: String)
        ensures
            s@ == self.name_text(),
    {
        let text = match self {
            SessionPhase::Uninitialized => "Uninitialized",
            SessionPhase::Initializing => "Initializing",
            SessionPhase::Running => "Running",
            SessionPhase::Stopped => "Stopped",
            SessionPhase::Terminated => "Terminated",
        };
        text.to_owned()
    }
}

/// Tracks the current session phase with validated transitions.
#[derive(Debug)]
pub struct SessionState {
    phase: SessionPhase,
}

impl View for SessionState {
    type V = SessionPhase;

    closed spec fn view(&self) -> SessionPhase {
        self.phase
    }
}

impl Default for SessionState {
    fn default() -> (s: Self)
        ensures
            s@ == SessionPhase::Uninitialized,
    {
        Self::new()
    }
}

impl SessionState {
    /// A fresh session state, in `Uninitialized`.
    pub fn new() -> (s: Self)
        ensures
            s@ == SessionPhase::Uninitialized,
    {
        SessionState { phase: SessionPhase::Uninitialized }
    }

    /// The current phase.
    pub fn phase(&self) -> (p: SessionPhase)
        ensures
            p == self@,
    {
        self.phase
    }

    /// Attempt a state transition. A valid one moves the state to `to`; an
    /// invalid one leaves the state unchanged and reports both phase names.
    pub fn transition(&mut self, to: SessionPhase) -> (res: Result<(), AppError>)
        ensures
            res is Ok <==> valid_transition(old(self)@, to),
            res is Ok ==> final(self)@ == to,
            res is Err ==> final(self)@ == old(self)@,
            res matches Err(e) ==> e == (AppError::InvalidState {
                from: e->from,
                to: e->to,
            }) && e->from@ == old(self)@.name_text() && e->to@ == to.name_text(),
    {
        let valid = match (self.phase, to) {
            (SessionPhase::Uninitialized, SessionPhase::Initializing) => true,
            (SessionPhase::Initializing, SessionPhase::Running) => true,
            (SessionPhase::Stopped, SessionPhase::Running) => true,
            (SessionPhase::Running, SessionPhase::Stopped) => true,
            (SessionPhase::Running, SessionPhase::Terminated) => true,
            (SessionPhase::Stopped, SessionPhase::Terminated) => true,
            (SessionPhase::Terminated, SessionPhase::Uninitialized) => true,
            _ => false,
        };
        if valid {
            self.phase = to;
            Ok(())
        } else {
            Err(AppError::InvalidState { from: self.phase.to_string(), to: to.to_string() })
        }
    }
}

/// No phase moves to itself: a repeated transition is always refused.
pub proof fn lemma_no_self_transition(p: SessionPhase)
    ensures
        !valid_transition(p, p),
{
}

/// A session enters `Initializing` only from `Uninitialized`, and returns to
/// `Uninitialized` only once it has terminated; a terminated session can
/// only be reset.
pub proof fn lemma_lifecycle_ends(from: SessionPhase, to: SessionPhase)
    ensures
        valid_transition(from, SessionPhase::Initializing) <==> from == SessionPhase::Uninitialized,
        valid_transition(from, SessionPhase::Uninitialized) <==> from == SessionPhase::Terminated,
        valid_transition(SessionPhase::Terminated, to) <==> to == SessionPhase::Uninitialized,
{
}

/// Execution only resumes (`Running`) after initialization or a stop, and
/// only a running session stops.
pub proof fn lemma_run_and_stop(from: SessionPhase)
    ensures
        valid_transition(from, SessionPhase::Running) <==> (from == SessionPhase::Initializing || from
            == SessionPhase::Stopped),
        valid_transition(from, SessionPhase::Stopped) <==> from == SessionPhase::Running,
{
}

} // verus!
