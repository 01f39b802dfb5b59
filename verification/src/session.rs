use vstd::prelude::*;
use crate::message::A2AMessage;

verus! {

/// The state of an agent session.
#[derive(Debug, Clone, PartialEq)]
pub enum SessionState {
    Active,
    Idle,
    Closed,
    Error(String),
}

impl SessionState {
    /// Open states: `Active` or `Idle` (not closed, not failed).
    pub open spec fn is_open(self) -> bool {
        self is Active || self is Idle
    }

    /// The state after a message arrives: an idle session becomes active again, any
    /// other state stays as it is.
    pub open spec fn after_message(self) -> SessionState {
        if self is Idle {
            SessionState::Active
        } else {
            self
        }
    }
}

/// A conversation session between two or more agents.
#[derive(Debug, Clone, PartialEq)]
pub struct A2ASession {
    pub session_id: String,
    pub participants: Vec<String>,
    pub messages: Vec<A2AMessage>,
    pub state: SessionState,
}

impl A2ASession {
    /// Create a new active session with an empty history.
    pub fn new(session_id: String, participants: Vec<String>) -> (session: Self)
        ensures
            session.session_id == session_id,
            session.participants == participants,
            session.messages@ == Seq::<A2AMessage>::empty(),
            session.state == SessionState::Active,
    {
        A2ASession { session_id, participants, messages: Vec::new(), state: SessionState::Active }
    }

    /// Append a message to the session history; an idle session becomes active.
    pub fn add_message(&mut self, message: A2AMessage)
        ensures
            final(self).messages@ == old(self).messages@.push(message),
            final(self).state == old(self).state.after_message(),
            final(self).session_id == old(self).session_id,
            final(self).participants == old(self).participants,
    {
        self.messages.push(message);
        if let SessionState::Idle = self.state {
            self.state = SessionState::Active;
        }
    }

    /// Return the full message history.
    pub fn history(&self) -> (messages: &[A2AMessage])
        ensures
            messages@ == self.messages@,
    {
        self.messages.as_slice()
    }

    /// Whether the session is still active or idle (i.e. not closed or failed).
    pub fn is_active(&self) -> (open: bool)
        ensures
            open == self.state.is_open(),
    {
        match self.state {
            SessionState::Active | SessionState::Idle => true,
            _ => false,
        }
    }

    /// Close the session.
    pub fn close(&mut self)
        ensures
            final(self).state == SessionState::Closed,
            final(self).messages == old(self).messages,
            final(self).session_id == old(self).session_id,
            final(self).participants == old(self).participants,
    {
        self.state = SessionState::Closed;
    }
}

/// A message never changes whether a session is open, and a closed or failed session
/// keeps its state: only `Idle` moves (to `Active`).
pub proof fn law_message_keeps_openness(state: SessionState)
    ensures
        state.after_message().is_open() == state.is_open(),
        !state.is_open() ==> state.after_message() == state,
        state.after_message() !is Idle,
{
}

} // verus!
