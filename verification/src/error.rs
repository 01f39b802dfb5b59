use vstd::prelude::*;
use vstd::string::StringExecFns;

verus! {

/// Errors that can occur during A2A operations.
#[derive(Debug, Clone, PartialEq)]
pub enum A2AError {
    AgentNotFound(String),
    NoRoute(String),
    InvalidPayload(String),
    AuthFailed(String),
    Timeout,
    Serialization(String),
}

impl A2AError {
    /// The human-readable text of the error.
    pub open spec fn text(self) -> Seq<char> {
        match self {
            A2AError::AgentNotFound(id) => "agent not found: "@ + id@,
            A2AError::NoRoute(msg) => "no route: "@ + msg@,
            A2AError::InvalidPayload(msg) => "invalid payload: "@ + msg@,
            A2AError::AuthFailed(msg) => "auth failed: "@ + msg@,
            A2AError::Timeout => "timeout"@,
            A2AError::Serialization(msg) => "serialization error: "@ + msg@,
        }
    }

    /// Render the error as text, e.g. `agent not found: x`.
    pub fn to_string(&self) -> (s: String)
        ensures
            s@ == self.text(),
    {
        match self {
            A2AError::AgentNotFound(id) => String::from_str("agent not found: ").concat(id.as_str()),
            A2AError::NoRoute(msg) => String::from_str("no route: ").concat(msg.as_str()),
            A2AError::InvalidPayload(msg) => String::from_str("invalid payload: ").concat(msg.as_str()),
            A2AError::AuthFailed(msg) => String::from_str("auth failed: ").concat(msg.as_str()),
            A2AError::Timeout => String::from_str("timeout"),
            A2AError::Serialization(msg) => String::from_str("serialization error: ").concat(msg.as_str()),
        }
    }
}

} // verus!
