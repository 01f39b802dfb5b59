//! Agent-to-agent protocol layer: agent cards, messages with HMAC-SHA256
//! signatures, multi-turn sessions and a router for direct and topic delivery.

pub mod card;
pub mod error;
pub mod hexcodec;
pub mod message;
pub mod router;
pub mod session;
pub mod text;

pub use card::{AgentCard, AgentEndpoint, AuthScheme};
pub use error::A2AError;
pub use hexcodec::{deserialize_binary, serialize_binary};
pub use message::{A2AMessage, A2AMessageType, A2APayload};
pub use router::A2ARouter;
pub use session::{A2ASession, SessionState};
