//! Verified core of a multi-agent orchestrator: agent identities, the
//! inter-agent wire codec and framing, the backend output parser with its
//! routing table, and the supervisor's state machine.

pub mod backend;
pub mod codec;
pub mod message;
pub mod parser;
pub mod roles;
pub mod runtime;
pub mod text;
pub mod transport;
pub mod worker;

pub use message::{AgentMessage, MessageKind, MsgId};
pub use roles::{AgentId, AgentRole, AgentStatus};
