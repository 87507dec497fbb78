//! Inter-agent messages: kinds, identifiers, and the message record itself.

use vstd::prelude::*;

use crate::roles::AgentId;

verus! {

/// What a message means; fixes the semantic category of its content.
#[derive(Debug, Clone, Copy, PartialEq, Eq, Structural)]
pub enum MessageKind {
    /// New task assignment.
    TaskAssignment,
    /// Task completed successfully.
    TaskComplete,
    /// Agent gave up on task.
    TaskGiveUp,
    /// Request to interrupt current work.
    Interrupt,
    /// Architect review/feedback.
    ArchitectReview,
    /// General information.
    Info,
    /// Scorer evaluation (informational only).
    Evaluation,
    /// Scorer observation (informational only).
    Observation,
}

/// The lowercase snake-case wire name of a message kind.
pub open spec fn kind_name(k: MessageKind) -> Seq<char> {
    match k {
        MessageKind::TaskAssignment => "task_assignment"@,
        MessageKind::TaskComplete => "task_complete"@,
        MessageKind::TaskGiveUp => "task_give_up"@,
        MessageKind::Interrupt => "interrupt"@,
        MessageKind::ArchitectReview => "architect_review"@,
        MessageKind::Info => "info"@,
        MessageKind::Evaluation => "evaluation"@,
        MessageKind::Observation => "observation"@,
    }
}

impl MessageKind {
    /// The wire name of this kind.
    pub fn as_str(&self) -> (r: &'static str)
        ensures
            r@ == kind_name(*self),
    {
        match self {
            MessageKind::TaskAssignment => "task_assignment",
            MessageKind::TaskComplete => "task_complete",
            MessageKind::TaskGiveUp => "task_give_up",
            MessageKind::Interrupt => "interrupt",
            MessageKind::ArchitectReview => "architect_review",
            MessageKind::Info => "info",
            MessageKind::Evaluation => "evaluation",
            MessageKind::Observation => "observation",
        }
    }
}

/// A 128-bit identifier, held as two 64-bit halves, most significant first.
#[derive(Debug, Clone, Copy, PartialEq, Eq, Hash, Structural)]
pub struct MsgId {
    pub hi: u64,
    pub lo: u64,
}

/// Relies on uuid::Uuid::new_v4 and uuid::Uuid::as_u64_pair: draws a fresh
/// random version-4 identifier and splits it into its two 64-bit halves.
/// Nothing is promised of the value: it is random.
#[verifier::external_body]
pub fn fresh_msg_id() -> MsgId {
    let (hi, lo) = uuid::Uuid::new_v4().as_u64_pair();
    MsgId { hi, lo }
}

/// The mathematical shape of an [`AgentMessage`].
pub ghost struct AgentMessageView {
    pub id: MsgId,
    pub from: AgentId,
    pub to: AgentId,
    pub kind: MessageKind,
    pub content: Seq<char>,
    pub task_id: Option<MsgId>,
}

/// One message exchanged between agents over a socket.
#[derive(Debug, Clone)]
pub struct AgentMessage {
    /// Unique message ID, freshly generated per message.
    pub id: MsgId,
    /// Sender.
    pub from: AgentId,
    /// Recipient.
    pub to: AgentId,
    /// Message type.
    pub kind: MessageKind,
    /// Message content.
    pub content: String,
    /// Optional task reference.
    pub task_id: Option<MsgId>,
}

impl View for AgentMessage {
    type V = AgentMessageView;

    open spec fn view(&self) -> AgentMessageView {
        AgentMessageView {
            id: self.id,
            from: self.from,
            to: self.to,
            kind: self.kind,
            content: self.content@,
            task_id: self.task_id,
        }
    }
}

impl AgentMessage {
    /// A fresh message with a newly drawn identifier and no task reference.
    pub fn new(from: AgentId, to: AgentId, kind: MessageKind, content: String) -> (r:
        AgentMessage)
        ensures
            r@.from == from,
            r@.to == to,
            r@.kind == kind,
            r@.content == content@,
            r@.task_id is None,
    {
        AgentMessage { id: fresh_msg_id(), from, to, kind, content, task_id: None }
    }

    /// The same message carrying the given task reference.
    pub fn with_task(self, task_id: MsgId) -> (r: AgentMessage)
        ensures
            r@ == (AgentMessageView { task_id: Some(task_id), ..self@ }),
    {
        AgentMessage { task_id: Some(task_id), ..self }
    }
}

} // verus!
