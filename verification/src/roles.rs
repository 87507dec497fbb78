//! Agent roles and identities.

use vstd::prelude::*;
use vstd::string::StringExecFns;

use crate::text::{append_dec_u64, chars_to_string, dec_str, lower_chars, lower_seq, str_to_chars,
    chars_eq};

verus! {

/// The four roles an agent can hold.
#[derive(Debug, Clone, Copy, PartialEq, Eq, Hash, Structural)]
pub enum AgentRole {
    Manager,
    Architect,
    Developer,
    Scorer,
}

/// The textual name of a role, as it appears on the wire and in socket names.
pub open spec fn role_name(role: AgentRole) -> Seq<char> {
    match role {
        AgentRole::Manager => "manager"@,
        AgentRole::Architect => "architect"@,
        AgentRole::Developer => "developer"@,
        AgentRole::Scorer => "scorer"@,
    }
}

/// The role named by `s`, compared after ASCII lowercasing.
pub open spec fn parse_role_spec(s: Seq<char>) -> Option<AgentRole> {
    let l = lower_seq(s);
    if l == "manager"@ {
        Some(AgentRole::Manager)
    } else if l == "architect"@ {
        Some(AgentRole::Architect)
    } else if l == "developer"@ {
        Some(AgentRole::Developer)
    } else if l == "scorer"@ {
        Some(AgentRole::Scorer)
    } else {
        None
    }
}

impl AgentRole {
    /// The lowercase textual name of the role.
    pub fn as_str(&self) -> (r: &'static str)
        ensures
            r@ == role_name(*self),
    {
        match self {
            AgentRole::Manager => "manager",
            AgentRole::Architect => "architect",
            AgentRole::Developer => "developer",
            AgentRole::Scorer => "scorer",
        }
    }

    /// The standing instructions handed to a fresh agent of this role.
    /// The texts are opaque to the rest of the system.
    pub fn system_prompt(&self) -> (r: &'static str)
        ensures
            r@ == system_prompt_text(*self),
    {
        match self {
            AgentRole::Manager => MANAGER_PROMPT,
            AgentRole::Architect => ARCHITECT_PROMPT,
            AgentRole::Developer => DEVELOPER_PROMPT,
            AgentRole::Scorer => SCORER_PROMPT,
        }
    }
}

/// Standing instructions for the manager role.
pub const MANAGER_PROMPT: &'static str = "You are the manager agent of a small software crew. Break the task into steps and emit TASK: lines for the architect. Emit CREW: <n> to resize the developer pool (1-3).";

/// Standing instructions for the architect role.
pub const ARCHITECT_PROMPT: &'static str = "You are the architect agent. Review each TASK: you receive and emit APPROVED: developer-<i> <work> to hand it to a developer, or REJECTED: <reason> to send it back to the manager.";

/// Standing instructions for the developer role.
pub const DEVELOPER_PROMPT: &'static str = "You are a developer agent. Carry out the work you are handed and emit COMPLETE: <summary> when done or BLOCKED: <reason> when stuck.";

/// Standing instructions for the scorer role.
pub const SCORER_PROMPT: &'static str = "You are the scorer agent. Observe the messages addressed to you and emit EVALUATION: or OBSERVATION: notes. Emit RELIEVE: <reason> if the manager should be replaced.";

/// The instruction text of each role.
pub open spec fn system_prompt_text(role: AgentRole) -> Seq<char> {
    match role {
        AgentRole::Manager => MANAGER_PROMPT@,
        AgentRole::Architect => ARCHITECT_PROMPT@,
        AgentRole::Developer => DEVELOPER_PROMPT@,
        AgentRole::Scorer => SCORER_PROMPT@,
    }
}

/// Parses a role name, case-insensitively.
pub fn parse_role(s: &str) -> (r: Option<AgentRole>)
    ensures
        r == parse_role_spec(s@),
{
    let chars = str_to_chars(s);
    let l = lower_chars(&chars);
    if chars_eq(&l, &str_to_chars("manager")) {
        Some(AgentRole::Manager)
    } else if chars_eq(&l, &str_to_chars("architect")) {
        Some(AgentRole::Architect)
    } else if chars_eq(&l, &str_to_chars("developer")) {
        Some(AgentRole::Developer)
    } else if chars_eq(&l, &str_to_chars("scorer")) {
        Some(AgentRole::Scorer)
    } else {
        None
    }
}

/// Identifies one live agent: a role together with an instance index.
/// Singleton roles (manager, architect, scorer) always use index zero;
/// developers use indices starting at zero.
#[derive(Debug, Clone, Copy, PartialEq, Eq, Hash, Structural)]
pub struct AgentId {
    pub role: AgentRole,
    pub index: u8,
}

/// A well-formed identity: only developers carry a nonzero index.
pub open spec fn wf_agent_id(id: AgentId) -> bool {
    id.role is Developer || id.index == 0
}

/// The stem of the socket file an agent listens on: the role name for
/// singletons, `developer-<index>` for developers.
pub open spec fn socket_name_of(id: AgentId) -> Seq<char> {
    if id.role is Developer {
        "developer-"@ + dec_str(id.index as nat)
    } else {
        role_name(id.role)
    }
}

impl AgentId {
    /// The identity of a singleton role's only instance.
    pub fn new_singleton(role: AgentRole) -> (r: AgentId)
        ensures
            r.role == role,
            r.index == 0,
            wf_agent_id(r),
    {
        AgentId { role, index: 0 }
    }

    /// The identity of the developer with the given index.
    pub fn new_developer(index: u8) -> (r: AgentId)
        ensures
            r.role is Developer,
            r.index == index,
            wf_agent_id(r),
    {
        AgentId { role: AgentRole::Developer, index }
    }

    /// The socket file stem of this agent.
    pub fn socket_name(&self) -> (r: String)
        ensures
            r@ == socket_name_of(*self),
    {
        if matches!(self.role, AgentRole::Developer) {
            let mut buf = str_to_chars("developer-");
            append_dec_u64(&mut buf, self.index as u64);
            chars_to_string(&buf)
        } else {
            String::from_str(self.role.as_str())
        }
    }
}

/// The gross condition an agent reports itself in.
#[derive(Debug, Clone, Copy, PartialEq, Eq, Structural)]
pub enum AgentStatus {
    Idle,
    Working,
    WaitingForInput,
    Interrupted,
}

} // verus!
