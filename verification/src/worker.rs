//! The agent worker's pure half: its configuration, the prompt handed to the
//! backend for an inbound message, and the decision taken on each backend
//! event. The accept loop around these lives with the scheduler.

use vstd::prelude::*;

use crate::backend::{is_final_spec, AgentOutput, AgentOutputView};
use crate::codec::uuid_str;
use crate::message::{AgentMessage, AgentMessageView, MessageKind, MsgId};
use crate::parser::{parse_agent_output, parse_output_spec, matches_output, ParsedOutput};
use crate::roles::{socket_name_of, AgentId, AgentRole};
use crate::text::{chars_to_string, str_to_chars};

verus! {

/// Configuration for an agent worker.
pub struct AgentConfig {
    pub agent_id: AgentId,
    pub working_dir: String,
    pub system_prompt: String,
}

/// The one-line human-readable header for a message kind.
pub open spec fn context_label(k: MessageKind) -> Seq<char> {
    match k {
        MessageKind::TaskAssignment => "NEW TASK"@,
        MessageKind::TaskComplete => "TASK COMPLETE"@,
        MessageKind::TaskGiveUp => "TASK BLOCKED"@,
        MessageKind::Interrupt => "INTERRUPT"@,
        MessageKind::ArchitectReview => "ARCHITECT REVIEW"@,
        MessageKind::Info => "INFO"@,
        MessageKind::Evaluation => "EVALUATION"@,
        MessageKind::Observation => "OBSERVATION"@,
    }
}

/// Runtime form of [`context_label`].
fn context_label_exec(k: MessageKind) -> (r: &'static str)
    ensures
        r@ == context_label(k),
{
    match k {
        MessageKind::TaskAssignment => "NEW TASK",
        MessageKind::TaskComplete => "TASK COMPLETE",
        MessageKind::TaskGiveUp => "TASK BLOCKED",
        MessageKind::Interrupt => "INTERRUPT",
        MessageKind::ArchitectReview => "ARCHITECT REVIEW",
        MessageKind::Info => "INFO",
        MessageKind::Evaluation => "EVALUATION",
        MessageKind::Observation => "OBSERVATION",
    }
}

/// The line naming a message's task reference, in the debug shape of an
/// optional identifier.
pub open spec fn task_id_text(t: Option<MsgId>) -> Seq<char> {
    match t {
        None => "None"@,
        Some(id) => "Some("@ + uuid_str(id) + ")"@,
    }
}

/// The whole prompt a worker hands its backend for one inbound message: the
/// role's standing instructions, a context header with the sender and the
/// content, and the task reference.
pub open spec fn prompt_text(m: AgentMessageView, system_prompt: Seq<char>) -> Seq<char> {
    system_prompt + "\n\n"@ + context_label(m.kind) + " from "@ + socket_name_of(m.from) + ": "@
        + m.content + "\n\nTask ID: "@ + task_id_text(m.task_id)
}

/// Builds the backend prompt for an inbound message.
pub fn format_prompt_for_agent(msg: &AgentMessage, config: &AgentConfig) -> (r: String)
    ensures
        r@ == prompt_text(msg@, config.system_prompt@),
{
    let mut buf = str_to_chars(config.system_prompt.as_str());
    let mut part = str_to_chars("\n\n");
    buf.append(&mut part);
    let mut part = str_to_chars(context_label_exec(msg.kind));
    buf.append(&mut part);
    let mut part = str_to_chars(" from ");
    buf.append(&mut part);
    let name = msg.from.socket_name();
    let mut part = str_to_chars(name.as_str());
    buf.append(&mut part);
    let mut part = str_to_chars(": ");
    buf.append(&mut part);
    let mut part = str_to_chars(msg.content.as_str());
    buf.append(&mut part);
    let mut part = str_to_chars("\n\nTask ID: ");
    buf.append(&mut part);
    match &msg.task_id {
        None => {
            let mut part = str_to_chars("None");
            buf.append(&mut part);
        },
        Some(id) => {
            let mut part = str_to_chars("Some(");
            buf.append(&mut part);
            crate::codec::append_uuid(&mut buf, *id);
            let mut part = str_to_chars(")");
            buf.append(&mut part);
        },
    }
    proof {
        assert(buf@ =~= prompt_text(msg@, config.system_prompt@));
    }
    chars_to_string(&buf)
}

/// One step of the worker's event loop: only a plain text event is parsed
/// for sections, and a terminal event tells the worker to stop consuming the
/// stream.
pub fn handle_backend_event(agent_id: &AgentId, ev: &AgentOutput) -> (r: (Vec<ParsedOutput>, bool))
    ensures
        r.1 == is_final_spec(ev@),
        ev@ matches AgentOutputView::Text(t) ==> {
            &&& r.0@.len() == parse_output_spec(*agent_id, t).len()
            &&& forall|i: int|
                0 <= i < r.0@.len() ==> matches_output(
                    #[trigger] r.0@[i],
                    parse_output_spec(*agent_id, t)[i],
                )
        },
        !(ev@ is Text) ==> r.0@.len() == 0,
{
    let outputs = match ev {
        AgentOutput::Text(t) => parse_agent_output(agent_id, t.as_str()),
        _ => Vec::new(),
    };
    let stop = ev.is_final();
    (outputs, stop)
}

/// The four workers the supervisor starts with: the three singletons and
/// developer zero, in spawn order.
pub fn initial_agent_ids() -> (r: Vec<AgentId>)
    ensures
        r@.len() == 4,
        r@[0] == (AgentId { role: AgentRole::Manager, index: 0 }),
        r@[1] == (AgentId { role: AgentRole::Architect, index: 0 }),
        r@[2] == (AgentId { role: AgentRole::Scorer, index: 0 }),
        r@[3] == (AgentId { role: AgentRole::Developer, index: 0 }),
{
    let mut r: Vec<AgentId> = Vec::new();
    r.push(AgentId::new_singleton(AgentRole::Manager));
    r.push(AgentId::new_singleton(AgentRole::Architect));
    r.push(AgentId::new_singleton(AgentRole::Scorer));
    r.push(AgentId::new_developer(0));
    r
}

/// The first line of a text, for log summaries.
pub fn first_line(text: &str) -> (r: String)
    ensures
        text@.len() > 0 ==> r@ == crate::parser::split_lines(text@)[0],
        text@.len() == 0 ==> r@.len() == 0,
{
    let v = str_to_chars(text);
    let lines = crate::parser::split_lines_exec(&v);
    if lines.len() > 0 {
        proof {
            assert(crate::parser::lines_views(lines@)[0] == crate::parser::split_lines(text@)[0]);
        }
        let first = &lines[0];
        chars_to_string(first)
    } else {
        proof {
            assert(crate::parser::split_lines(text@).len() == 0);
        }
        String::new()
    }
}

} // verus!
