use agent_orchestrator::backend::AgentOutput;
use agent_orchestrator::message::{AgentMessage, MessageKind, MsgId};
use agent_orchestrator::parser::ParsedOutput;
use agent_orchestrator::roles::{AgentId, AgentRole};
use agent_orchestrator::worker::{
    first_line, format_prompt_for_agent, handle_backend_event, initial_agent_ids, AgentConfig,
};

fn config_for(role: AgentRole) -> AgentConfig {
    AgentConfig {
        agent_id: AgentId::new_singleton(role),
        working_dir: ".".to_string(),
        system_prompt: "SYSTEM PROMPT".to_string(),
    }
}

#[test]
fn prompt_has_context_header_and_task_line() {
    let msg = AgentMessage {
        id: MsgId { hi: 0, lo: 1 },
        from: AgentId::new_singleton(AgentRole::Manager),
        to: AgentId::new_singleton(AgentRole::Architect),
        kind: MessageKind::TaskAssignment,
        content: "design a login button flow".to_string(),
        task_id: None,
    };
    let prompt = format_prompt_for_agent(&msg, &config_for(AgentRole::Architect));
    assert_eq!(
        prompt,
        "SYSTEM PROMPT\n\nNEW TASK from manager: design a login button flow\n\nTask ID: None"
    );
}

#[test]
fn prompt_shows_task_reference_when_present() {
    let msg = AgentMessage {
        id: MsgId { hi: 0, lo: 1 },
        from: AgentId::new_developer(1),
        to: AgentId::new_singleton(AgentRole::Manager),
        kind: MessageKind::TaskComplete,
        content: "done".to_string(),
        task_id: Some(MsgId { hi: 0, lo: 0xabc }),
    };
    let prompt = format_prompt_for_agent(&msg, &config_for(AgentRole::Manager));
    assert_eq!(
        prompt,
        "SYSTEM PROMPT\n\nTASK COMPLETE from developer-1: done\n\n\
         Task ID: Some(00000000-0000-0000-0000-000000000abc)"
    );
}

#[test]
fn text_events_are_parsed_and_terminal_events_stop() {
    let me = AgentId::new_singleton(AgentRole::Manager);
    let (outs, stop) = handle_backend_event(&me, &AgentOutput::Text("TASK: step one".to_string()));
    assert_eq!(outs.len(), 1);
    assert!(!stop);
    match &outs[0] {
        ParsedOutput::Message(m) => {
            assert_eq!(m.to, AgentId::new_singleton(AgentRole::Architect))
        }
        _ => panic!("expected a routed message"),
    }

    let (outs, stop) = handle_backend_event(
        &me,
        &AgentOutput::Done { text: Some("TASK: ignored".to_string()), is_error: false, session_id: None },
    );
    assert_eq!(outs.len(), 0, "final results are not re-parsed");
    assert!(stop);

    let (outs, stop) = handle_backend_event(&me, &AgentOutput::Error("x".to_string()));
    assert_eq!(outs.len(), 0);
    assert!(stop);
}

#[test]
fn happy_path_through_manager_and_architect() {
    // External input arrives at the manager as an info message; its backend
    // answers with a TASK: line that must reach the architect.
    let manager = AgentId::new_singleton(AgentRole::Manager);
    let external = AgentMessage::new(
        AgentId::new_singleton(AgentRole::Manager),
        manager,
        MessageKind::Info,
        "Add a login button".to_string(),
    );
    let prompt = format_prompt_for_agent(&external, &config_for(AgentRole::Manager));
    assert!(prompt.contains("INFO from manager: Add a login button"));

    let backend_text = AgentOutput::Text("TASK: design a login button flow".to_string());
    let (outs, stop) = handle_backend_event(&manager, &backend_text);
    assert!(!stop);
    assert_eq!(outs.len(), 1);
    match &outs[0] {
        ParsedOutput::Message(m) => {
            assert_eq!(m.to, AgentId::new_singleton(AgentRole::Architect));
            assert_eq!(m.kind, MessageKind::TaskAssignment);
            assert_eq!(m.content, "design a login button flow");
        }
        _ => panic!("expected a routed message"),
    }
}

#[test]
fn initial_roster_is_four_agents() {
    let ids = initial_agent_ids();
    assert_eq!(ids.len(), 4);
    assert_eq!(ids[0], AgentId::new_singleton(AgentRole::Manager));
    assert_eq!(ids[1], AgentId::new_singleton(AgentRole::Architect));
    assert_eq!(ids[2], AgentId::new_singleton(AgentRole::Scorer));
    assert_eq!(ids[3], AgentId::new_developer(0));
}

#[test]
fn first_line_takes_the_head() {
    assert_eq!(first_line("alpha\nbeta"), "alpha");
    assert_eq!(first_line(""), "");
    assert_eq!(first_line("single"), "single");
}
