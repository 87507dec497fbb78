use agent_orchestrator::message::MessageKind;
use agent_orchestrator::parser::{parse_agent_output, ParsedOutput};
use agent_orchestrator::roles::{AgentId, AgentRole};
use agent_orchestrator::runtime::RuntimeCommand;

fn manager() -> AgentId {
    AgentId::new_singleton(AgentRole::Manager)
}

fn architect() -> AgentId {
    AgentId::new_singleton(AgentRole::Architect)
}

fn developer(i: u8) -> AgentId {
    AgentId::new_developer(i)
}

fn scorer() -> AgentId {
    AgentId::new_singleton(AgentRole::Scorer)
}

#[test]
fn task_routes_to_architect() {
    let out = parse_agent_output(&manager(), "TASK: design a login button flow");
    assert_eq!(out.len(), 1);
    match &out[0] {
        ParsedOutput::Message(m) => {
            assert_eq!(m.from, manager());
            assert_eq!(m.to, architect());
            assert_eq!(m.kind, MessageKind::TaskAssignment);
            assert_eq!(m.content, "design a login button flow");
            assert!(m.task_id.is_none());
        }
        _ => panic!("expected a routed message"),
    }
}

#[test]
fn approved_targets_named_developer() {
    let out = parse_agent_output(&architect(), "APPROVED: developer-2 wire the button handler");
    assert_eq!(out.len(), 1);
    match &out[0] {
        ParsedOutput::Message(m) => {
            assert_eq!(m.to, developer(2));
            assert_eq!(m.kind, MessageKind::TaskAssignment);
            assert_eq!(m.content, "developer-2 wire the button handler");
        }
        _ => panic!("expected a routed message"),
    }
}

#[test]
fn approved_without_target_falls_back_to_developer_zero() {
    let out = parse_agent_output(&architect(), "APPROVED: just do the thing");
    assert_eq!(out.len(), 1);
    match &out[0] {
        ParsedOutput::Message(m) => assert_eq!(m.to, developer(0)),
        _ => panic!("expected a routed message"),
    }
}

#[test]
fn approved_malformed_suffix_falls_back_to_developer_zero() {
    let out = parse_agent_output(&architect(), "APPROVED: developer-x fix it");
    assert_eq!(out.len(), 1);
    match &out[0] {
        ParsedOutput::Message(m) => assert_eq!(m.to, developer(0)),
        _ => panic!("expected a routed message"),
    }
}

#[test]
fn complete_and_blocked_route_to_manager() {
    let out = parse_agent_output(&developer(1), "COMPLETE: step 0 done");
    assert_eq!(out.len(), 1);
    match &out[0] {
        ParsedOutput::Message(m) => {
            assert_eq!(m.to, manager());
            assert_eq!(m.kind, MessageKind::TaskComplete);
            assert_eq!(m.content, "step 0 done");
        }
        _ => panic!("expected a routed message"),
    }
    let out = parse_agent_output(&developer(1), "BLOCKED: cannot find the file");
    match &out[0] {
        ParsedOutput::Message(m) => {
            assert_eq!(m.kind, MessageKind::TaskGiveUp);
            assert_eq!(m.to, manager());
        }
        _ => panic!("expected a routed message"),
    }
}

#[test]
fn rejected_routes_review_to_manager() {
    let out = parse_agent_output(&architect(), "REJECTED: needs a design first");
    assert_eq!(out.len(), 1);
    match &out[0] {
        ParsedOutput::Message(m) => {
            assert_eq!(m.to, manager());
            assert_eq!(m.kind, MessageKind::ArchitectReview);
        }
        _ => panic!("expected a routed message"),
    }
}

#[test]
fn interrupt_only_from_architect() {
    let out = parse_agent_output(&architect(), "INTERRUPT: stop, the plan changed");
    assert_eq!(out.len(), 1);
    match &out[0] {
        ParsedOutput::Message(m) => {
            assert_eq!(m.to, developer(0));
            assert_eq!(m.kind, MessageKind::Interrupt);
        }
        _ => panic!("expected a routed message"),
    }
    let out = parse_agent_output(&manager(), "INTERRUPT: stop");
    assert_eq!(out.len(), 0);
}

#[test]
fn crew_from_manager_becomes_command() {
    let out = parse_agent_output(&manager(), "CREW: 3");
    assert_eq!(out.len(), 1);
    match &out[0] {
        ParsedOutput::Command(RuntimeCommand::SetCrewSize { count }) => assert_eq!(*count, 3),
        _ => panic!("expected a crew command"),
    }
}

#[test]
fn crew_from_developer_is_dropped() {
    let out = parse_agent_output(&developer(0), "CREW: 2");
    assert_eq!(out.len(), 0);
}

#[test]
fn crew_non_numeric_is_dropped() {
    let out = parse_agent_output(&manager(), "CREW: lots");
    assert_eq!(out.len(), 0);
    let out = parse_agent_output(&manager(), "CREW: 300");
    assert_eq!(out.len(), 0);
    let out = parse_agent_output(&manager(), "CREW:");
    assert_eq!(out.len(), 0);
}

#[test]
fn crew_accepts_a_plus_sign_like_integer_parsing() {
    let out = parse_agent_output(&manager(), "CREW: +2");
    assert_eq!(out.len(), 1);
    match &out[0] {
        ParsedOutput::Command(RuntimeCommand::SetCrewSize { count }) => assert_eq!(*count, 2),
        _ => panic!("expected a crew command"),
    }
}

#[test]
fn relieve_only_from_scorer() {
    let out = parse_agent_output(&scorer(), "RELIEVE: incoherent decisions");
    assert_eq!(out.len(), 1);
    match &out[0] {
        ParsedOutput::Command(RuntimeCommand::RelieveManager { reason }) => {
            assert_eq!(reason, "incoherent decisions")
        }
        _ => panic!("expected a relieve command"),
    }
    let out = parse_agent_output(&manager(), "RELIEVE: myself");
    assert_eq!(out.len(), 0);
}

#[test]
fn evaluation_and_observation_produce_nothing() {
    assert_eq!(parse_agent_output(&scorer(), "EVALUATION: decent").len(), 0);
    assert_eq!(parse_agent_output(&scorer(), "OBSERVATION: slow").len(), 0);
}

#[test]
fn multi_section_order_and_trimming() {
    let text = "APPROVED: developer-0 implement step A\n\nthen also\nCOMPLETE: step 0 done";
    let out = parse_agent_output(&architect(), text);
    assert_eq!(out.len(), 2);
    match &out[0] {
        ParsedOutput::Message(m) => {
            assert_eq!(m.to, developer(0));
            assert_eq!(m.content, "developer-0 implement step A\n\nthen also");
        }
        _ => panic!("expected a routed message"),
    }
    match &out[1] {
        ParsedOutput::Message(m) => {
            assert_eq!(m.to, manager());
            assert_eq!(m.kind, MessageKind::TaskComplete);
            assert_eq!(m.content, "step 0 done");
        }
        _ => panic!("expected a routed message"),
    }
}

#[test]
fn plain_chatter_produces_nothing() {
    let out = parse_agent_output(&manager(), "I think we should proceed carefully.\n\nNo action.");
    assert_eq!(out.len(), 0);
}

#[test]
fn indented_prefix_is_recognized() {
    let out = parse_agent_output(&manager(), "   TASK: with leading spaces");
    assert_eq!(out.len(), 1);
    match &out[0] {
        ParsedOutput::Message(m) => assert_eq!(m.content, "with leading spaces"),
        _ => panic!("expected a routed message"),
    }
}
