use agent_orchestrator::message::MessageKind;
use agent_orchestrator::roles::{parse_role, AgentId, AgentRole};
use agent_orchestrator::runtime::TaskStatus;

#[test]
fn role_names() {
    assert_eq!(AgentRole::Manager.as_str(), "manager");
    assert_eq!(AgentRole::Architect.as_str(), "architect");
    assert_eq!(AgentRole::Developer.as_str(), "developer");
    assert_eq!(AgentRole::Scorer.as_str(), "scorer");
}

#[test]
fn socket_names() {
    assert_eq!(AgentId::new_singleton(AgentRole::Manager).socket_name(), "manager");
    assert_eq!(AgentId::new_singleton(AgentRole::Scorer).socket_name(), "scorer");
    assert_eq!(AgentId::new_developer(0).socket_name(), "developer-0");
    assert_eq!(AgentId::new_developer(2).socket_name(), "developer-2");
    assert_eq!(AgentId::new_developer(255).socket_name(), "developer-255");
}

#[test]
fn parse_role_is_case_insensitive() {
    assert_eq!(parse_role("manager"), Some(AgentRole::Manager));
    assert_eq!(parse_role("Manager"), Some(AgentRole::Manager));
    assert_eq!(parse_role("ARCHITECT"), Some(AgentRole::Architect));
    assert_eq!(parse_role("Developer"), Some(AgentRole::Developer));
    assert_eq!(parse_role("sCoReR"), Some(AgentRole::Scorer));
    assert_eq!(parse_role("boss"), None);
    assert_eq!(parse_role(""), None);
}

#[test]
fn kind_wire_names() {
    assert_eq!(MessageKind::TaskAssignment.as_str(), "task_assignment");
    assert_eq!(MessageKind::TaskComplete.as_str(), "task_complete");
    assert_eq!(MessageKind::TaskGiveUp.as_str(), "task_give_up");
    assert_eq!(MessageKind::Interrupt.as_str(), "interrupt");
    assert_eq!(MessageKind::ArchitectReview.as_str(), "architect_review");
    assert_eq!(MessageKind::Info.as_str(), "info");
    assert_eq!(MessageKind::Evaluation.as_str(), "evaluation");
    assert_eq!(MessageKind::Observation.as_str(), "observation");
}

#[test]
fn status_briefing_names() {
    assert_eq!(TaskStatus::InProgress.as_str(), "InProgress");
    assert_eq!(TaskStatus::Completed.as_str(), "Completed");
    assert_eq!(TaskStatus::Blocked.as_str(), "Blocked");
}
