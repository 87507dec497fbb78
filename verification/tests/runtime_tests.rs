use agent_orchestrator::roles::{AgentId, AgentRole};
use agent_orchestrator::runtime::{
    build_manager_briefing, handle_command, RuntimeAction, RuntimeCommand, RuntimeState,
    TaskStatus,
};

#[test]
fn crew_resize_spawns_then_aborts() {
    let mut state = RuntimeState::new();
    assert_eq!(state.developer_count, 1);

    let actions = handle_command(&mut state, RuntimeCommand::SetCrewSize { count: 3 }, 0);
    assert_eq!(state.developer_count, 3);
    assert_eq!(actions.len(), 2);
    assert!(matches!(actions[0], RuntimeAction::SpawnDeveloper { index: 1 }));
    assert!(matches!(actions[1], RuntimeAction::SpawnDeveloper { index: 2 }));

    let actions = handle_command(&mut state, RuntimeCommand::SetCrewSize { count: 1 }, 0);
    assert_eq!(state.developer_count, 1);
    assert_eq!(actions.len(), 2);
    assert!(matches!(actions[0], RuntimeAction::AbortDeveloper { index: 1 }));
    assert!(matches!(actions[1], RuntimeAction::AbortDeveloper { index: 2 }));
}

#[test]
fn crew_resize_noop_when_equal() {
    let mut state = RuntimeState::new();
    let actions = handle_command(&mut state, RuntimeCommand::SetCrewSize { count: 1 }, 0);
    assert_eq!(actions.len(), 0);
    assert_eq!(state.developer_count, 1);
}

#[test]
fn crew_count_is_clamped() {
    let mut state = RuntimeState::new();
    let actions = handle_command(&mut state, RuntimeCommand::SetCrewSize { count: 9 }, 0);
    assert_eq!(state.developer_count, 3);
    assert_eq!(actions.len(), 2);

    let actions = handle_command(&mut state, RuntimeCommand::SetCrewSize { count: 0 }, 0);
    assert_eq!(state.developer_count, 1);
    assert_eq!(actions.len(), 2);
}

#[test]
fn relieve_with_cooldown() {
    let mut state = RuntimeState::new();
    assert_eq!(state.manager_generation, 0);

    // t = 0: first relieve succeeds
    let actions = handle_command(
        &mut state,
        RuntimeCommand::RelieveManager { reason: "incoherent decisions".to_string() },
        0,
    );
    assert_eq!(state.manager_generation, 1);
    assert_eq!(actions.len(), 2);
    assert!(matches!(actions[0], RuntimeAction::AbortManager));
    match &actions[1] {
        RuntimeAction::SpawnManager { system_prompt } => {
            assert!(system_prompt.contains("## State Briefing"));
            assert!(system_prompt.contains("**Reason for replacement:** incoherent decisions"));
            assert!(system_prompt.contains("**Manager generation:** 1"));
        }
        _ => panic!("expected a manager spawn"),
    }

    // t = 30 s: inside the cooldown, rejected
    let actions = handle_command(
        &mut state,
        RuntimeCommand::RelieveManager { reason: "again".to_string() },
        30_000,
    );
    assert_eq!(state.manager_generation, 1);
    assert_eq!(actions.len(), 0);

    // t = 61 s: past the cooldown, succeeds
    let actions = handle_command(
        &mut state,
        RuntimeCommand::RelieveManager { reason: "still bad".to_string() },
        61_000,
    );
    assert_eq!(state.manager_generation, 2);
    assert_eq!(actions.len(), 2);
}

#[test]
fn task_update_appends_to_log() {
    let mut state = RuntimeState::new();
    let actions = handle_command(
        &mut state,
        RuntimeCommand::TaskUpdate {
            agent: AgentId::new_developer(0),
            status: TaskStatus::Completed,
            summary: "login button added".to_string(),
        },
        0,
    );
    assert_eq!(actions.len(), 0);
    assert_eq!(state.task_log.len(), 1);
    assert_eq!(state.task_log[0].summary, "login button added");
}

#[test]
fn briefing_with_empty_log() {
    let state = RuntimeState::new();
    let b = build_manager_briefing(&state, "why not");
    assert_eq!(
        b,
        "## State Briefing (you are replacing the previous manager)\n\n\
         **Reason for replacement:** why not\n\n\
         **Manager generation:** 0\n\
         **Active developers:** 1\n\n\
         No task history recorded.\n"
    );
}

#[test]
fn briefing_lists_task_history() {
    let mut state = RuntimeState::new();
    handle_command(
        &mut state,
        RuntimeCommand::TaskUpdate {
            agent: AgentId::new_developer(2),
            status: TaskStatus::Blocked,
            summary: "missing api key".to_string(),
        },
        0,
    );
    handle_command(
        &mut state,
        RuntimeCommand::TaskUpdate {
            agent: AgentId::new_singleton(AgentRole::Manager),
            status: TaskStatus::InProgress,
            summary: "retrying".to_string(),
        },
        0,
    );
    let b = build_manager_briefing(&state, "r");
    assert!(b.contains("### Task History\n"));
    assert!(b.contains("- [developer-2] Blocked: missing api key\n"));
    assert!(b.contains("- [manager] InProgress: retrying\n"));
    assert!(!b.contains("No task history recorded."));
}

#[test]
fn relieve_generation_counts_past_history() {
    let mut state = RuntimeState::new();
    for k in 1..=3u32 {
        let actions = handle_command(
            &mut state,
            RuntimeCommand::RelieveManager { reason: format!("round {}", k) },
            (k as u64) * 100_000,
        );
        assert_eq!(state.manager_generation, k);
        assert_eq!(actions.len(), 2);
    }
}
