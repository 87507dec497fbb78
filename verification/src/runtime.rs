//! The supervisor's state machine: runtime commands, the task log, crew
//! resizing and manager replacement, kept apart from the scheduler that
//! carries its decisions out.

use vstd::prelude::*;

use crate::roles::{socket_name_of, AgentId, AgentRole};
use crate::text::{append_dec_u64, chars_to_string, dec_str, str_to_chars};

verus! {

/// Commands sent from agents to the runtime (never over the wire).
#[derive(Debug)]
pub enum RuntimeCommand {
    /// Manager requests N developers (clamped to 1-3).
    SetCrewSize { count: u8 },
    /// Scorer fires the manager.
    RelieveManager { reason: String },
    /// Agent reports task status change.
    TaskUpdate { agent: AgentId, status: TaskStatus, summary: String },
}

/// Status of a task tracked by the runtime.
#[derive(Debug, Clone, Copy, PartialEq, Eq, Structural)]
pub enum TaskStatus {
    InProgress,
    Completed,
    Blocked,
}

/// The name a status carries in the briefing text.
pub open spec fn status_name(s: TaskStatus) -> Seq<char> {
    match s {
        TaskStatus::InProgress => "InProgress"@,
        TaskStatus::Completed => "Completed"@,
        TaskStatus::Blocked => "Blocked"@,
    }
}

impl TaskStatus {
    /// The briefing name of this status.
    pub fn as_str(&self) -> (r: &'static str)
        ensures
            r@ == status_name(*self),
    {
        match self {
            TaskStatus::InProgress => "InProgress",
            TaskStatus::Completed => "Completed",
            TaskStatus::Blocked => "Blocked",
        }
    }
}

/// Record of a task for briefing new managers.
#[derive(Debug, Clone)]
pub struct TaskRecord {
    pub agent: AgentId,
    pub status: TaskStatus,
    pub summary: String,
}

/// The mathematical shape of a [`TaskRecord`].
pub ghost struct TaskRecordView {
    pub agent: AgentId,
    pub status: TaskStatus,
    pub summary: Seq<char>,
}

impl View for TaskRecord {
    type V = TaskRecordView;

    open spec fn view(&self) -> TaskRecordView {
        TaskRecordView { agent: self.agent, status: self.status, summary: self.summary@ }
    }
}

/// The mathematical shape of a [`RuntimeCommand`].
pub ghost enum RuntimeCommandView {
    SetCrewSize { count: u8 },
    RelieveManager { reason: Seq<char> },
    TaskUpdate { agent: AgentId, status: TaskStatus, summary: Seq<char> },
}

impl View for RuntimeCommand {
    type V = RuntimeCommandView;

    open spec fn view(&self) -> RuntimeCommandView {
        match self {
            RuntimeCommand::SetCrewSize { count } => RuntimeCommandView::SetCrewSize {
                count: *count,
            },
            RuntimeCommand::RelieveManager { reason } => RuntimeCommandView::RelieveManager {
                reason: reason@,
            },
            RuntimeCommand::TaskUpdate { agent, status, summary } => RuntimeCommandView::TaskUpdate {
                agent: *agent,
                status: *status,
                summary: summary@,
            },
        }
    }
}

/// How long after a successful relieve further relieves are rejected,
/// in milliseconds.
pub const RELIEVE_COOLDOWN_MS: u64 = 60_000;

/// Mutable state owned by the supervisor.
pub struct RuntimeState {
    /// Currently alive developer count.
    pub developer_count: u8,
    /// Append-only log of task status reports.
    pub task_log: Vec<TaskRecord>,
    /// Incremented on each successful manager replacement.
    pub manager_generation: u32,
    /// Monotonic time of the most recent successful relieve, in milliseconds.
    pub last_relieve: Option<u64>,
}

/// The developer pool always holds between one and three members.
pub open spec fn crew_wf(s: &RuntimeState) -> bool {
    1 <= s.developer_count <= 3
}

/// One step the scheduler must carry out for the supervisor.
#[derive(Debug)]
pub enum RuntimeAction {
    /// Start a developer worker at this index.
    SpawnDeveloper { index: u8 },
    /// Stop the developer worker at this index, releasing its socket.
    AbortDeveloper { index: u8 },
    /// Stop the current manager worker, releasing its socket.
    AbortManager,
    /// Start a fresh manager worker with these standing instructions.
    SpawnManager { system_prompt: String },
}

/// The count a crew request is clamped to.
pub open spec fn clamp_crew(count: u8) -> u8 {
    if count < 1 {
        1
    } else if count > 3 {
        3
    } else {
        count
    }
}

/// The views of the records in a task log.
pub open spec fn log_view(log: Seq<TaskRecord>) -> Seq<TaskRecordView> {
    log.map_values(|r: TaskRecord| r@)
}

/// One line of the briefing's task history.
pub open spec fn record_line(r: TaskRecordView) -> Seq<char> {
    "- ["@ + socket_name_of(r.agent) + "] "@ + status_name(r.status) + ": "@ + r.summary + "\n"@
}

/// The task-history lines of the briefing, in log order.
pub open spec fn history_lines(log: Seq<TaskRecordView>) -> Seq<char>
    decreases log.len(),
{
    if log.len() == 0 {
        Seq::<char>::empty()
    } else {
        history_lines(log.drop_last()) + record_line(log.last())
    }
}

/// The state briefing handed to a replacement manager.
pub open spec fn briefing_text(
    reason: Seq<char>,
    generation: u32,
    developer_count: u8,
    log: Seq<TaskRecordView>,
) -> Seq<char> {
    "## State Briefing (you are replacing the previous manager)\n\n"@
        + "**Reason for replacement:** "@ + reason + "\n\n"@ + "**Manager generation:** "@
        + dec_str(generation as nat) + "\n"@ + "**Active developers:** "@ + dec_str(
        developer_count as nat,
    ) + "\n\n"@ + (if log.len() == 0 {
        "No task history recorded.\n"@
    } else {
        "### Task History\n"@ + history_lines(log)
    })
}

impl RuntimeState {
    /// The state at process start: one developer, an empty log, generation
    /// zero, no relieve yet.
    pub fn new() -> (r: RuntimeState)
        ensures
            r.developer_count == 1,
            r.task_log@ =~= Seq::<TaskRecord>::empty(),
            r.manager_generation == 0,
            r.last_relieve is None,
            crew_wf(&r),
    {
        RuntimeState {
            developer_count: 1,
            task_log: Vec::new(),
            manager_generation: 0,
            last_relieve: None,
        }
    }
}

/// Appends the briefing's task-history line for one record.
fn append_record_line(buf: &mut Vec<char>, r: &TaskRecord)
    ensures
        final(buf)@ == old(buf)@ + record_line(r@),
{
    let mut part = str_to_chars("- [");
    buf.append(&mut part);
    let name = r.agent.socket_name();
    let mut part = str_to_chars(name.as_str());
    buf.append(&mut part);
    let mut part = str_to_chars("] ");
    buf.append(&mut part);
    let mut part = str_to_chars(r.status.as_str());
    buf.append(&mut part);
    let mut part = str_to_chars(": ");
    buf.append(&mut part);
    let mut part = str_to_chars(r.summary.as_str());
    buf.append(&mut part);
    let mut part = str_to_chars("\n");
    buf.append(&mut part);
    proof {
        assert(buf@ =~= old(buf)@ + record_line(r@));
    }
}

/// Builds the state briefing for a replacement manager.
pub fn build_manager_briefing(state: &RuntimeState, reason: &str) -> (r: String)
    ensures
        r@ == briefing_text(
            reason@,
            state.manager_generation,
            state.developer_count,
            log_view(state.task_log@),
        ),
{
    let mut buf = str_to_chars("## State Briefing (you are replacing the previous manager)\n\n");
    let mut part = str_to_chars("**Reason for replacement:** ");
    buf.append(&mut part);
    let mut part = str_to_chars(reason);
    buf.append(&mut part);
    let mut part = str_to_chars("\n\n");
    buf.append(&mut part);
    let mut part = str_to_chars("**Manager generation:** ");
    buf.append(&mut part);
    append_dec_u64(&mut buf, state.manager_generation as u64);
    let mut part = str_to_chars("\n");
    buf.append(&mut part);
    let mut part = str_to_chars("**Active developers:** ");
    buf.append(&mut part);
    append_dec_u64(&mut buf, state.developer_count as u64);
    let mut part = str_to_chars("\n\n");
    buf.append(&mut part);
    if state.task_log.len() == 0 {
        let mut part = str_to_chars("No task history recorded.\n");
        buf.append(&mut part);
        proof {
            assert(log_view(state.task_log@).len() == 0);
            assert(buf@ =~= briefing_text(
                reason@,
                state.manager_generation,
                state.developer_count,
                log_view(state.task_log@),
            ));
        }
    } else {
        let mut part = str_to_chars("### Task History\n");
        buf.append(&mut part);
        let ghost head = buf@;
        let mut i: usize = 0;
        while i < state.task_log.len()
            invariant
                i <= state.task_log@.len(),
                buf@ == head + history_lines(log_view(state.task_log@.take(i as int))),
            decreases state.task_log@.len() - i,
        {
            append_record_line(&mut buf, &state.task_log[i]);
            proof {
                let l = log_view(state.task_log@.take(i + 1 as int));
                assert(l.drop_last() =~= log_view(state.task_log@.take(i as int)));
                assert(l.last() == state.task_log@[i as int]@);
                assert(buf@ =~= head + history_lines(l));
            }
            i = i + 1;
        }
        proof {
            assert(state.task_log@.take(state.task_log@.len() as int) =~= state.task_log@);
            assert(buf@ =~= briefing_text(
                reason@,
                state.manager_generation,
                state.developer_count,
                log_view(state.task_log@),
            ));
        }
    }
    chars_to_string(&buf)
}

/// What [`handle_command`] promises for a crew-size request: the pool is set
/// to the clamped count and one spawn or abort action is produced per index
/// that joins or leaves, in ascending order; nothing else moves.
pub open spec fn crew_size_post(
    pre: RuntimeState,
    post: RuntimeState,
    count: u8,
    actions: Seq<RuntimeAction>,
) -> bool {
    let target = clamp_crew(count);
    let cur = pre.developer_count;
    &&& post.developer_count == target
    &&& post.task_log@ == pre.task_log@
    &&& post.manager_generation == pre.manager_generation
    &&& post.last_relieve == pre.last_relieve
    &&& if target == cur {
        actions.len() == 0
    } else if target > cur {
        &&& actions.len() == target - cur
        &&& forall|i: int|
            0 <= i < actions.len() ==> (#[trigger] actions[i] matches
                RuntimeAction::SpawnDeveloper { index } && index == cur + i)
    } else {
        &&& actions.len() == cur - target
        &&& forall|i: int|
            0 <= i < actions.len() ==> (#[trigger] actions[i] matches
                RuntimeAction::AbortDeveloper { index } && index == target + i)
    }
}

/// Whether a relieve request at `now_ms` falls inside the cooldown window.
pub open spec fn in_cooldown(pre: RuntimeState, now_ms: u64) -> bool {
    pre.last_relieve matches Some(t) && now_ms - t < RELIEVE_COOLDOWN_MS
}

/// What [`handle_command`] promises for a relieve request: inside the
/// cooldown nothing moves; otherwise the generation rises by one, the time is
/// recorded, and the manager is replaced under a briefed prompt.
pub open spec fn relieve_post(
    pre: RuntimeState,
    post: RuntimeState,
    reason: Seq<char>,
    now_ms: u64,
    actions: Seq<RuntimeAction>,
) -> bool {
    if in_cooldown(pre, now_ms) {
        &&& post.developer_count == pre.developer_count
        &&& post.task_log@ == pre.task_log@
        &&& post.manager_generation == pre.manager_generation
        &&& post.last_relieve == pre.last_relieve
        &&& actions.len() == 0
    } else {
        &&& post.developer_count == pre.developer_count
        &&& post.task_log@ == pre.task_log@
        &&& post.manager_generation == pre.manager_generation + 1
        &&& post.last_relieve == Some(now_ms)
        &&& actions.len() == 2
        &&& actions[0] is AbortManager
        &&& actions[1] matches RuntimeAction::SpawnManager { system_prompt } && system_prompt@
            == replacement_prompt_text(
            briefing_text(
                reason,
                (pre.manager_generation + 1) as u32,
                pre.developer_count,
                log_view(pre.task_log@),
            ),
        )
    }
}

/// Carries one runtime command out against the state, returning the actions
/// the scheduler must perform, in order. This is the whole decision logic of
/// the supervisor; the scheduler only executes what comes back.
pub fn handle_command(state: &mut RuntimeState, cmd: RuntimeCommand, now_ms: u64) -> (actions: Vec<
    RuntimeAction,
>)
    requires
        crew_wf(&*old(state)),
        old(state).last_relieve matches Some(t) ==> t <= now_ms,
        old(state).manager_generation < u32::MAX,
    ensures
        crew_wf(&*final(state)),
        cmd@ matches RuntimeCommandView::SetCrewSize { count } ==> crew_size_post(
            *old(state),
            *final(state),
            count,
            actions@,
        ),
        cmd@ matches RuntimeCommandView::RelieveManager { reason } ==> relieve_post(
            *old(state),
            *final(state),
            reason,
            now_ms,
            actions@,
        ),
        cmd@ matches RuntimeCommandView::TaskUpdate { agent, status, summary } ==> {
            &&& final(state).task_log@.len() == old(state).task_log@.len() + 1
            &&& final(state).task_log@.drop_last() == old(state).task_log@
            &&& final(state).task_log@.last()@ == (TaskRecordView { agent, status, summary })
            &&& final(state).developer_count == old(state).developer_count
            &&& final(state).manager_generation == old(state).manager_generation
            &&& final(state).last_relieve == old(state).last_relieve
            &&& actions@.len() == 0
        },
{
    let mut actions: Vec<RuntimeAction> = Vec::new();
    match cmd {
        RuntimeCommand::SetCrewSize { count } => {
            let target: u8 = if count < 1 {
                1
            } else if count > 3 {
                3
            } else {
                count
            };
            let cur = state.developer_count;
            if target > cur {
                let mut i: u8 = cur;
                while i < target
                    invariant
                        cur <= i <= target,
                        actions@.len() == i - cur,
                        forall|j: int|
                            0 <= j < actions@.len() ==> (#[trigger] actions@[j] matches
                                RuntimeAction::SpawnDeveloper { index } && index == cur + j),
                    decreases target - i,
                {
                    actions.push(RuntimeAction::SpawnDeveloper { index: i });
                    i = i + 1;
                }
            } else if target < cur {
                let mut i: u8 = target;
                while i < cur
                    invariant
                        target <= i <= cur,
                        actions@.len() == i - target,
                        forall|j: int|
                            0 <= j < actions@.len() ==> (#[trigger] actions@[j] matches
                                RuntimeAction::AbortDeveloper { index } && index == target + j),
                    decreases cur - i,
                {
                    actions.push(RuntimeAction::AbortDeveloper { index: i });
                    i = i + 1;
                }
            }
            state.developer_count = target;
        },
        RuntimeCommand::RelieveManager { reason } => {
            let blocked = match state.last_relieve {
                Some(t) => now_ms - t < RELIEVE_COOLDOWN_MS,
                None => false,
            };
            if !blocked {
                state.manager_generation = state.manager_generation + 1;
                state.last_relieve = Some(now_ms);
                let briefing = build_manager_briefing(state, reason.as_str());
                let prompt = compose_replacement_prompt(briefing.as_str());
                actions.push(RuntimeAction::AbortManager);
                actions.push(RuntimeAction::SpawnManager { system_prompt: prompt });
            }
        },
        RuntimeCommand::TaskUpdate { agent, status, summary } => {
            state.task_log.push(TaskRecord { agent, status, summary });
            proof {
                assert(state.task_log@.drop_last() =~= old(state).task_log@);
            }
        },
    }
    actions
}

/// The full standing instructions of a replacement manager: the manager
/// prompt, a blank line, then the briefing.
pub open spec fn replacement_prompt_text(briefing: Seq<char>) -> Seq<char> {
    crate::roles::system_prompt_text(AgentRole::Manager) + "\n\n"@ + briefing
}

/// Composes the replacement manager's standing instructions.
pub fn compose_replacement_prompt(briefing: &str) -> (r: String)
    ensures
        r@ == replacement_prompt_text(briefing@),
{
    let role = AgentRole::Manager;
    let mut buf = str_to_chars(role.system_prompt());
    let mut part = str_to_chars("\n\n");
    buf.append(&mut part);
    let mut part = str_to_chars(briefing);
    buf.append(&mut part);
    chars_to_string(&buf)
}

} // verus!
