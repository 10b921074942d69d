//! Sessions, windows and panes.

use vstd::prelude::*;
use vstd::string::StrSliceExecFns;

use crate::text;
use crate::text::{copy_texts, same};
use crate::tmux::options::{SIDEBAR_COLOR_AGENT_CLAUDE, SIDEBAR_COLOR_AGENT_PREFIX};

verus! {

/// The agent that runs in a pane.
#[derive(Debug, Clone, Copy, PartialEq, Eq, Structural)]
pub enum AgentType {
    Claude,
    Codex,
    OpenCode,
    Unknown,
}

/// The name under which Codex runs.
pub const CODEX_AGENT: &'static str = "codex";

/// The label of an agent. That of the first is what the option of its colour ends in.
pub open spec fn agent_label(agent: AgentType) -> Seq<char> {
    match agent {
        AgentType::Claude => SIDEBAR_COLOR_AGENT_CLAUDE@.skip(
            SIDEBAR_COLOR_AGENT_PREFIX@.len() as int,
        ),
        AgentType::Codex => "codex"@,
        AgentType::OpenCode => "opencode"@,
        AgentType::Unknown => "unknown"@,
    }
}

/// The agent that a label names.
pub open spec fn agent_of(label: Seq<char>) -> Option<AgentType> {
    if label == agent_label(AgentType::Claude) {
        Some(AgentType::Claude)
    } else if label == "codex"@ {
        Some(AgentType::Codex)
    } else if label == "opencode"@ {
        Some(AgentType::OpenCode)
    } else {
        None
    }
}

/// The label of each known agent names that agent, and the word for an unknown one
/// names none.
pub proof fn labels_name_their_agents(agent: AgentType)
    ensures
        agent_of(agent_label(agent)) == if agent is Unknown {
            None
        } else {
            Some(agent)
        },
{
    reveal_strlit("@sidebar_color_agent_claude");
    reveal_strlit("@sidebar_color_agent_");
    reveal_strlit("codex");
    reveal_strlit("opencode");
    reveal_strlit("unknown");
    assert(agent_label(AgentType::Claude).len() == 6);
    assert("codex"@.len() == 5);
    assert("opencode"@.len() == 8);
    assert("unknown"@.len() == 7);
}

impl AgentType {
    /// The agent that a label names.
    pub fn from_label(label: &str) -> (agent: Option<AgentType>)
        ensures
            agent == agent_of(label@),
    {
        if same(label, AgentType::Claude.as_str()) {
            Some(AgentType::Claude)
        } else if same(label, "codex") {
            Some(AgentType::Codex)
        } else if same(label, "opencode") {
            Some(AgentType::OpenCode)
        } else {
            None
        }
    }

    /// The label of an agent.
    pub fn as_str(&self) -> (label: &'static str)
        ensures
            label@ == agent_label(*self),
    {
        match self {
            AgentType::Claude => {
                proof {
                    reveal_strlit("@sidebar_color_agent_claude");
                    reveal_strlit("@sidebar_color_agent_");
                    assert(SIDEBAR_COLOR_AGENT_PREFIX@.len() == 21);
                    assert(SIDEBAR_COLOR_AGENT_CLAUDE@.len() == 27);
                    assert(SIDEBAR_COLOR_AGENT_CLAUDE@.skip(21)
                        =~= SIDEBAR_COLOR_AGENT_CLAUDE@.subrange(21, 27));
                }
                SIDEBAR_COLOR_AGENT_CLAUDE.substring_char(21, 27)
            },
            AgentType::Codex => "codex",
            AgentType::OpenCode => "opencode",
            AgentType::Unknown => "unknown",
        }
    }
}

/// What an agent is doing.
#[derive(Debug, Clone, Copy, PartialEq, Eq, Structural)]
pub enum PaneStatus {
    Running,
    Background,
    Waiting,
    Idle,
    Error,
    Unknown,
}

/// The status that a label names.
pub open spec fn status_of(label: Seq<char>) -> PaneStatus {
    if label == "running"@ {
        PaneStatus::Running
    } else if label == "background"@ {
        PaneStatus::Background
    } else if label == "waiting"@ {
        PaneStatus::Waiting
    } else if label == "idle"@ {
        PaneStatus::Idle
    } else if label == "error"@ {
        PaneStatus::Error
    } else {
        PaneStatus::Unknown
    }
}

impl PaneStatus {
    /// The status that a label names.
    pub fn from_label(label: &str) -> (status: PaneStatus)
        ensures
            status == status_of(label@),
    {
        if same(label, "running") {
            PaneStatus::Running
        } else if same(label, "background") {
            PaneStatus::Background
        } else if same(label, "waiting") {
            PaneStatus::Waiting
        } else if same(label, "idle") {
            PaneStatus::Idle
        } else if same(label, "error") {
            PaneStatus::Error
        } else {
            PaneStatus::Unknown
        }
    }

    /// Whether the agent has work in hand.
    pub open spec fn active(self) -> bool {
        self == PaneStatus::Running || self == PaneStatus::Background || self
            == PaneStatus::Waiting
    }

    /// Whether the agent has work in hand.
    pub fn is_active(&self) -> (yes: bool)
        ensures
            yes == self.active(),
    {
        match self {
            PaneStatus::Running => true,
            PaneStatus::Background => true,
            PaneStatus::Waiting => true,
            _ => false,
        }
    }
}

/// What an agent may do without asking.
#[derive(Debug, Clone, Copy, PartialEq, Eq, Structural)]
pub enum PermissionMode {
    Default,
    Plan,
    AcceptEdits,
    Auto,
    DontAsk,
    BypassPermissions,
    Defer,
}

/// The permission mode that a label names.
pub open spec fn permission_of(label: Seq<char>) -> PermissionMode {
    if label == "plan"@ {
        PermissionMode::Plan
    } else if label == "acceptEdits"@ {
        PermissionMode::AcceptEdits
    } else if label == "auto"@ {
        PermissionMode::Auto
    } else if label == "dontAsk"@ {
        PermissionMode::DontAsk
    } else if label == "bypassPermissions"@ {
        PermissionMode::BypassPermissions
    } else if label == "defer"@ {
        PermissionMode::Defer
    } else {
        PermissionMode::Default
    }
}

impl PermissionMode {
    /// The permission mode that a label names.
    pub fn from_label(label: &str) -> (mode: PermissionMode)
        ensures
            mode == permission_of(label@),
    {
        if same(label, "plan") {
            PermissionMode::Plan
        } else if same(label, "acceptEdits") {
            PermissionMode::AcceptEdits
        } else if same(label, "auto") {
            PermissionMode::Auto
        } else if same(label, "dontAsk") {
            PermissionMode::DontAsk
        } else if same(label, "bypassPermissions") {
            PermissionMode::BypassPermissions
        } else if same(label, "defer") {
            PermissionMode::Defer
        } else {
            PermissionMode::Default
        }
    }
}

/// The git worktree that a pane is attached to.
#[derive(Debug, PartialEq, Eq)]
pub struct WorktreeMetadata {
    pub name: String,
    pub branch: String,
}

impl Default for WorktreeMetadata {
    fn default() -> (worktree: Self)
        ensures
            worktree.name@.len() == 0,
            worktree.branch@.len() == 0,
    {
        WorktreeMetadata { name: String::new(), branch: String::new() }
    }
}

impl Clone for WorktreeMetadata {
    fn clone(&self) -> (copy: Self)
        ensures
            copy == *self,
    {
        WorktreeMetadata { name: self.name.clone(), branch: self.branch.clone() }
    }
}

/// A pane in which an agent runs.
#[derive(Debug, PartialEq, Eq)]
pub struct PaneInfo {
    pub pane_id: String,
    pub pane_active: bool,
    pub status: PaneStatus,
    pub attention: bool,
    pub agent: AgentType,
    pub path: String,
    pub current_command: String,
    pub prompt: String,
    pub prompt_is_response: bool,
    pub started_at: Option<u64>,
    pub wait_reason: String,
    pub permission_mode: PermissionMode,
    pub subagents: Vec<String>,
    pub pane_pid: Option<u32>,
    pub worktree: WorktreeMetadata,
    pub session_id: Option<String>,
    pub session_name: String,
    pub sidebar_spawned: bool,
    pub bg_shell_cmd: Option<String>,
}

/// The model of a pane.
pub struct PaneModel {
    pub pane_id: Seq<char>,
    pub pane_active: bool,
    pub status: PaneStatus,
    pub attention: bool,
    pub agent: AgentType,
    pub path: Seq<char>,
    pub current_command: Seq<char>,
    pub prompt: Seq<char>,
    pub prompt_is_response: bool,
    pub started_at: Option<u64>,
    pub wait_reason: Seq<char>,
    pub permission_mode: PermissionMode,
    pub subagents: Seq<Seq<char>>,
    pub pane_pid: Option<u32>,
    pub worktree_name: Seq<char>,
    pub worktree_branch: Seq<char>,
    pub session_id: Option<Seq<char>>,
    pub session_name: Seq<char>,
    pub sidebar_spawned: bool,
    pub bg_shell_cmd: Option<Seq<char>>,
}

impl View for PaneInfo {
    type V = PaneModel;

    open spec fn view(&self) -> PaneModel {
        PaneModel {
            pane_id: self.pane_id@,
            pane_active: self.pane_active,
            status: self.status,
            attention: self.attention,
            agent: self.agent,
            path: self.path@,
            current_command: self.current_command@,
            prompt: self.prompt@,
            prompt_is_response: self.prompt_is_response,
            started_at: self.started_at,
            wait_reason: self.wait_reason@,
            permission_mode: self.permission_mode,
            subagents: text::texts(self.subagents@),
            pane_pid: self.pane_pid,
            worktree_name: self.worktree.name@,
            worktree_branch: self.worktree.branch@,
            session_id: text::opt(self.session_id),
            session_name: self.session_name@,
            sidebar_spawned: self.sidebar_spawned,
            bg_shell_cmd: text::opt(self.bg_shell_cmd),
        }
    }
}

impl Clone for PaneInfo {
    fn clone(&self) -> (copy: Self)
        ensures
            copy@ == self@,
    {
        PaneInfo {
            pane_id: self.pane_id.clone(),
            pane_active: self.pane_active,
            status: self.status,
            attention: self.attention,
            agent: self.agent,
            path: self.path.clone(),
            current_command: self.current_command.clone(),
            prompt: self.prompt.clone(),
            prompt_is_response: self.prompt_is_response,
            started_at: self.started_at,
            wait_reason: self.wait_reason.clone(),
            permission_mode: self.permission_mode,
            subagents: copy_texts(&self.subagents),
            pane_pid: self.pane_pid,
            worktree: self.worktree.clone(),
            session_id: self.session_id.clone(),
            session_name: self.session_name.clone(),
            sidebar_spawned: self.sidebar_spawned,
            bg_shell_cmd: self.bg_shell_cmd.clone(),
        }
    }
}

/// A tmux window and its agent panes.
#[derive(Debug, Clone)]
pub struct WindowInfo {
    pub window_id: String,
    pub window_name: String,
    pub window_active: bool,
    pub auto_rename: bool,
    pub panes: Vec<PaneInfo>,
}

/// The model of a window.
pub struct WindowModel {
    pub window_id: Seq<char>,
    pub window_name: Seq<char>,
    pub window_active: bool,
    pub auto_rename: bool,
    pub panes: Seq<PaneModel>,
}

/// The models of a list of panes.
pub open spec fn pane_models(panes: Seq<PaneInfo>) -> Seq<PaneModel> {
    panes.map_values(|pane: PaneInfo| pane@)
}

impl View for WindowInfo {
    type V = WindowModel;

    open spec fn view(&self) -> WindowModel {
        WindowModel {
            window_id: self.window_id@,
            window_name: self.window_name@,
            window_active: self.window_active,
            auto_rename: self.auto_rename,
            panes: pane_models(self.panes@),
        }
    }
}

/// A tmux session and its windows.
#[derive(Debug, Clone)]
pub struct SessionInfo {
    pub session_name: String,
    pub windows: Vec<WindowInfo>,
}

/// The model of a session.
pub struct SessionModel {
    pub session_name: Seq<char>,
    pub windows: Seq<WindowModel>,
}

/// The models of a list of windows.
pub open spec fn window_models(windows: Seq<WindowInfo>) -> Seq<WindowModel> {
    windows.map_values(|window: WindowInfo| window@)
}

impl View for SessionInfo {
    type V = SessionModel;

    open spec fn view(&self) -> SessionModel {
        SessionModel { session_name: self.session_name@, windows: window_models(self.windows@) }
    }
}

/// The models of a list of sessions.
pub open spec fn session_models(sessions: Seq<SessionInfo>) -> Seq<SessionModel> {
    sessions.map_values(|session: SessionInfo| session@)
}

/// The panes of the windows, in order.
pub open spec fn panes_of_windows(windows: Seq<WindowInfo>) -> Seq<PaneInfo>
    decreases windows.len(),
{
    if windows.len() == 0 {
        Seq::<PaneInfo>::empty()
    } else {
        panes_of_windows(windows.drop_last()) + windows.last().panes@
    }
}

/// The panes of the sessions, in order.
pub open spec fn panes_of(sessions: Seq<SessionInfo>) -> Seq<PaneInfo>
    decreases sessions.len(),
{
    if sessions.len() == 0 {
        Seq::<PaneInfo>::empty()
    } else {
        panes_of(sessions.drop_last()) + panes_of_windows(sessions.last().windows@)
    }
}

/// The panes of the sessions, in order.
pub fn all_panes(sessions: &Vec<SessionInfo>) -> (panes: Vec<&PaneInfo>)
    ensures
        panes@.len() == panes_of(sessions@).len(),
        forall|i: int| 0 <= i < panes@.len() ==> *(#[trigger] panes@[i]) == panes_of(sessions@)[i],
{
    let mut out: Vec<&PaneInfo> = Vec::new();
    let mut i: usize = 0;
    proof {
        assert(sessions@.take(0) =~= Seq::<SessionInfo>::empty());
    }
    while i < sessions.len()
        invariant
            i <= sessions@.len(),
            out@.len() == panes_of(sessions@.take(i as int)).len(),
            forall|n: int|
                0 <= n < out@.len() ==> *(#[trigger] out@[n]) == panes_of(
                    sessions@.take(i as int),
                )[n],
        decreases sessions@.len() - i,
    {
        let windows = &sessions[i].windows;
        let ghost before = panes_of(sessions@.take(i as int));
        let mut j: usize = 0;
        proof {
            assert(windows@.take(0) =~= Seq::<WindowInfo>::empty());
            assert(before + panes_of_windows(windows@.take(0)) =~= before);
        }
        while j < windows.len()
            invariant
                j <= windows@.len(),
                out@.len() == (before + panes_of_windows(windows@.take(j as int))).len(),
                forall|n: int|
                    0 <= n < out@.len() ==> *(#[trigger] out@[n]) == (before + panes_of_windows(
                        windows@.take(j as int),
                    ))[n],
            decreases windows@.len() - j,
        {
            let panes = &windows[j].panes;
            let ghost so_far = before + panes_of_windows(windows@.take(j as int));
            let mut k: usize = 0;
            while k < panes.len()
                invariant
                    k <= panes@.len(),
                    out@.len() == so_far.len() + k,
                    forall|n: int|
                        0 <= n < out@.len() ==> *(#[trigger] out@[n]) == (so_far + panes@)[n],
                decreases panes@.len() - k,
            {
                out.push(&panes[k]);
                k = k + 1;
            }
            proof {
                assert(windows@.take(j + 1).drop_last() =~= windows@.take(j as int));
                assert(before + panes_of_windows(windows@.take(j + 1)) =~= so_far + panes@);
            }
            j = j + 1;
        }
        proof {
            assert(windows@.take(j as int) =~= windows@);
            assert(sessions@.take(i + 1).drop_last() =~= sessions@.take(i as int));
        }
        i = i + 1;
    }
    proof {
        assert(sessions@.take(i as int) =~= sessions@);
    }
    out
}

/// Each status has a label of its own, and every other label stands for an unknown one.
pub proof fn labels_name_their_status(label: Seq<char>)
    ensures
        status_of(label) is Running <==> label == "running"@,
        status_of(label) is Background <==> label == "background"@,
        status_of(label) is Waiting <==> label == "waiting"@,
        status_of(label) is Idle <==> label == "idle"@,
        status_of(label) is Error <==> label == "error"@,
{
    reveal_strlit("running");
    reveal_strlit("background");
    reveal_strlit("waiting");
    reveal_strlit("idle");
    reveal_strlit("error");
    assert("running"@.len() == 7 && "background"@.len() == 10 && "waiting"@.len() == 7);
    assert("idle"@.len() == 4 && "error"@.len() == 5);
    assert("running"@[0] != "waiting"@[0]);
}

/// Each permission mode but the default has a label of its own, and every other label
/// stands for the default.
pub proof fn labels_name_their_permission_mode(label: Seq<char>)
    ensures
        permission_of(label) is Plan <==> label == "plan"@,
        permission_of(label) is AcceptEdits <==> label == "acceptEdits"@,
        permission_of(label) is Auto <==> label == "auto"@,
        permission_of(label) is DontAsk <==> label == "dontAsk"@,
        permission_of(label) is BypassPermissions <==> label == "bypassPermissions"@,
        permission_of(label) is Defer <==> label == "defer"@,
{
    reveal_strlit("plan");
    reveal_strlit("acceptEdits");
    reveal_strlit("auto");
    reveal_strlit("dontAsk");
    reveal_strlit("bypassPermissions");
    reveal_strlit("defer");
    assert("plan"@.len() == 4 && "acceptEdits"@.len() == 11 && "auto"@.len() == 4);
    assert("dontAsk"@.len() == 7 && "bypassPermissions"@.len() == 17 && "defer"@.len() == 5);
    assert("plan"@[0] != "auto"@[0]);
}

/// An agent has work in hand while it runs, waits, or has a shell in the background.
pub proof fn idle_and_failed_agents_are_not_active(status: PaneStatus)
    ensures
        status.active() <==> status !is Idle && status !is Error && status !is Unknown,
{
}

} // verus!
