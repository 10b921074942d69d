//! What the sidebar knows and shows.

use vstd::prelude::*;

use crate::geometry::Rect;
use crate::git::{GitData, VcsEntry};
use crate::group::RepoGroup;
use crate::state::activity::ActivityState;
use crate::state::extensions::ExtensionsState;
use crate::state::focus::FocusState;
use crate::state::layout::{FrameLayout, NavigationTarget, SubagentTarget};
use crate::state::pane_runtime::PaneRuntimeMap;
use crate::text;
use crate::text::same;
use crate::textmap::TextMap;
use crate::tmux::options::PaneOptions;
use crate::tmux::types::PaneStatus;

pub mod activity;
pub mod extensions;
pub mod focus;
pub mod layout;
pub mod pane_runtime;
pub mod refresh;

verus! {

/// The tab shown in the bottom panel.
#[derive(Debug, Clone, Copy, PartialEq, Eq, Structural)]
pub enum BottomTab {
    Activity,
    GitStatus,
}

/// The panes that are listed, by what their agents do.
#[derive(Debug, Clone, Copy, PartialEq, Eq, Structural)]
pub enum StatusFilter {
    All,
    Running,
    Background,
    Waiting,
    Idle,
    Error,
}

impl StatusFilter {
    /// Whether panes of a status are listed.
    pub open spec fn passes(self, status: PaneStatus) -> bool {
        match self {
            StatusFilter::All => true,
            StatusFilter::Running => status == PaneStatus::Running,
            StatusFilter::Background => status == PaneStatus::Background,
            StatusFilter::Waiting => status == PaneStatus::Waiting,
            StatusFilter::Idle => status == PaneStatus::Idle,
            StatusFilter::Error => status == PaneStatus::Error,
        }
    }

    /// Whether panes of a status are listed.
    pub fn matches(&self, status: &PaneStatus) -> (yes: bool)
        ensures
            yes == self.passes(*status),
    {
        match self {
            StatusFilter::All => true,
            StatusFilter::Running => *status == PaneStatus::Running,
            StatusFilter::Background => *status == PaneStatus::Background,
            StatusFilter::Waiting => *status == PaneStatus::Waiting,
            StatusFilter::Idle => *status == PaneStatus::Idle,
            StatusFilter::Error => *status == PaneStatus::Error,
        }
    }
}

/// The groups that are listed.
#[derive(Debug, PartialEq, Eq)]
pub enum RepoFilter {
    All,
    Repo(String),
}

impl RepoFilter {
    /// Whether a group is listed.
    pub open spec fn passes(self, name: Seq<char>) -> bool {
        match self {
            RepoFilter::All => true,
            RepoFilter::Repo(wanted) => wanted@ == name,
        }
    }

    /// Whether a group is listed.
    pub fn matches_group(&self, name: &str) -> (yes: bool)
        ensures
            yes == self.passes(name@),
    {
        match self {
            RepoFilter::All => true,
            RepoFilter::Repo(wanted) => same(wanted.as_str(), name),
        }
    }
}

/// State that tmux keeps for all sidebars, written back when it changes.
#[derive(Debug, Clone, Copy, PartialEq, Eq, Structural)]
pub enum Save {
    StatusFilter,
    RepoFilter,
    Cursor,
}

/// What all sidebars share.
#[derive(Debug)]
pub struct GlobalState {
    pub selected_pane_row: usize,
    pub status_filter: StatusFilter,
    pub repo_filter: RepoFilter,
    /// What changed and is still to be written to tmux, in order.
    pub saves: Vec<Save>,
}

/// How far a list is scrolled.
#[derive(Debug, Clone, Copy, PartialEq, Eq, Structural)]
pub struct ScrollState {
    pub offset: usize,
    pub total_lines: usize,
    pub visible_height: usize,
}

impl ScrollState {
    /// The greatest offset at which the last line is not passed.
    pub open spec fn max_offset(self) -> int {
        if self.total_lines > self.visible_height {
            self.total_lines - self.visible_height
        } else {
            0
        }
    }

    /// The state `delta` lines on, within the bounds of the list.
    pub open spec fn moved(self, delta: int) -> ScrollState {
        let wanted = self.offset + delta;
        ScrollState {
            offset: (if wanted < 0 {
                0
            } else if wanted > self.max_offset() {
                self.max_offset()
            } else {
                wanted
            }) as usize,
            ..self
        }
    }

    /// Scrolls by `delta` lines, within the bounds of the list.
    pub fn scroll(&mut self, delta: isize)
        ensures
            *final(self) == old(self).moved(delta as int),
    {
        let max: usize = self.total_lines.saturating_sub(self.visible_height);
        let next: i128 = self.offset as i128 + delta as i128;
        self.offset = if next < 0 {
            0
        } else if next > max as i128 {
            max
        } else {
            next as usize
        };
    }
}

impl Default for ScrollState {
    fn default() -> (state: Self)
        ensures
            state == (ScrollState { offset: 0, total_lines: 0, visible_height: 0 }),
    {
        ScrollState { offset: 0, total_lines: 0, visible_height: 0 }
    }
}

/// The lists that scroll.
#[derive(Debug, Clone, Copy, PartialEq, Eq, Structural)]
pub struct Scrolls {
    pub panes: ScrollState,
    pub git: ScrollState,
}

/// When things were last done, in milliseconds.
#[derive(Debug, Clone, Copy, PartialEq, Eq, Structural)]
pub struct Timers {
    pub last_filter_click: u64,
    pub port_scan_initialized: bool,
    pub last_port_refresh: u64,
    pub last_bg_shell_sweep: Option<u64>,
}

/// The labels of sessions, and whether panes may lack them.
pub struct SessionNames {
    pub names: TextMap<String>,
    pub dirty: bool,
}

/// A line of the spawn popup that can be edited.
#[derive(Debug, Clone, Copy, PartialEq, Eq, Structural)]
pub enum SpawnField {
    Task,
    Agent,
    Mode,
}

/// The popup that is open.
#[derive(Debug)]
pub enum PopupState {
    Closed,
    Notices { area: Option<Rect> },
    Repo { selected: usize, area: Option<Rect> },
    SpawnInput {
        input: String,
        agent_idx: usize,
        mode_idx: usize,
        field: SpawnField,
        repo_name: String,
        repo_root: String,
        anchor_y: Option<u16>,
        error: Option<String>,
        area: Option<Rect>,
    },
    RemoveConfirm { pane_id: String, branch: String, error: Option<String>, area: Option<Rect> },
}

/// What the sidebar knows and shows.
pub struct AppState {
    pub tmux_pane: String,
    /// Seconds since the epoch.
    pub now: u64,
    pub show_ports: bool,
    pub repo_groups: Vec<RepoGroup>,
    pub global: GlobalState,
    pub focus_state: FocusState,
    pub layout: FrameLayout,
    pub scrolls: Scrolls,
    pub activity: ActivityState,
    pub timers: Timers,
    pub notices_button_col: Option<u16>,
    pub popup: PopupState,
    pub pane_states: PaneRuntimeMap,
    pub extensions: ExtensionsState,
    pub sessions: SessionNames,
    pub git: GitData,
    pub vcs_entries: Vec<VcsEntry>,
    /// A message, and the millisecond at which it goes away.
    pub flash: Option<(String, u64)>,
    pub selected_subagent_target: Option<SubagentTarget>,
    pub selected_navigation_target: Option<NavigationTarget>,
    pub pane_selection_reveal_pending: bool,
    /// The pane options that changed.
    pub options: PaneOptions,
}

impl AppState {
    /// The state of a sidebar that has just started.
    pub fn new(tmux_pane: String) -> (state: Self)
        ensures
            state.tmux_pane == tmux_pane,
            state.now == 0,
            !state.show_ports,
            state.repo_groups@.len() == 0,
            state.global.selected_pane_row == 0,
            state.global.status_filter == StatusFilter::All,
            state.global.repo_filter is All,
            state.global.saves@.len() == 0,
            state.focus_state.fresh(),
            state.layout.blank(),
            state.activity.fresh(),
            !state.timers.port_scan_initialized,
            state.timers.last_filter_click == 0,
            state.timers.last_bg_shell_sweep is None,
            state.popup is Closed,
            state.pane_states@ == Map::<Seq<char>, crate::state::pane_runtime::PaneRuntimeState>::empty(),
            state.extensions.config is None,
            state.extensions.ui.blank(),
            !state.sessions.dirty,
            state.git.blank(),
            state.vcs_entries@.len() == 0,
            state.flash is None,
            state.selected_subagent_target is None,
            state.selected_navigation_target is None,
            !state.pane_selection_reveal_pending,
            state.options@.len() == 0,
    {
        AppState {
            tmux_pane,
            now: 0,
            show_ports: false,
            repo_groups: Vec::new(),
            global: GlobalState {
                selected_pane_row: 0,
                status_filter: StatusFilter::All,
                repo_filter: RepoFilter::All,
                saves: Vec::new(),
            },
            focus_state: FocusState::new(),
            layout: FrameLayout::default(),
            scrolls: Scrolls { panes: ScrollState::default(), git: ScrollState::default() },
            activity: ActivityState::new(),
            timers: Timers {
                last_filter_click: 0,
                port_scan_initialized: false,
                last_port_refresh: 0,
                last_bg_shell_sweep: None,
            },
            notices_button_col: None,
            popup: PopupState::Closed,
            pane_states: PaneRuntimeMap::new(),
            extensions: ExtensionsState::new(),
            sessions: SessionNames { names: TextMap::new(), dirty: false },
            git: GitData::default(),
            vcs_entries: Vec::new(),
            flash: None,
            selected_subagent_target: None,
            selected_navigation_target: None,
            pane_selection_reveal_pending: false,
            options: PaneOptions::new(),
        }
    }
}

// Laws of scrolling.

/// A list scrolls by as many lines as are asked for, but never past its start or its end;
/// one that fits does not scroll.
pub proof fn scrolling_stays_in_the_list(state: ScrollState, delta: int)
    ensures
        ({
            let after = state.moved(delta);
            &&& after.total_lines == state.total_lines && after.visible_height
                == state.visible_height
            &&& state.total_lines <= state.visible_height ==> after.offset == 0
            &&& state.total_lines > state.visible_height ==> after.offset + state.visible_height
                <= state.total_lines
            &&& 0 <= state.offset + delta && state.offset + delta + state.visible_height
                <= state.total_lines ==> after.offset == state.offset + delta
            &&& state.offset + delta < 0 ==> after.offset == 0
            &&& state.total_lines > state.visible_height && state.offset + delta
                + state.visible_height > state.total_lines ==> after.offset
                + state.visible_height == state.total_lines
        }),
{
}

} // verus!
