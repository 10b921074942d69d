use tmux_agent_sidebar::activity::{TaskProgress, TaskStatus};
use tmux_agent_sidebar::git::{GitData, VcsEntry, VcsKind};
use tmux_agent_sidebar::group::{PaneGitInfo, RepoGroup};
use tmux_agent_sidebar::state::activity::ActivityState;
use tmux_agent_sidebar::state::extensions::CacheKey;
use tmux_agent_sidebar::state::focus::{follow_arguments, Focus, FocusState};
use tmux_agent_sidebar::state::layout::RowTarget;
use tmux_agent_sidebar::state::pane_runtime::PaneRuntimeMap;
use tmux_agent_sidebar::state::AppState;
use tmux_agent_sidebar::tmux::types::{
    AgentType, PaneInfo, PaneStatus, PermissionMode, WorktreeMetadata,
};

#[test]
fn new_initializes_expected_defaults() {
    let state = ActivityState::new();
    assert!(state.entries.is_empty());
    assert_eq!(state.max_entries, 50);
    assert_eq!(state.scroll.offset, 0);
    assert_eq!(state.scroll.total_lines, 0);
    assert_eq!(state.scroll.visible_height, 0);
    assert!(state.log_cache.is_none());
}

#[test]
fn activity_default_delegates_to_new() {
    let default_state = ActivityState::default();
    let new_state = ActivityState::new();
    assert_eq!(default_state.entries.len(), new_state.entries.len());
    assert_eq!(default_state.max_entries, new_state.max_entries);
    assert_eq!(default_state.scroll.offset, new_state.scroll.offset);
    assert!(default_state.log_cache.is_none());
}


#[test]
fn set_flash_stores_message_with_future_expiry() {
    let mut state = AppState::new("%99".into());
    let now_ms: u64 = 10_000;
    state.set_flash("hello".into(), now_ms);
    let (msg, exp) = state.flash.as_ref().expect("flash must be set");
    assert_eq!(msg, "hello");
    assert!(*exp > now_ms);
}

#[test]
fn take_flash_returns_message_then_noop_on_expiry() {
    let mut state = AppState::new("%99".into());
    let now_ms: u64 = 10_000;
    state.set_flash("msg".into(), now_ms);
    assert_eq!(state.take_flash(now_ms).as_deref(), Some("msg"));
    // Force-expire by rewinding the deadline into the past.
    state.flash = Some(("stale".into(), now_ms - 1_000));
    assert!(state.take_flash(now_ms).is_none());
    assert!(state.flash.is_none());
}

#[test]
fn take_flash_none_when_unset() {
    let mut state = AppState::new("%99".into());
    assert!(state.take_flash(10_000).is_none());
}

#[test]
fn apply_git_data_overwrites_previous_state() {
    let mut state = AppState::new("%99".into());
    state.git.branch = "old".into();
    state.apply_git_data(GitData {
        branch: "new".into(),
        diff_stat: Some((3, 1)),
        ..Default::default()
    });
    assert_eq!(state.git.branch, "new");
    assert_eq!(state.git.diff_stat, Some((3, 1)));
}

#[test]
fn cache_key_keeps_session_snapshots_separate() {
    let provider = AgentType::Claude.as_str();
    let first = CacheKey::new(provider, "%1", Some("one"));
    let second = CacheKey::new(provider, "%1", Some("two"));
    assert_ne!(first, second);
}

#[test]
fn focus_default_is_panes() {
    assert_eq!(Focus::default(), Focus::Panes);
}

#[test]
fn focus_state_new_has_expected_initial_values() {
    let state = FocusState::new();
    assert!(!state.sidebar_focused);
    assert_eq!(state.focus, Focus::Panes);
    assert!(state.focused_pane_id.is_none());
    assert!(state.prev_focused_pane_id.is_none());
}

#[test]
fn focus_state_default_delegates_to_new() {
    let state = FocusState::default();
    assert!(!state.sidebar_focused);
    assert_eq!(state.focus, Focus::Panes);
    assert!(state.focused_pane_id.is_none());
    assert!(state.prev_focused_pane_id.is_none());
}



fn test_pane(id: &str) -> PaneInfo {
    PaneInfo {
        pane_id: id.into(),
        pane_active: false,
        status: PaneStatus::Running,
        attention: false,
        agent: AgentType::Claude,
        path: "/tmp".into(),
        current_command: String::new(),
        prompt: String::new(),
        prompt_is_response: false,
        started_at: None,
        wait_reason: String::new(),
        permission_mode: PermissionMode::Default,
        subagents: vec![],
        pane_pid: None,
        worktree: WorktreeMetadata::default(),
        session_id: None,
        session_name: String::new(),
        sidebar_spawned: false,
        bg_shell_cmd: None,
    }
}

#[test]
fn pane_by_id_searches_all_groups() {
    let mut state = AppState::new("%99".into());
    state.repo_groups = vec![
        RepoGroup {
            name: "alpha".into(),
            has_focus: true,
            panes: vec![(test_pane("%1"), PaneGitInfo::default())],
        },
        RepoGroup {
            name: "beta".into(),
            has_focus: false,
            panes: vec![(test_pane("%42"), PaneGitInfo::default())],
        },
    ];

    assert!(state.pane_by_id("%1").is_some());
    assert!(state.pane_by_id("%42").is_some());
    assert!(state.pane_by_id("%does-not-exist").is_none());
}

#[test]
fn selected_pane_tracks_pane_row_targets() {
    let mut state = AppState::new("%99".into());
    state.repo_groups = vec![RepoGroup {
        name: "alpha".into(),
        has_focus: true,
        panes: vec![
            (test_pane("%1"), PaneGitInfo::default()),
            (test_pane("%2"), PaneGitInfo::default()),
        ],
    }];
    state.layout.pane_row_targets = vec![
        RowTarget {
            pane_id: "%1".into(),
        },
        RowTarget {
            pane_id: "%2".into(),
        },
    ];

    state.global.selected_pane_row = 0;
    assert_eq!(
        state.selected_pane().map(|p| p.pane_id.as_str()),
        Some("%1")
    );
    state.global.selected_pane_row = 1;
    assert_eq!(
        state.selected_pane().map(|p| p.pane_id.as_str()),
        Some("%2")
    );
    // Out-of-range cursor → None (not a panic).
    state.global.selected_pane_row = 99;
    assert!(state.selected_pane().is_none());
}

#[test]
fn move_pane_selection_stays_within_bounds() {
    let mut state = AppState::new("%99".into());
    state.layout.pane_row_targets = vec![
        RowTarget {
            pane_id: "%1".into(),
        },
        RowTarget {
            pane_id: "%2".into(),
        },
    ];
    state.global.selected_pane_row = 0;
    assert!(!state.move_pane_selection(-1));
    assert!(state.move_pane_selection(1));
    assert_eq!(state.global.selected_pane_row, 1);
    assert!(!state.move_pane_selection(5));
}

#[test]
fn new_starts_empty() {
    let map = PaneRuntimeMap::new();
    assert!(map.map.is_empty());
    assert!(map.seen.is_empty());
}

#[test]
fn pane_runtime_default_delegates_to_new() {
    let map = PaneRuntimeMap::default();
    assert!(map.map.is_empty());
    assert!(map.seen.is_empty());
}

#[test]
fn entry_mut_creates_default_on_miss() {
    let mut map = PaneRuntimeMap::new();
    let state = map.entry_mut("pane-1");
    assert!(state.ports.is_empty());
    assert!(state.command.is_none());
    assert!(state.task_progress.is_none());
    assert!(state.task_dismissed_total.is_none());
    assert!(state.inactive_since.is_none());
    assert!(state.tab_pref.is_none());
    assert!(state.task_progress_log_mtime.is_none());
}

#[test]
fn entry_mut_returns_existing_entry() {
    let mut map = PaneRuntimeMap::new();
    map.entry_mut("pane-1").ports = vec![8080];
    let state = map.entry_mut("pane-1");
    assert_eq!(state.ports, vec![8080]);
}

#[test]
fn get_returns_none_before_entry() {
    let map = PaneRuntimeMap::new();
    assert!(map.get("pane-1").is_none());
}

#[test]
fn get_returns_some_after_insertion() {
    let mut map = PaneRuntimeMap::new();
    map.entry_mut("pane-1").ports = vec![3000];
    let state = map.get("pane-1").unwrap();
    assert_eq!(state.ports, vec![3000]);
}

#[test]
fn get_mut_returns_some_after_insertion() {
    let mut map = PaneRuntimeMap::new();
    map.entry_mut("pane-1");
    let state = map.get_mut("pane-1").unwrap();
    state.command = Some("cargo run".into());
    assert_eq!(
        map.get("pane-1").unwrap().command.as_deref(),
        Some("cargo run")
    );
}

#[test]
fn get_mut_returns_none_before_insertion() {
    let mut map = PaneRuntimeMap::new();
    assert!(map.get_mut("pane-x").is_none());
}

#[test]
fn contains_key_reflects_insertion() {
    let mut map = PaneRuntimeMap::new();
    assert!(!map.contains_key("pane-1"));
    map.entry_mut("pane-1");
    assert!(map.contains_key("pane-1"));
}

#[test]
fn remove_returns_the_prior_value() {
    let mut map = PaneRuntimeMap::new();
    map.entry_mut("pane-1").ports = vec![8080];
    let removed = map.remove("pane-1").unwrap();
    assert_eq!(removed.ports, vec![8080]);
    assert!(map.get("pane-1").is_none());
    assert!(!map.contains_key("pane-1"));
}

#[test]
fn remove_missing_returns_none() {
    let mut map = PaneRuntimeMap::new();
    assert!(map.remove("nope").is_none());
}



#[test]
fn app_state_pane_accessors_round_trip_through_runtime_map() {
    let mut state = AppState::new("%99".into());
    let pane_id = "%42";

    state.set_pane_ports(pane_id, vec![3000]);
    state.set_pane_command(pane_id, Some("pnpm dev".into()));
    state.set_pane_task_progress(
        pane_id,
        Some(TaskProgress {
            tasks: vec![("t".into(), TaskStatus::InProgress)],
        }),
    );
    state.set_pane_task_dismissed_total(pane_id, Some(7));
    state.set_pane_inactive_since(pane_id, Some(42));

    assert_eq!(state.pane_ports(pane_id), Some(&[3000][..]));
    assert_eq!(state.pane_command(pane_id), Some("pnpm dev"));
    assert_eq!(
        state.pane_task_progress(pane_id).map(|p| p.total()),
        Some(1)
    );
    assert_eq!(state.pane_task_dismissed_total(pane_id), Some(7));
    assert_eq!(state.pane_inactive_since(pane_id), Some(42));

    state.clear_pane_state(pane_id);
    assert!(state.pane_state(pane_id).is_none());
}

#[test]
fn pane_state_mut_creates_entry_on_first_access() {
    let mut state = AppState::new("%99".into());
    assert!(state.pane_state("%1").is_none());
    state.pane_state_mut("%1").inactive_since = Some(5);
    assert_eq!(state.pane_inactive_since("%1"), Some(5));
}

#[test]
fn setters_with_none_clear_previous_values() {
    let mut state = AppState::new("%99".into());
    let pane_id = "%1";
    state.set_pane_command(pane_id, Some("old".into()));
    state.set_pane_command(pane_id, None);
    assert!(state.pane_command(pane_id).is_none());

    state.set_pane_task_dismissed_total(pane_id, Some(3));
    state.set_pane_task_dismissed_total(pane_id, None);
    assert!(state.pane_task_dismissed_total(pane_id).is_none());

    state.set_pane_inactive_since(pane_id, Some(10));
    state.set_pane_inactive_since(pane_id, None);
    assert!(state.pane_inactive_since(pane_id).is_none());
}

#[test]
fn a_lost_focus_keeps_the_focused_pane() {
    let mut state = AppState::new("%99".into());
    state.find_focused_pane(Some("%1".into()));
    state.find_focused_pane(None);
    assert_eq!(state.focus_state.focused_pane_id.as_deref(), Some("%1"));
}

#[test]
fn activating_focuses_the_selected_pane() {
    let mut state = AppState::new("%99".into());
    assert!(state.activate_selected_pane().is_none());
    state.layout.pane_row_targets = vec![RowTarget {
        pane_id: "%3".into(),
    }];
    assert_eq!(state.activate_selected_pane().as_deref(), Some("%3"));
    assert_eq!(state.focus_state.focused_pane_id.as_deref(), Some("%3"));
}

#[test]
fn following_needs_a_window() {
    assert_eq!(follow_arguments("", "/p"), None);
    assert_eq!(
        follow_arguments("@1", ""),
        Some(vec!["--create-only".to_string(), "@1".to_string(), "~".to_string()])
    );
    assert_eq!(
        follow_arguments("@1", "/p").unwrap()[2],
        "/p"
    );
}

#[test]
fn repositories_are_replaced() {
    let mut state = AppState::new("%99".into());
    state.apply_vcs_entries(vec![VcsEntry {
        kind: VcsKind::Git,
        root: "/r".into(),
        branch: "b".into(),
        diff_stat: None,
    }]);
    assert_eq!(state.vcs_entries.len(), 1);
    state.apply_vcs_entries(Vec::new());
    assert!(state.vcs_entries.is_empty());
}

#[test]
fn agents_read_back_from_their_labels() {
    for agent in [AgentType::Claude, AgentType::Codex, AgentType::OpenCode] {
        assert_eq!(AgentType::from_label(agent.as_str()), Some(agent));
    }
    assert_eq!(AgentType::Claude.as_str().len(), 6);
    assert_eq!(AgentType::from_label("nobody"), None);
    assert_eq!(AgentType::from_label(""), None);
}
