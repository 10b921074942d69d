use tmux_agent_sidebar::geometry::{point_in_rect, Rect};
use tmux_agent_sidebar::group::{group_panes, PaneGitInfo, RepoGroup};
use tmux_agent_sidebar::state::extensions::TreeTarget;
use tmux_agent_sidebar::state::layout::{
    ClickEffect, ClickHit, NavigationTarget, SpawnRemoveTarget, SubagentTarget,
};
use tmux_agent_sidebar::state::{AppState, PopupState, RepoFilter, Save, StatusFilter};
use tmux_agent_sidebar::tmux::types::{
    AgentType, PaneInfo, PaneStatus, PermissionMode, WorktreeMetadata,
};

fn pane(id: &str, status: PaneStatus) -> (PaneInfo, PaneGitInfo) {
    let info = PaneInfo {
        pane_id: id.to_string(),
        pane_active: false,
        status,
        attention: false,
        agent: AgentType::Codex,
        path: "/repo".to_string(),
        current_command: String::new(),
        prompt: String::new(),
        prompt_is_response: false,
        started_at: None,
        wait_reason: String::new(),
        permission_mode: PermissionMode::Default,
        subagents: vec![],
        pane_pid: None,
        worktree: WorktreeMetadata::default(),
        session_id: None,
        session_name: String::new(),
        sidebar_spawned: false,
        bg_shell_cmd: None,
    };
    let git = PaneGitInfo {
        repo_root: None,
        branch: None,
        is_worktree: false,
        worktree_name: None,
    };
    (info, git)
}

fn state() -> AppState {
    let mut state = AppState::new("%99".to_string());
    state.repo_groups = vec![
        RepoGroup {
            name: "one".to_string(),
            has_focus: false,
            panes: vec![pane("%1", PaneStatus::Running), pane("%2", PaneStatus::Idle)],
        },
        RepoGroup {
            name: "two".to_string(),
            has_focus: false,
            panes: vec![pane("%3", PaneStatus::Idle)],
        },
    ];
    state.rebuild_row_targets();
    state
}

fn rows(state: &AppState) -> Vec<String> {
    state.layout.pane_row_targets.iter().map(|row| row.pane_id.clone()).collect()
}

#[test]
fn panes_are_counted_by_what_they_do() {
    let state = state();
    assert_eq!(state.status_counts(), (3, 1, 0, 0, 2, 0));
    assert_eq!(group_panes(&state.repo_groups).len(), 3);
}

#[test]
fn a_filter_is_chosen_where_it_is_drawn() {
    // The bar reads " ∑3  ●1  ◎0  ◐0  ○2  ✕0".
    let mut state = state();
    assert!(matches!(state.handle_mouse_click(0, 17, 1_000), ClickEffect::Nothing));
    assert_eq!(state.global.status_filter, StatusFilter::Idle);
    assert_eq!(state.global.saves, vec![Save::StatusFilter]);
    assert_eq!(rows(&state), vec!["%2", "%3"]);
    state.handle_filter_click(5, 2_000);
    assert_eq!(state.global.status_filter, StatusFilter::Running);
    assert_eq!(rows(&state), vec!["%1"]);
}

#[test]
fn clicks_on_the_filter_bar_are_spaced() {
    let mut state = state();
    state.handle_filter_click(17, 1_000);
    state.handle_filter_click(5, 1_149);
    assert_eq!(state.global.status_filter, StatusFilter::Idle);
    state.handle_filter_click(5, 1_150);
    assert_eq!(state.global.status_filter, StatusFilter::Running);
    // A gap between two filters chooses none, and counts as a click.
    state.handle_filter_click(3, 2_000);
    state.handle_filter_click(17, 2_100);
    assert_eq!(state.global.status_filter, StatusFilter::Running);
}

#[test]
fn the_header_has_two_buttons() {
    let mut state = state();
    assert!(matches!(state.handle_secondary_header_click(4), ClickEffect::Nothing));
    state.notices_button_col = Some(4);
    state.layout.repo_button_col = Some(20);
    assert!(matches!(state.handle_mouse_click(1, 4, 1_000), ClickEffect::ToggleNotices));
    assert!(matches!(state.handle_mouse_click(1, 25, 1_000), ClickEffect::ToggleRepo));
    assert!(matches!(state.handle_mouse_click(1, 19, 1_000), ClickEffect::Nothing));
}

#[test]
fn a_popup_takes_clicks_before_what_it_covers() {
    let mut state = state();
    state.popup = PopupState::Repo { selected: 0, area: Some(Rect::new(0, 2, 10, 5)) };
    assert_eq!(state.click_hit(2, 3), ClickHit::Popup);
    assert!(matches!(state.handle_mouse_click(4, 3, 1_000), ClickEffect::ConfirmRepo));
    assert!(matches!(state.popup, PopupState::Repo { selected: 1, .. }));
    state.handle_mouse_click(0, 17, 1_000);
    assert!(matches!(state.popup, PopupState::Closed));
    assert_eq!(state.global.status_filter, StatusFilter::All);
}

#[test]
fn a_click_on_a_pane_selects_it() {
    let mut state = state();
    state.layout.line_to_row = vec![None, Some(0), Some(0), Some(1)];
    assert!(matches!(state.handle_mouse_click(5, 0, 1_000), ClickEffect::Nothing));
    assert_eq!(state.global.selected_pane_row, 1);
    assert_eq!(state.global.saves, vec![Save::Cursor]);
    assert_eq!(state.selected_navigation_target, Some(NavigationTarget::Pane { row: 1 }));
    state.scrolls.panes.offset = 1;
    assert_eq!(state.click_hit(2, 0), ClickHit::PaneRow { row: 0 });
    assert_eq!(state.click_hit(9, 0), ClickHit::Elsewhere);
}

#[test]
fn a_marker_comes_before_its_line() {
    let mut state = state();
    state.layout.line_to_row = vec![Some(0), Some(0)];
    state.layout.spawn_remove_targets = vec![SpawnRemoveTarget {
        rect: Rect::new(10, 3, 3, 1),
        pane_id: "%1".to_string(),
    }];
    match state.handle_mouse_click(3, 11, 1_000) {
        ClickEffect::OpenRemove { pane_id } => assert_eq!(pane_id, "%1"),
        _ => panic!("the marker was clicked"),
    }
    assert_eq!(state.click_hit(3, 9), ClickHit::PaneRow { row: 0 });
    assert!(point_in_rect(3, 12, Rect::new(10, 3, 3, 1)));
    assert!(!point_in_rect(3, 13, Rect::new(10, 3, 3, 1)));
}

#[test]
fn rows_of_collectors_are_clicked_by_what_they_stand_for() {
    let mut state = state();
    let tree = || TreeTarget {
        parent_pane_id: "%1".to_string(),
        provider_id: "codex".to_string(),
        session_id: None,
        agent_id: "root".to_string(),
        node_id: "skills".to_string(),
        detail_token: None,
        inline_detail: None,
        is_disclosure: true,
    };
    let child = || SubagentTarget {
        parent_pane_id: "%1".to_string(),
        provider_id: "codex".to_string(),
        session_id: None,
        agent_id: "child".to_string(),
        node_id: "child".to_string(),
    };
    state.layout.line_to_row = vec![Some(0), Some(0), Some(0)];
    state.layout.subagent_line_targets.insert(1, child());
    state.layout.tree_line_targets.insert(2, tree());
    match state.handle_mouse_click(3, 0, 1_000) {
        ClickEffect::ActivateSubagent(target) => assert!(target.same_target(&child())),
        _ => panic!("a subagent was clicked"),
    }
    assert_eq!(state.selected_subagent_target, Some(child()));
    assert!(matches!(state.handle_mouse_click(4, 0, 1_000), ClickEffect::Nothing));
    assert!(state.extensions.ui.is_expanded("%1", "skills"));
    // The row belongs to another agent than the one that was shown.
    assert_eq!(state.selected_subagent_target, None);
    assert_eq!(state.selected_navigation_target, Some(NavigationTarget::Tree(tree())));
}

#[test]
fn a_repository_filter_lists_one_group() {
    assert!(RepoFilter::All.matches_group("one"));
    let filter = RepoFilter::Repo("one".to_string());
    assert!(filter.matches_group("one"));
    assert!(!filter.matches_group("two"));
    let mut state = state();
    state.global.repo_filter = filter;
    state.rebuild_row_targets();
    assert_eq!(rows(&state), vec!["%1", "%2"]);
}
