use tmux_agent_sidebar::activity::{TaskProgress, TaskStatus};
use tmux_agent_sidebar::extension::{
    AgentNode, BuiltinSummary, Evidence, ExtensionsConfig, Fact, Inspection, Reply, TreeNode,
};
use tmux_agent_sidebar::geometry::Rect;
use tmux_agent_sidebar::git::{GitFileEntry, VcsEntry, VcsKind};
use tmux_agent_sidebar::group::{PaneGitInfo, RepoGroup};
use tmux_agent_sidebar::state::extensions::{CapabilityUiState, TreeTarget};
use tmux_agent_sidebar::state::focus::Focus;
use tmux_agent_sidebar::state::layout::{ClickEffect, ClickHit, NavigationTarget, Scrolled};
use tmux_agent_sidebar::state::{AppState, PopupState, SpawnField, StatusFilter};
use tmux_agent_sidebar::tmux::types::{
    AgentType, PaneInfo, PaneStatus, PermissionMode, WorktreeMetadata,
};
use tmux_agent_sidebar::ui::bottom::git::{
    diff_stat_spans, draw_git_content, render_git_header, FileRow, GitContent, GitView, HeaderRow,
    Section,
};
use tmux_agent_sidebar::ui::panes::popups::{
    draw_detail, render_flash_banner, render_remove_confirm_popup, render_repo_popup,
    render_spawn_input_popup, RemoveContent,
};
use tmux_agent_sidebar::ui::panes::row::{
    render_extension_tree, render_pane_lines_with_ports, sidebar_remove_marker_col, PaneRow,
};
use tmux_agent_sidebar::ui::panes::row_collector::collect;
use tmux_agent_sidebar::ui::panes::{
    anchor_below, center_popup, compute_scroll_offset, draw_agents, PaneLayout,
};
use tmux_agent_sidebar::ui::text::{
    char_widths, display_width, fit_head, fit_tail, tail_fit, truncate_to_width,
};

fn focused_scroll_state(line_to_row: Vec<Option<usize>>, offset: usize) -> AppState {
    let mut state = AppState::new("%sidebar".into());
    state.focus_state.sidebar_focused = true;
    state.focus_state.focus = Focus::Panes;
    state.global.selected_pane_row = 0;
    state.layout.line_to_row = line_to_row;
    state.scrolls.panes.offset = offset;
    state
}

fn list_area(height: u16) -> Rect {
    Rect::new(0, 0, 40, height)
}

#[test]
fn oversized_selected_block_never_alternates_between_edges() {
    for initial_offset in [0, 18] {
        let mut state = focused_scroll_state(vec![Some(0); 36], initial_offset);
        for _ in 0..30 {
            assert_eq!(
                compute_scroll_offset(&mut state, 36, list_area(18)),
                initial_offset
            );
        }
    }
}

#[test]
fn oversized_tree_anchors_the_selected_navigation_line_when_entering() {
    let mut lines = vec![None; 20];
    lines.extend(std::iter::repeat_n(Some(0), 36));
    lines.extend(std::iter::repeat_n(None, 4));
    let mut state = focused_scroll_state(lines, 0);
    let target = TreeTarget {
        parent_pane_id: "%1".into(),
        provider_id: AgentType::Claude.as_str().into(),
        session_id: None,
        agent_id: "agent".into(),
        node_id: "skill:review".into(),
        detail_token: None,
        inline_detail: None,
        is_disclosure: false,
    };
    state.layout.tree_line_targets.insert(38, target.clone());
    state.selected_navigation_target = Some(NavigationTarget::Tree(target));

    assert_eq!(compute_scroll_offset(&mut state, 60, list_area(18)), 38);
    assert_eq!(compute_scroll_offset(&mut state, 60, list_area(18)), 38);
}

#[test]
fn shrinking_viewport_preserves_an_intersecting_oversized_block() {
    let mut lines = vec![None; 20];
    lines.extend(std::iter::repeat_n(Some(0), 36));
    lines.extend(std::iter::repeat_n(None, 4));
    let mut state = focused_scroll_state(lines, 0);

    assert_eq!(compute_scroll_offset(&mut state, 60, list_area(40)), 16);
    assert_eq!(compute_scroll_offset(&mut state, 60, list_area(18)), 16);
    assert_eq!(compute_scroll_offset(&mut state, 60, list_area(8)), 16);
}

#[test]
fn normal_selected_block_uses_existing_autoscroll_and_clamps_offset() {
    let mut lines = vec![None; 20];
    lines.extend(std::iter::repeat_n(Some(0), 3));
    lines.extend(std::iter::repeat_n(None, 7));
    let mut state = focused_scroll_state(lines, 0);

    assert_eq!(compute_scroll_offset(&mut state, 30, list_area(18)), 5);
    assert_eq!(compute_scroll_offset(&mut state, 30, list_area(18)), 5);

    state.scrolls.panes.offset = 99;
    assert_eq!(compute_scroll_offset(&mut state, 30, list_area(18)), 12);
}

#[test]
fn pane_layout_splits_area_into_filter_secondary_list() {
    let area = Rect {
        x: 0,
        y: 0,
        width: 40,
        height: 20,
    };
    let layout = PaneLayout::compute(area);
    assert_eq!(layout.filter_area.x, 0);
    assert_eq!(layout.filter_area.y, 0);
    assert_eq!(layout.filter_area.width, 40);
    assert_eq!(layout.filter_area.height, 1);
    assert_eq!(layout.secondary_area.y, 1);
    assert_eq!(layout.secondary_area.height, 1);
    assert_eq!(layout.list_area.y, 2);
    assert_eq!(layout.list_area.height, 18);
    assert_eq!(layout.list_area.width, 40);
}

#[test]
fn pane_layout_handles_tiny_area() {
    // Only 1 row available — filter gets it, secondary and list collapse to 0.
    let area = Rect {
        x: 0,
        y: 0,
        width: 40,
        height: 1,
    };
    let layout = PaneLayout::compute(area);
    assert_eq!(layout.filter_area.height, 1);
    assert_eq!(layout.secondary_area.height, 0);
    assert_eq!(layout.list_area.height, 0);
}

#[test]
fn pane_layout_handles_zero_height() {
    let area = Rect {
        x: 0,
        y: 0,
        width: 40,
        height: 0,
    };
    let layout = PaneLayout::compute(area);
    assert_eq!(layout.filter_area.height, 0);
    assert_eq!(layout.secondary_area.height, 0);
    assert_eq!(layout.list_area.height, 0);
}

#[test]
fn pane_layout_respects_non_zero_origin() {
    let area = Rect {
        x: 5,
        y: 10,
        width: 30,
        height: 15,
    };
    let layout = PaneLayout::compute(area);
    assert_eq!(layout.filter_area.x, 5);
    assert_eq!(layout.filter_area.y, 10);
    assert_eq!(layout.secondary_area.x, 5);
    assert_eq!(layout.secondary_area.y, 11);
    assert_eq!(layout.list_area.x, 5);
    assert_eq!(layout.list_area.y, 12);
    assert_eq!(layout.list_area.height, 13);
}

fn make_pane(id: &str, status: PaneStatus) -> PaneInfo {
    PaneInfo {
        pane_id: id.into(),
        pane_active: false,
        status,
        attention: false,
        agent: AgentType::Claude,
        path: "/tmp/repo".into(),
        current_command: String::new(),
        prompt: String::new(),
        prompt_is_response: false,
        started_at: None,
        wait_reason: String::new(),
        permission_mode: PermissionMode::Default,
        subagents: vec![],
        pane_pid: None,
        worktree: WorktreeMetadata::default(),
        session_id: None,
        session_name: String::new(),
        sidebar_spawned: false,
        bg_shell_cmd: None,
    }
}

#[test]
fn collect_empty_repo_groups_produces_no_lines() {
    let state = AppState::new("%0".into());
    let collected = collect(&state, 40);
    assert!(collected.lines.is_empty());
    assert!(collected.line_to_row.is_empty());
    assert!(collected.pending_spawn.is_empty());
    assert!(collected.pending_remove.is_empty());
}

#[test]
fn collect_skips_group_when_status_filter_excludes_all_panes() {
    let mut state = AppState::new("%0".into());
    // The group has only Running panes, so filter to Waiting to drop them all.
    state.global.status_filter = StatusFilter::Waiting;
    state.repo_groups = vec![RepoGroup {
        name: "repo".into(),
        has_focus: false,
        panes: vec![(make_pane("%1", PaneStatus::Running), PaneGitInfo::default())],
    }];
    let collected = collect(&state, 40);
    assert!(collected.lines.is_empty());
    assert!(collected.pending_spawn.is_empty());
}

#[test]
fn collect_records_pending_spawn_when_repo_root_present() {
    let mut state = AppState::new("%0".into());
    let git_info = PaneGitInfo {
        repo_root: Some("/tmp/repo".into()),
        branch: None,
        is_worktree: false,
        worktree_name: None,
    };
    state.repo_groups = vec![RepoGroup {
        name: "repo".into(),
        has_focus: false,
        panes: vec![(make_pane("%1", PaneStatus::Running), git_info)],
    }];
    let collected = collect(&state, 40);
    assert_eq!(
        collected.pending_spawn.len(),
        1,
        "groups with a repo_root should emit a spawn target"
    );
    assert_eq!(collected.pending_spawn[0].1, "repo");
    assert_eq!(collected.pending_spawn[0].2, "/tmp/repo");
    // At least the header plus one pane row should have been pushed.
    assert!(!collected.lines.is_empty());
}

#[test]
fn collect_no_pending_spawn_without_repo_root() {
    let mut state = AppState::new("%0".into());
    state.repo_groups = vec![RepoGroup {
        name: "raw-path".into(),
        has_focus: false,
        panes: vec![(make_pane("%1", PaneStatus::Running), PaneGitInfo::default())],
    }];
    let collected = collect(&state, 40);
    assert!(
        collected.pending_spawn.is_empty(),
        "groups without repo_root must not produce spawn targets"
    );
}

#[test]
fn collect_pending_spawn_grows_with_repo_root_bearing_groups() {
    let mut state = AppState::new("%0".into());
    let with_root = |root: &str, name: &str, pane_id: &str| RepoGroup {
        name: name.into(),
        has_focus: false,
        panes: vec![(
            make_pane(pane_id, PaneStatus::Running),
            PaneGitInfo {
                repo_root: Some(root.into()),
                branch: None,
                is_worktree: false,
                worktree_name: None,
            },
        )],
    };
    state.repo_groups = vec![
        with_root("/repo/a", "a", "%1"),
        with_root("/repo/b", "b", "%2"),
        with_root("/repo/c", "c", "%3"),
    ];
    let collected = collect(&state, 40);
    assert_eq!(collected.pending_spawn.len(), 3);
}

#[test]
fn extension_tree_uses_stable_ids_for_duplicate_labels_and_collapses_builtins() {
    let inspection = Inspection {
        stale: false,
        reply: Reply {
            version: 1,
            facts: vec![
                Fact {
                    id: "skill-a".into(),
                    agent_id: "agent-1".into(),
                    category: "skills".into(),
                    label: "review".into(),
                    detail: String::new(),
                    evidence: Evidence::Available,
                    source: String::new(),
                    detail_token: Some("token-a".into()),
                },
                Fact {
                    id: "skill-b".into(),
                    agent_id: "agent-1".into(),
                    category: "skills".into(),
                    label: "review".into(),
                    detail: String::new(),
                    evidence: Evidence::Available,
                    source: String::new(),
                    detail_token: Some("token-b".into()),
                },
            ],
            agents: vec![AgentNode {
                id: "agent-1".into(),
                parent_id: None,
                label: "agent".into(),
                model: None,
            }],
            builtins: BuiltinSummary {
                agent_id: "agent-1".into(),
                tools_count: 6,
                skills_count: 3,
                exceptions: vec![Fact {
                    id: "read".into(),
                    agent_id: "agent-1".into(),
                    category: "tools".into(),
                    label: "Read".into(),
                    detail: String::new(),
                    evidence: Evidence::Error,
                    source: String::new(),
                    detail_token: None,
                }],
            },
            tree: vec![TreeNode {
                id: "skills".into(),
                agent_id: "agent-1".into(),
                parent_id: None,
                label: "Skills".into(),
                fact_ids: vec!["skill-a".into(), "skill-b".into()],
                detail_token: None,
                category: "skills".into(),
            }],
            ..Reply::default()
        },
    };
    let mut ui = CapabilityUiState::default();
    let collapsed = render_extension_tree(
        Some(&inspection),
        Some(&ExtensionsConfig {
            version: 1,
            ..ExtensionsConfig::default()
        }),
        "%1",
        AgentType::Claude.as_str(),
        None,
        Some("agent-1"),
        &ui,
        60,
    );
    assert_eq!(collapsed[0].target.node_id, "skills");
    assert!(collapsed
        .iter()
        .any(|row| row.text.contains("Built-ins: 6 tools, 3 skills (1 exception)")));
    assert!(
        !collapsed
            .iter()
            .any(|row| row.target.node_id == "fact:read")
    );

    ui.toggle(&collapsed[0].target);
    let expanded = render_extension_tree(
        Some(&inspection),
        Some(&ExtensionsConfig {
            version: 1,
            ..ExtensionsConfig::default()
        }),
        "%1",
        AgentType::Claude.as_str(),
        None,
        Some("agent-1"),
        &ui,
        60,
    );
    let ids: Vec<_> = expanded
        .iter()
        .map(|row| row.target.node_id.as_str())
        .collect();
    assert!(ids.contains(&"fact:skill-a"));
    assert!(ids.contains(&"fact:skill-b"));
}

#[test]
fn extension_tree_only_renders_the_selected_subagent_capabilities() {
    let inspection = Inspection {
        stale: false,
        reply: Reply {
            version: 1,
            agents: vec![
                AgentNode {
                    id: "root".into(),
                    parent_id: None,
                    label: "root".into(),
                    model: None,
                },
                AgentNode {
                    id: "child".into(),
                    parent_id: Some("root".into()),
                    label: "child".into(),
                    model: None,
                },
            ],
            facts: vec![
                Fact {
                    id: "shared-root".into(),
                    agent_id: "root".into(),
                    category: "skills".into(),
                    label: "review".into(),
                    detail: String::new(),
                    evidence: Evidence::Available,
                    source: String::new(),
                    detail_token: Some("root-token".into()),
                },
                Fact {
                    id: "shared-child".into(),
                    agent_id: "child".into(),
                    category: "skills".into(),
                    label: "review".into(),
                    detail: String::new(),
                    evidence: Evidence::Available,
                    source: String::new(),
                    detail_token: Some("child-token".into()),
                },
            ],
            tree: vec![
                TreeNode {
                    id: "root-skill".into(),
                    agent_id: "root".into(),
                    parent_id: None,
                    label: "root capability".into(),
                    fact_ids: vec!["shared-root".into()],
                    detail_token: None,
                    category: "skills".into(),
                },
                TreeNode {
                    id: "child-skill".into(),
                    agent_id: "child".into(),
                    parent_id: None,
                    label: "child capability".into(),
                    fact_ids: vec!["shared-child".into()],
                    detail_token: None,
                    category: "skills".into(),
                },
            ],
            ..Reply::default()
        },
    };
    let mut ui = CapabilityUiState::default();
    let collapsed = render_extension_tree(
        Some(&inspection),
        Some(&ExtensionsConfig {
            version: 1,
            ..ExtensionsConfig::default()
        }),
        "%1",
        AgentType::Claude.as_str(),
        None,
        Some("child"),
        &ui,
        18,
    );
    assert_eq!(collapsed[0].target.agent_id, "child");
    ui.toggle(&collapsed[0].target);
    let lines = render_extension_tree(
        Some(&inspection),
        Some(&ExtensionsConfig {
            version: 1,
            ..ExtensionsConfig::default()
        }),
        "%1",
        AgentType::Claude.as_str(),
        None,
        Some("child"),
        &ui,
        18,
    );
    let ids: Vec<_> = lines
        .into_iter()
        .map(|row| row.target.node_id)
        .collect();
    assert_eq!(ids, vec!["child-skill", "fact:shared-child"]);
    assert_eq!(collapsed[0].text, "  ▶ child capab…");
}

#[test]
fn sidebar_remove_marker_col_does_not_depend_on_branch_length() {
    // Right-edge pinning means the col is determined by the row
    // width alone. A short and a long branch must produce the
    // same col.
    let short = PaneGitInfo {
        repo_root: Some("/r".into()),
        branch: Some("x".into()),
        is_worktree: true,
        worktree_name: None,
    };
    let long = PaneGitInfo {
        repo_root: Some("/r".into()),
        branch: Some("feature/really-long-branch-name".into()),
        is_worktree: true,
        worktree_name: None,
    };
    let col_short = sidebar_remove_marker_col(&short, None, true, 40);
    let col_long = sidebar_remove_marker_col(&long, None, true, 40);
    assert_eq!(col_short, col_long);
    assert_eq!(col_short, Some(41));
}

#[test]
fn sidebar_remove_marker_col_returns_none_for_non_spawned() {
    let git = PaneGitInfo {
        repo_root: Some("/r".into()),
        branch: Some("feat/x".into()),
        is_worktree: true,
        worktree_name: None,
    };
    assert_eq!(sidebar_remove_marker_col(&git, None, false, 40), None);
}

#[test]
fn sidebar_remove_marker_col_returns_none_for_non_worktree_branch() {
    // sidebar_spawned=true but the branch label has no `+` prefix
    // (is_worktree=false). No × should be rendered or registered.
    let git = PaneGitInfo {
        repo_root: Some("/r".into()),
        branch: Some("main".into()),
        is_worktree: false,
        worktree_name: None,
    };
    assert_eq!(sidebar_remove_marker_col(&git, None, true, 40), None);
}

fn area(width: u16, height: u16) -> Rect {
    Rect::new(0, 0, width, height)
}

fn git_state(branch: &str) -> AppState {
    let mut state = AppState::new(String::new());
    state.git.branch = branch.into();
    state
}

fn file_entry(status: char, name: &str, additions: usize, deletions: usize) -> GitFileEntry {
    GitFileEntry {
        status,
        name: name.into(),
        additions,
        deletions,
        path: String::new(),
    }
}

#[test]
fn pr_link_overlay_has_correct_url() {
    let mut state = AppState::new(String::new());
    state.git.branch = "main".into();
    state.git.pr_number = Some("42".into());
    state.git.remote_url = "https://github.com/user/repo".into();
    draw_git_content(&mut state, area(30, 4));
    let overlay = state
        .layout
        .hyperlink_overlays
        .first()
        .expect("PR overlay should be registered");
    assert_eq!(overlay.url, "https://github.com/user/repo/pull/42");
    assert_eq!(overlay.text, "#42");
}

#[test]
fn pr_link_overlay_absent_without_remote_url() {
    let mut state = AppState::new(String::new());
    state.git.branch = "main".into();
    state.git.pr_number = Some("10".into());
    draw_git_content(&mut state, area(30, 4));
    assert!(state.layout.hyperlink_overlays.is_empty());
}

#[test]
fn pr_link_overlay_absent_without_pr_number() {
    let mut state = AppState::new(String::new());
    state.git.branch = "main".into();
    state.git.remote_url = "https://github.com/user/repo".into();
    draw_git_content(&mut state, area(30, 4));
    assert!(state.layout.hyperlink_overlays.is_empty());
}

#[test]
fn pr_link_overlay_right_aligned_on_second_row() {
    let mut state = AppState::new(String::new());
    state.git.branch = "main".into();
    state.git.pr_number = Some("7".into());
    state.git.remote_url = "https://github.com/user/repo".into();
    let width: u16 = 30;
    draw_git_content(&mut state, area(width, 4));
    let overlay = state.layout.hyperlink_overlays.first().unwrap();
    assert_eq!(
        overlay.x as usize,
        width as usize - display_width(&overlay.text),
    );
    assert_eq!(overlay.y, 1);
}

#[test]
fn a_header_sums_up_changes_alone() {
    let mut state = git_state("main");
    assert_eq!(
        render_git_header(&state.git),
        [HeaderRow::Blank, HeaderRow::Branch, HeaderRow::Rule]
    );
    state.git.diff_stat = Some((1, 0));
    assert_eq!(
        render_git_header(&state.git),
        [
            HeaderRow::Blank,
            HeaderRow::Branch,
            HeaderRow::Summary,
            HeaderRow::Rule
        ]
    );
    state.git.diff_stat = None;
    state.git.staged_files = vec![file_entry('A', "new.rs", 1, 0)];
    assert_eq!(render_git_header(&state.git).len(), 4);
}

#[test]
fn a_panel_without_data_is_clean() {
    let mut state = AppState::new(String::new());
    assert!(matches!(
        draw_git_content(&mut state, area(30, 4)),
        GitView::Clean
    ));
}

#[test]
fn a_short_panel_shows_its_header_alone() {
    let mut state = git_state("main");
    match draw_git_content(&mut state, area(30, 3)) {
        GitView::Checkout {
            header_area,
            content,
            ..
        } => {
            assert_eq!(header_area, area(30, 3));
            assert!(matches!(content, GitContent::NoRoom));
        }
        _ => panic!("a checkout is shown"),
    }
    match draw_git_content(&mut state, area(30, 4)) {
        GitView::Checkout { content, .. } => match content {
            GitContent::Clean { area } => assert_eq!(area, Rect::new(0, 3, 30, 1)),
            _ => panic!("nothing differs"),
        },
        _ => panic!("a checkout is shown"),
    }
}

fn listed(state: &mut AppState, height: u16) -> (Vec<FileRow>, u16) {
    match draw_git_content(state, area(30, height)) {
        GitView::Checkout {
            content: GitContent::Files { rows, offset, .. },
            ..
        } => (rows, offset),
        _ => panic!("files are listed"),
    }
}

#[test]
fn more_than_ten_files_are_counted() {
    let mut state = git_state("main");
    state.git.untracked_files = (0..11).map(|i| format!("file{i}.tmp")).collect();
    let (rows, _) = listed(&mut state, 20);
    assert_eq!(rows.len(), 12);
    assert_eq!(rows[0], FileRow::Title(Section::Untracked));
    assert_eq!(rows[10], FileRow::File(Section::Untracked, 9));
    assert_eq!(rows[11], FileRow::More(Section::Untracked, 1));
    state.git.untracked_files.push("file11.tmp".into());
    let (rows, _) = listed(&mut state, 20);
    assert_eq!(rows[11], FileRow::More(Section::Untracked, 2));
}

#[test]
fn sections_are_set_apart() {
    let mut state = git_state("main");
    state.git.staged_files = vec![file_entry('M', "a.rs", 1, 0)];
    state.git.unstaged_files = vec![file_entry('D', "b.rs", 0, 1)];
    state.git.untracked_files = vec!["c".into()];
    let (rows, _) = listed(&mut state, 20);
    assert_eq!(
        rows,
        [
            FileRow::Title(Section::Staged),
            FileRow::File(Section::Staged, 0),
            FileRow::Blank,
            FileRow::Title(Section::Unstaged),
            FileRow::File(Section::Unstaged, 0),
            FileRow::Blank,
            FileRow::Title(Section::Untracked),
            FileRow::File(Section::Untracked, 0),
        ]
    );
}

#[test]
fn a_shrunk_list_is_scrolled_back() {
    let mut state = git_state("main");
    state.git.untracked_files = vec!["a".into(), "b".into(), "c".into()];
    state.scrolls.git.offset = 99;
    let (rows, offset) = listed(&mut state, 6);
    assert_eq!(rows.len(), 4);
    assert_eq!(offset, 2);
    assert_eq!(state.scrolls.git.offset, 2);
}

#[test]
fn repositories_can_be_clicked_where_they_are_seen() {
    let mut state = git_state("main");
    for root in ["/a", "/b", "/c"] {
        state.vcs_entries.push(VcsEntry {
            kind: VcsKind::Git,
            root: root.into(),
            branch: "main".into(),
            diff_stat: if root == "/b" { None } else { Some((3, 4)) },
        });
    }
    match draw_git_content(&mut state, Rect::new(1, 5, 30, 2)) {
        GitView::Entries { rows, .. } => {
            assert_eq!(rows.len(), 3);
            assert_eq!(rows[0].label, "Git ");
            assert_eq!(rows[0].summary, "  +3/-4");
            assert_eq!(rows[1].summary, "  clean");
        }
        _ => panic!("repositories are shown"),
    }
    let targets = &state.layout.vcs_branch_targets;
    assert_eq!(targets.len(), 2);
    assert_eq!(targets[1].rect, Rect::new(1, 6, 30, 1));
    assert_eq!(targets[1].root, "/b");
    assert_eq!(state.scrolls.git.total_lines, 3);
}

#[test]
fn diff_stats_know_their_width() {
    let (texts, width) = diff_stat_spans(100, 5);
    assert_eq!(texts, ["+100", "/", "-5"]);
    assert_eq!(width, 7);
}

#[test]
fn widths_are_those_of_the_screen() {
    assert_eq!(display_width("abc"), 3);
    assert_eq!(display_width("日本"), 4);
    assert_eq!(char_widths("a日"), [1, 2]);
    assert_eq!(fit_tail("abc", 2, 3, &char_widths("abc")), "…c");
    assert_eq!(tail_fit("日本", 3), "…本");
    assert_eq!(tail_fit("日本", 4), "日本");
    assert_eq!(fit_head("abc", 2, 3, &char_widths("abc")), "a…");
    assert_eq!(truncate_to_width("日本", 3), "日…");
    assert_eq!(truncate_to_width("日本", 4), "日本");
    assert_eq!(truncate_to_width("abc", 1), "…");
    assert_eq!(truncate_to_width("abc", 0), "");
    // A file name that is too long for a panel of this width.
    let name = "a-very-long-untracked-filename-that-exceeds-width.tmp";
    assert_eq!(truncate_to_width(name, 23), "a-very-long-untracked-…");
}

#[test]
fn popups_stay_in_their_area() {
    assert_eq!(center_popup(area(40, 20), 20, 10), Rect::new(10, 5, 20, 10));
    assert_eq!(center_popup(area(10, 4), 20, 10), area(10, 4));
    let below = anchor_below(area(40, 20), 19, 20, 6);
    assert!(below.y + below.height <= 20);
}

#[test]
fn a_spawn_popup_types_its_task() {
    let mut state = AppState::new("%0".into());
    assert!(render_spawn_input_popup(&mut state, area(40, 20), "codex", "default").is_none());
    state.popup = PopupState::SpawnInput {
        input: "fix".into(),
        agent_idx: 0,
        mode_idx: 0,
        field: SpawnField::Task,
        repo_name: "repo".into(),
        repo_root: "/repo".into(),
        anchor_y: None,
        error: None,
        area: None,
    };
    let popup = render_spawn_input_popup(&mut state, area(40, 20), "codex", "default").unwrap();
    assert!(!popup.rows.is_empty());
    assert!(popup.rect.x + popup.rect.width <= 40);
    assert!(popup.rect.y + popup.rect.height <= 20);
}

#[test]
fn a_remove_popup_offers_choices() {
    let mut state = AppState::new("%0".into());
    state.popup = PopupState::RemoveConfirm {
        pane_id: "%1".into(),
        branch: "feat".into(),
        error: Some("busy".into()),
        area: None,
    };
    let popup = render_remove_confirm_popup(&mut state, area(40, 20)).unwrap();
    assert_eq!(popup.title, " feat ");
    let labels: Vec<&str> = popup.rows.iter().map(|row| row.1.label()).collect();
    assert!(labels.contains(&RemoveContent::Cancel.label()));
    assert!(labels.contains(&"busy"));
}

#[test]
fn a_repo_popup_lists_repositories() {
    let mut state = AppState::new("%0".into());
    state.repo_groups = vec![RepoGroup {
        name: "alpha".into(),
        has_focus: false,
        panes: vec![],
    }];
    state.popup = PopupState::Repo {
        selected: 1,
        area: None,
    };
    let popup = render_repo_popup(&mut state, area(40, 20));
    let names: Vec<&str> = popup.items.iter().map(|item| item.name.as_str()).collect();
    assert_eq!(names, ["All", "alpha"]);
    assert!(popup.items[1].highlighted);
    assert!(popup.items[0].current);
}

#[test]
fn a_flash_shows_until_it_expires() {
    let mut state = AppState::new("%0".into());
    state.set_flash("spawn failed".into(), 1_000);
    let banner = render_flash_banner(&mut state, area(40, 20), 1_001).unwrap();
    assert_eq!(banner.text, "spawn failed");
    assert!(banner.is_error);
    assert_eq!(banner.area.y, 19);
    assert!(render_flash_banner(&mut state, area(40, 20), u64::MAX).is_none());
    assert!(draw_detail(&state, area(40, 20)).is_none());
}

fn rows_of(
    pane: &PaneInfo,
    git_info: &PaneGitInfo,
    ports: Option<&[u16]>,
    tasks: Option<&TaskProgress>,
) -> Vec<PaneRow> {
    let lines = render_pane_lines_with_ports(pane, git_info, ports, tasks, false, false);
    lines.into_iter().map(|line| line.row).collect()
}

#[test]
fn rows_of_a_pane_follow_what_is_known() {
    let mut pane = make_pane("%1", PaneStatus::Idle);
    let none = PaneGitInfo::default();
    assert_eq!(
        rows_of(&pane, &none, None, None),
        [PaneRow::Status, PaneRow::IdleHint]
    );
    pane.status = PaneStatus::Running;
    pane.prompt = "fix".into();
    pane.bg_shell_cmd = Some("sleep 3".into());
    let tasks = TaskProgress {
        tasks: vec![("t".into(), TaskStatus::Pending)],
    };
    let rows = rows_of(&pane, &none, Some(&[3000]), Some(&tasks));
    assert_eq!(rows[0], PaneRow::Status);
    for row in [
        PaneRow::Branch,
        PaneRow::Tasks,
        PaneRow::Background,
        PaneRow::Prompt,
    ] {
        assert!(rows.contains(&row), "{row:?} must be shown");
    }
}

#[test]
fn drawing_places_what_can_be_clicked() {
    let mut state = AppState::new("%0".into());
    state.repo_groups = vec![RepoGroup {
        name: "repo".into(),
        has_focus: true,
        panes: vec![(
            make_pane("%1", PaneStatus::Running),
            PaneGitInfo {
                repo_root: Some("/tmp/repo".into()),
                branch: None,
                is_worktree: false,
                worktree_name: None,
            },
        )],
    }];
    state.rebuild_row_targets();
    let view = draw_agents(&mut state, area(40, 20));
    assert_eq!(view.offset, 0);
    assert_eq!(state.layout.repo_spawn_targets.len(), 1);
    let button = state.layout.repo_spawn_targets[0].rect;
    assert_eq!(button.x, 39);
    assert_eq!(
        state.click_hit(button.y, button.x),
        ClickHit::SpawnButton { index: 0 }
    );
    match state.handle_mouse_click(button.y, button.x, 0) {
        ClickEffect::OpenSpawn { repo_name, .. } => assert_eq!(repo_name, "repo"),
        other => panic!("the button spawns, not {other:?}"),
    }
    assert_eq!(state.repo_names(), ["All", "repo"]);
}

#[test]
fn the_wheel_scrolls_what_it_is_over() {
    let mut state = AppState::new("%0".into());
    assert_eq!(state.handle_mouse_scroll(19, 20, 5, 1), Scrolled::Bottom);
    assert_eq!(state.handle_mouse_scroll(3, 20, 5, 1), Scrolled::Panes);
}

#[test]
fn a_closed_repo_popup_is_drawn_but_not_noted() {
    let mut state = AppState::new(String::new());
    let popup = render_repo_popup(&mut state, area(40, 20));
    assert_eq!(popup.items.len(), 1);
    assert_eq!(popup.items[0].name, "All");
    assert!(popup.items[0].highlighted);
    assert!(matches!(state.popup, PopupState::Closed));
}
