use tmux_agent_sidebar::activity::{TaskProgress, TaskStatus};
use tmux_agent_sidebar::extension::ExtensionsConfig;
use tmux_agent_sidebar::geometry::Rect;
use tmux_agent_sidebar::group::{PaneGitInfo, RepoGroup};
use tmux_agent_sidebar::state::extensions::DetailView;
use tmux_agent_sidebar::state::focus::Focus;
use tmux_agent_sidebar::state::{AppState, PopupState, SpawnField};
use tmux_agent_sidebar::tmux::types::{
    AgentType, PaneInfo, PaneStatus, PermissionMode, WorktreeMetadata,
};
use tmux_agent_sidebar::ui::line::RowText;
use tmux_agent_sidebar::ui::panes::draw_agents;
use tmux_agent_sidebar::ui::panes::popups::{
    draw_detail, field_label, render_remove_confirm_popup, render_repo_popup,
    render_spawn_input_popup, PopupContent, RemoveContent,
};
use tmux_agent_sidebar::ui::panes::row::{
    category_rank, render_pane_lines_with_ports, row_style, sidebar_remove_marker_col, PaneLine,
    PaneRow,
};
use tmux_agent_sidebar::ui::panes::row_collector::{header_row_text, ListLine};
use tmux_agent_sidebar::ui::panes::row_text::{
    branch_ports_row, elapsed_label, pane_row_texts, pane_texts, prompt_rows, status_icon,
    status_row, wait_reason_row, PaneText, REMOVE_MARKER,
};
use tmux_agent_sidebar::ui::text::display_width;

fn pane(permission_mode: PermissionMode, status: PaneStatus, prompt: &str) -> PaneInfo {
    PaneInfo {
        pane_id: "%1".into(),
        pane_active: false,
        status,
        attention: false,
        agent: AgentType::Codex,
        path: "/tmp/project".into(),
        current_command: String::new(),
        prompt: prompt.into(),
        prompt_is_response: false,
        started_at: None,
        wait_reason: String::new(),
        permission_mode,
        subagents: vec![],
        pane_pid: None,
        worktree: WorktreeMetadata::default(),
        session_id: None,
        session_name: String::new(),
        sidebar_spawned: false,
        bg_shell_cmd: None,
    }
}

/// The lines of a pane as they are drawn.
fn drawn(
    pane: &PaneInfo,
    git_info: &PaneGitInfo,
    ports: Option<&[u16]>,
    tasks: Option<&TaskProgress>,
    width: usize,
    now: u64,
) -> Vec<String> {
    let inner = width.saturating_sub(2);
    let icon = status_icon(pane.status);
    let shown = pane_texts(pane, git_info, ports, tasks, false, false, icon, inner, now);
    shown.iter().map(on_screen).collect()
}

/// A line with its marker.
fn on_screen(shown: &PaneText) -> String {
    let mark = if shown.line.marked { "┃" } else { " " };
    format!("{mark} {}", shown.text.line())
}

fn lines(pane: &PaneInfo) -> Vec<String> {
    drawn(pane, &PaneGitInfo::default(), None, None, 40, 0)
}

fn response(text: &str) -> PaneInfo {
    let mut p = pane(PermissionMode::Default, PaneStatus::Idle, text);
    p.prompt_is_response = true;
    p
}

fn worktree(branch: &str) -> PaneGitInfo {
    PaneGitInfo {
        repo_root: Some("/r".into()),
        branch: Some(branch.into()),
        is_worktree: true,
        worktree_name: None,
    }
}

/// A row behind its marker.
fn row_line(row: RowText) -> String {
    format!("  {}", row.line())
}

/// Display column (in terminal cells, not bytes) where the first `×` appears in a row.
fn rendered_x_col(text: &str) -> usize {
    let idx = text.find('×').expect("× should be present");
    display_width(&text[..idx])
}

fn area(width: u16, height: u16) -> Rect {
    Rect::new(0, 0, width, height)
}

#[test]
fn render_pane_lines_shows_permission_badge() {
    let pane = pane(PermissionMode::Auto, PaneStatus::Running, "");
    assert!(lines(&pane)[0].contains(" codex auto"));
}

#[test]
fn render_pane_lines_shows_defer_badge() {
    let pane = pane(PermissionMode::Defer, PaneStatus::Running, "");
    let status = &lines(&pane)[0];
    assert!(
        status.contains(" codex defer"),
        "defer permission mode should render its badge, got: {status}"
    );
}

#[test]
fn render_pane_lines_shows_session_name_instead_of_agent() {
    let mut p = pane(PermissionMode::Default, PaneStatus::Running, "");
    p.session_name = "fix-csv-aliases".into();
    let status = &lines(&p)[0];
    assert!(
        status.contains("fix-csv-aliases"),
        "session name should appear in status row, got: {status}"
    );
    assert!(
        !status.contains("codex"),
        "agent label should be replaced by session name, got: {status}"
    );
}

#[test]
fn render_pane_lines_truncates_long_session_name_to_keep_elapsed_visible() {
    let mut p = pane(PermissionMode::Default, PaneStatus::Running, "");
    p.session_name = "this-is-a-ridiculously-long-session-name-that-will-not-fit".into();
    // started_at must be > 0 for elapsed_label to render.
    // started_at=1, now=66 → elapsed=65s → "1m5s".
    p.started_at = Some(1);
    let shown = drawn(&p, &PaneGitInfo::default(), None, None, 30, 66);
    let status = &shown[0];
    assert!(
        status.contains("1m5s"),
        "elapsed must stay visible when session name is long, got: {status}"
    );
    assert!(
        !status.contains("not-fit"),
        "long session name must be truncated, got: {status}"
    );
    let visible_width = display_width(status);
    assert!(
        visible_width <= 30,
        "status row width {visible_width} must not exceed inner_width 30: {status}"
    );
    assert_eq!(status, "  ● this-is-a-ridiculousl… 1m5s");
}

#[test]
fn render_pane_lines_shows_branch_and_ports_on_same_row() {
    let pane = pane(PermissionMode::Default, PaneStatus::Running, "");
    let git = PaneGitInfo {
        repo_root: Some("/tmp/project".into()),
        branch: Some("feature/sidebar".into()),
        is_worktree: false,
        worktree_name: None,
    };
    let shown = drawn(&pane, &git, Some(&[3000, 5173]), None, 40, 0);
    assert!(shown.len() >= 2);
    let branch_port_line = &shown[1];
    assert!(branch_port_line.contains("feature/sidebar"));
    assert!(branch_port_line.contains(":3000, 5173"));
    assert!(branch_port_line.find("feature/sidebar") < branch_port_line.find(":3000, 5173"));
}

#[test]
fn render_pane_lines_truncates_long_branch_when_ports_present() {
    let pane = pane(PermissionMode::Default, PaneStatus::Running, "");
    let git = PaneGitInfo {
        repo_root: Some("/tmp/project".into()),
        branch: Some("feature/sidebar/really-long-branch-name-that-should-truncate".into()),
        is_worktree: false,
        worktree_name: None,
    };
    let shown = drawn(&pane, &git, Some(&[3000]), None, 40, 0);
    assert!(shown.len() >= 2);
    let branch_port_line = &shown[1];
    assert!(
        branch_port_line.contains('…'),
        "long branch should be truncated"
    );
    assert!(branch_port_line.contains(":3000"));
    assert!(
        branch_port_line.find('…') < branch_port_line.find(":3000"),
        "branch truncation should remain left of the port text"
    );
}

#[test]
fn render_pane_lines_uses_injected_now_for_elapsed() {
    let mut pane = pane(PermissionMode::Default, PaneStatus::Running, "");
    pane.started_at = Some(1_000_000 - 125);
    let shown = drawn(&pane, &PaneGitInfo::default(), None, None, 40, 1_000_000);
    assert!(shown[0].contains("2m5s"));
}

#[test]
fn elapsed_time_has_two_units() {
    assert_eq!(elapsed_label(Some(1), 1), "0s");
    assert_eq!(elapsed_label(Some(1), 60), "59s");
    assert_eq!(elapsed_label(Some(1), 61), "1m0s");
    assert_eq!(elapsed_label(Some(1), 3600), "59m59s");
    assert_eq!(elapsed_label(Some(1), 7321), "2h2m");
    assert_eq!(elapsed_label(Some(0), 5), "");
    assert_eq!(elapsed_label(Some(6), 5), "");
    assert_eq!(elapsed_label(None, 5), "");
}

#[test]
fn each_status_has_its_icon() {
    assert_eq!(status_icon(PaneStatus::Idle), "○");
    assert_eq!(status_icon(PaneStatus::Waiting), "◐");
    assert_eq!(status_icon(PaneStatus::Error), "✕");
    assert_eq!(status_icon(PaneStatus::Unknown), "·");
    assert_eq!(status_icon(PaneStatus::Background), "◎");
    assert_eq!(status_icon(PaneStatus::Running), "●");
}

#[test]
fn render_pane_lines_shows_idle_prompt_hint() {
    let pane = pane(PermissionMode::Default, PaneStatus::Idle, "");
    let shown = lines(&pane);
    assert_eq!(shown.len(), 2);
    assert!(shown[1].contains("Waiting for prompt"));
    assert_eq!(shown[1], "    Waiting for prompt…");
}

#[test]
fn render_pane_lines_shows_bg_command_even_while_running() {
    // A live background shell must stay visible in the pane
    // regardless of the agent's current status — running bursts in
    // the middle of a background task should not make the shell
    // look like it vanished.
    let mut p = pane(PermissionMode::Default, PaneStatus::Running, "");
    p.bg_shell_cmd = Some("npm run dev".into());
    let hint = lines(&p).join("\n");
    assert!(
        hint.contains("npm run dev"),
        "bg command must render during running state, got:\n{hint}"
    );
}

#[test]
fn render_pane_lines_shows_bg_command_even_while_idle() {
    let mut p = pane(PermissionMode::Default, PaneStatus::Idle, "");
    p.bg_shell_cmd = Some("cargo watch".into());
    let joined = lines(&p).join("\n");
    assert!(
        joined.contains("cargo watch"),
        "bg command must render during idle state, got:\n{joined}"
    );
}

#[test]
fn render_pane_lines_shows_background_command_when_known() {
    let mut p = pane(PermissionMode::Default, PaneStatus::Background, "");
    p.bg_shell_cmd = Some("cargo build --release".into());
    let shown = lines(&p);
    assert_eq!(shown.len(), 2);
    let hint = &shown[1];
    assert!(hint.contains("cargo build --release"), "got: {hint}");
    assert!(
        !hint.contains("Background shell running"),
        "fallback text must not appear when a command is known, got: {hint}"
    );
}

#[test]
fn render_pane_lines_truncates_long_background_command() {
    let mut p = pane(PermissionMode::Default, PaneStatus::Background, "");
    p.bg_shell_cmd = Some("cargo run --bin very-long-command-name --flag".into());
    // Narrow width forces the ellipsis path in `truncate_to_width`.
    let shown = drawn(&p, &PaneGitInfo::default(), None, None, 20, 0);
    let hint = &shown[1];
    assert!(hint.contains("cargo run"), "command missing in {hint}");
    assert!(hint.contains('\u{2026}'), "ellipsis missing in {hint}");
    assert!(
        display_width(hint) <= 20,
        "row width {w} must not exceed inner_width 20: {hint}",
        w = display_width(hint)
    );
}

#[test]
fn render_pane_lines_wraps_prompt_when_present() {
    let pane = pane(
        PermissionMode::BypassPermissions,
        PaneStatus::Idle,
        "hello world from codex",
    );
    let shown = drawn(&pane, &PaneGitInfo::default(), None, None, 18, 0);
    assert!(shown.len() >= 2);
    assert!(shown[0].contains(" codex !"));
    assert!(!shown[1].contains("Waiting for prompt"));
    assert_eq!(shown[1..], ["    hello world", "    from codex"]);
}

#[test]
fn render_pane_lines_shows_single_subagent() {
    let mut p = pane(PermissionMode::Default, PaneStatus::Running, "test");
    p.subagents = vec!["Explore".into()];
    let shown = lines(&p);
    assert!(shown.len() >= 3);
    assert!(shown[1].contains("└ "));
    assert!(shown[1].contains("Explore #1"));
}

#[test]
fn render_pane_lines_shows_multiple_subagents_tree() {
    let mut p = pane(PermissionMode::Default, PaneStatus::Running, "test");
    p.subagents = vec!["Explore #1".into(), "Plan".into(), "Explore #2".into()];
    let shown = lines(&p);
    assert!(shown.len() >= 5);
    assert!(shown[1].contains("├ "));
    assert!(shown[1].contains("Explore #1"));
    assert!(shown[2].contains("├ "));
    assert!(shown[2].contains("Plan #2"));
    assert!(shown[3].contains("└ "));
    assert!(shown[3].contains("Explore #2"));
}

#[test]
fn render_pane_lines_subagents_before_wait_reason() {
    let mut p = pane(PermissionMode::Default, PaneStatus::Waiting, "");
    p.subagents = vec!["Explore".into()];
    p.wait_reason = "permission_prompt".into();
    let shown = lines(&p);
    assert!(shown.len() >= 3);
    assert!(shown[1].contains("Explore #1"));
    assert!(shown[2].contains("permission required"));
}

#[test]
fn render_pane_lines_response_shows_arrow() {
    let shown = lines(&response("Task completed successfully"));
    assert!(shown.len() >= 2);
    assert!(shown[1].contains("▷"));
    assert!(shown[1].contains("Task completed successfully"));
}

#[test]
fn render_pane_lines_response_uses_char_wrap() {
    let p = response("abcdef ghijk lmnop qrstu vwxyz");
    let shown = drawn(&p, &PaneGitInfo::default(), None, None, 20, 0);
    assert!(shown.len() >= 2);
    assert!(shown[1].contains("▷"));
    // char-wrap must not trim inter-word spaces like word-wrap does
    assert!(!shown[2].starts_with("│  ghijk"));
    assert_eq!(shown[1..], ["    ▷ abcdef ghijk l", "    mnop qrstu vwxyz"]);
}

#[test]
fn a_response_loses_none_of_its_blanks() {
    let rows = prompt_rows(&response("a  b c  d"), 5);
    let text: String = rows.iter().map(|row| row.left[1].as_str()).collect();
    assert_eq!(text, "▷ a  b c  d");
    assert_eq!(rows.len(), 4);
}

#[test]
fn render_pane_lines_normal_prompt_not_detected_as_response() {
    let p = pane(PermissionMode::Default, PaneStatus::Running, "fix the bug");
    let shown = lines(&p);
    assert!(shown.len() >= 2);
    assert!(!shown[1].contains("▷"));
    assert!(shown[1].contains("fix the bug"));
}

#[test]
fn prompt_rows_indents_continuation_lines() {
    let p = pane(
        PermissionMode::Default,
        PaneStatus::Running,
        "aaaa bbbb cccc dddd eeee",
    );
    let shown: Vec<String> = prompt_rows(&p, 20).into_iter().map(row_line).collect();
    assert!(
        shown.len() >= 2,
        "expected prompt to wrap across multiple lines"
    );
    for text in &shown {
        // Each line starts with marker(1) + space(1) + indent(2) = "    " for non-selected.
        assert!(
            text.starts_with("    "),
            "each wrapped line should carry the left padding, got: {text}"
        );
    }
}

#[test]
fn render_pane_lines_shows_task_progress() {
    let p = pane(PermissionMode::Default, PaneStatus::Running, "");
    let progress = TaskProgress {
        tasks: vec![
            ("Task A".into(), TaskStatus::Completed),
            ("Task B".into(), TaskStatus::InProgress),
            ("Task C".into(), TaskStatus::Pending),
        ],
    };
    let shown = drawn(&p, &PaneGitInfo::default(), None, Some(&progress), 40, 0);
    assert!(shown.len() >= 2);
    assert!(shown[1].contains("✔◼◻"));
    assert!(shown[1].contains("1/3"));
}

#[test]
fn render_pane_lines_no_task_line_when_empty() {
    let p = pane(PermissionMode::Default, PaneStatus::Idle, "");
    let progress = TaskProgress { tasks: vec![] };
    let shown = drawn(&p, &PaneGitInfo::default(), None, Some(&progress), 40, 0);
    assert_eq!(shown.len(), 2);
    assert!(shown[1].contains("Waiting for prompt"));
}

#[test]
fn branch_ports_row_renders_port_only_without_branch() {
    let row = branch_ports_row(&PaneGitInfo::default(), Some(&[3000]), false, 40)
        .expect("should render port line");
    assert!(row_line(row).contains(":3000"));
}

#[test]
fn branch_ports_row_renders_plus_marker_for_non_spawned_worktree() {
    let row = branch_ports_row(&worktree("feat/x"), None, false, 40)
        .expect("branch row should render");
    let text = row_line(row);
    assert!(text.contains("+ feat/x"), "plain + marker: {text}");
    assert!(!text.contains('×'), "non-spawned must not render ×");
}

#[test]
fn a_remove_marker_is_pinned_to_the_right_edge() {
    let row =
        branch_ports_row(&worktree("feat/x"), None, true, 40).expect("branch row should render");
    assert_eq!(row.right, [REMOVE_MARKER]);
    let text = row_line(row);
    assert_eq!(rendered_x_col(&text), 41, "× should pin to the rightmost column");
    let plus_idx = text.find("+ feat/x").expect("+ worktree marker must be preserved");
    let x_idx = text.find('×').unwrap();
    assert!(
        plus_idx < x_idx,
        "`+ feat/x` must precede the trailing `×`, got: {text}"
    );
}

#[test]
fn branch_ports_row_truncates_long_branch_but_keeps_x_at_right_edge() {
    // Narrow ctx forces the branch text to truncate, but the
    // `×` must still render at the right edge — the action
    // affordance cannot be the thing that gets clipped.
    let inner_width = 18usize;
    let git = worktree("feature/really-long-branch-name");
    let row = branch_ports_row(&git, None, true, inner_width).expect("branch row should render");
    let text = row_line(row);
    assert!(
        text.contains('×'),
        "× must remain visible even when branch truncates: {text}"
    );
    assert!(
        text.contains('…'),
        "branch text should show truncation ellipsis: {text}"
    );
    assert_eq!(
        rendered_x_col(&text),
        inner_width + 1,
        "× stays pinned to right edge under truncation"
    );
    // Total row width = marker(1) + space(1) + inner_width.
    let rendered_width = display_width(text.trim_end());
    assert!(
        rendered_width <= inner_width + 2,
        "row must fit within marker + inner width (={}), got {rendered_width}: {text}",
        inner_width + 2
    );
}

#[test]
fn sidebar_remove_marker_col_matches_branch_ports_row_layout() {
    // The click targets are placed by `sidebar_remove_marker_col`, which has to line
    // them up with the rendered `×`. Verify the two agree by counting the `×`
    // position in the rendered text and comparing to the helper.
    let git = worktree("feat/abc");
    let row = branch_ports_row(&git, None, true, 40).expect("branch row should render");
    let text = row_line(row);
    let computed = sidebar_remove_marker_col(&git, None, true, 40).expect("col should be Some");
    assert_eq!(
        computed as usize,
        rendered_x_col(&text),
        "computed × col must match rendered position"
    );
}

#[test]
fn branch_ports_row_keeps_x_at_right_edge_when_ports_are_present() {
    // Ports eat space on the right side of the row, but the `×` must still pin to
    // the very last column with ports stacked just to its left.
    let inner_width = 40usize;
    let row = branch_ports_row(&worktree("feat/abc"), Some(&[3000]), true, inner_width)
        .expect("branch row should render");
    let text = row_line(row);
    assert_eq!(
        rendered_x_col(&text),
        inner_width + 1,
        "× must pin to right edge regardless of port presence"
    );
    let port_idx = text.find(":3000").expect(":3000 should be present");
    let x_idx = text.find('×').unwrap();
    assert!(
        port_idx < x_idx,
        "ports should sit to the LEFT of the × marker: {text}"
    );
}

#[test]
fn branch_ports_row_keeps_plain_branch_when_sidebar_spawned_but_not_worktree() {
    // Edge case: sidebar_spawned=true but is_worktree=false. The branch has no "+ "
    // before it, so the resulting row must stay plain.
    let git = PaneGitInfo { is_worktree: false, ..worktree("main") };
    let row = branch_ports_row(&git, None, true, 40).expect("branch row should render");
    let text = row_line(row);
    assert!(text.contains("main"));
    assert!(!text.contains('×'));
    assert!(!text.contains('+'));
}

#[test]
fn a_pane_without_branch_and_ports_has_no_such_row() {
    assert!(branch_ports_row(&PaneGitInfo::default(), None, true, 40).is_none());
    assert!(branch_ports_row(&PaneGitInfo::default(), Some(&[]), true, 40).is_none());
}

#[test]
fn a_reason_to_wait_tells_of_an_error() {
    for (status, wanted) in [(PaneStatus::Error, true), (PaneStatus::Waiting, false)] {
        let mut p = pane(PermissionMode::Default, status, "");
        p.wait_reason = "permission_prompt".into();
        let none = PaneGitInfo::default();
        let shown = pane_texts(&p, &none, None, None, false, false, "x", 40, 0);
        assert!(!shown[0].failed);
        assert_eq!(shown[1].text.line(), "  permission required");
        assert_eq!(shown[1].failed, wanted);
    }
    assert_eq!(wait_reason_row("a while").unwrap().line(), "  a while");
    assert!(wait_reason_row("").is_none());
}

#[test]
fn a_part_that_is_not_shown_says_nothing() {
    let p = pane(PermissionMode::Default, PaneStatus::Running, "");
    let none = PaneGitInfo::default();
    for part in [
        PaneRow::Branch,
        PaneRow::Tasks,
        PaneRow::Subagents,
        PaneRow::WaitReason,
        PaneRow::Background,
        PaneRow::Prompt,
        PaneRow::IdleHint,
    ] {
        assert!(pane_row_texts(&p, &none, None, None, part, "●", 40, 0).is_empty());
    }
    assert_eq!(pane_row_texts(&p, &none, None, None, PaneRow::Status, "●", 40, 0).len(), 1);
}

#[test]
fn the_list_says_what_its_panes_say() {
    let mut state = listed(1);
    state.repo_groups[0].panes[0].1 = worktree("feat/x");
    state.repo_groups[0].panes[0].0.sidebar_spawned = true;
    state.set_pane_ports("%0", vec![3000]);
    state.focus_state.focused_pane_id = Some("%0".into());
    let lines = draw(&mut state);
    let said: Vec<String> = lines
        .iter()
        .filter_map(|line| match line {
            ListLine::Pane { shown, .. } => Some(on_screen(shown)),
            _ => None,
        })
        .collect();
    assert_eq!(said.len(), 3);
    assert!(said[0].starts_with("┃ ○ "));
    assert_eq!(said[1], "┃   + feat/x         :3000 ×");
    assert_eq!(said[2], "    Waiting for prompt…");
    assert_eq!(header_row_text("project", true, 12).line(), "project    +");
    assert_eq!(header_row_text("project", false, 12).line(), "project");
}

#[test]
fn status_row_default_permission_mode_omits_badge() {
    let pane = pane(PermissionMode::Default, PaneStatus::Running, "");
    let text = row_line(status_row(&pane, "●", 40, 0));
    // Default mode has an empty badge string — no extra badge token should appear.
    assert!(
        !text.contains(" auto") && !text.contains(" plan") && !text.contains(" !"),
        "default permission mode should not render a badge, got: {text}"
    );
}

#[test]
fn render_pane_lines_selected_applies_background_to_spans() {
    let pane = pane(PermissionMode::Auto, PaneStatus::Running, "do work");
    let none = PaneGitInfo::default();
    let shown = render_pane_lines_with_ports(&pane, &none, None, None, true, false);
    assert!(
        shown[0].highlighted,
        "selected row should apply selection_bg to inner spans"
    );
}

#[test]
fn render_pane_lines_selected_leaves_content_rows_unhighlighted() {
    let pane = pane(PermissionMode::Auto, PaneStatus::Running, "do work");
    let none = PaneGitInfo::default();
    let shown = render_pane_lines_with_ports(&pane, &none, None, None, true, false);
    assert!(
        shown.iter().skip(1).all(|line| !line.highlighted),
        "content rows should not carry the selection background"
    );
}

#[test]
fn the_status_of_the_focused_pane_is_marked() {
    let pane = pane(PermissionMode::Default, PaneStatus::Running, "");
    let none = PaneGitInfo::default();
    let shown = render_pane_lines_with_ports(&pane, &none, None, None, false, true);
    assert!(shown[0].marked);
}

#[test]
fn only_the_leading_rows_stand_out() {
    let line = row_style(PaneRow::Branch, true, true);
    let wanted = PaneLine { row: PaneRow::Branch, marked: true, highlighted: true };
    assert_eq!(line, wanted);
    for row in [
        PaneRow::Tasks,
        PaneRow::Subagents,
        PaneRow::WaitReason,
        PaneRow::Background,
        PaneRow::Prompt,
        PaneRow::IdleHint,
    ] {
        let line = row_style(row, true, true);
        assert!(!line.marked && !line.highlighted);
    }
    assert!(!row_style(PaneRow::Status, true, false).marked);
    assert!(!row_style(PaneRow::Status, false, true).highlighted);
}

#[test]
fn a_category_that_is_not_ordered_comes_last() {
    let config = ExtensionsConfig {
        version: 1,
        row_order: vec!["skills".into(), "tools".into()],
        ..ExtensionsConfig::default()
    };
    assert_eq!(category_rank(&config, "skills"), 0);
    assert_eq!(category_rank(&config, "tools"), 1);
    assert_eq!(category_rank(&config, "other"), usize::MAX);
}

fn listed(count: usize) -> AppState {
    let mut state = AppState::new("%sidebar".into());
    let mut panes = Vec::new();
    for i in 0..count {
        let mut one = pane(PermissionMode::Default, PaneStatus::Idle, "");
        one.agent = AgentType::Claude;
        one.pane_id = format!("%{}", i);
        panes.push((one, PaneGitInfo::default()));
    }
    state.repo_groups = vec![RepoGroup { name: "project".into(), has_focus: false, panes }];
    state.focus_state.sidebar_focused = true;
    state.focus_state.focus = Focus::Panes;
    state.rebuild_row_targets();
    state
}

/// Draws a list of idle panes in a terminal of 28 columns and 26 rows, of which the
/// bottom panel takes 20 and a margin one.
fn draw(state: &mut AppState) -> Vec<ListLine> {
    draw_agents(state, area(28, 5)).collected.lines
}

#[test]
fn test_agents_auto_scroll_keeps_selected_visible() {
    let mut state = listed(10);
    draw(&mut state);
    assert_eq!(state.scrolls.panes.offset, 0, "initially at top");

    // Select last agent and re-render
    state.global.selected_pane_row = 9;
    draw(&mut state);
    assert!(
        state.scrolls.panes.offset > 0,
        "should scroll down to show selected agent"
    );
}

#[test]
fn test_panes_scroll_offset_tracks_total_and_visible() {
    let mut state = listed(1);
    draw(&mut state);
    assert!(
        state.scrolls.panes.total_lines > 0,
        "total lines should be populated"
    );
    assert!(
        state.scrolls.panes.visible_height > 0,
        "visible height should be populated"
    );
}

#[test]
fn test_agents_auto_scroll_shows_last_selected_pane() {
    let mut state = listed(6);
    // Select the last agent
    state.global.selected_pane_row = 5;
    draw(&mut state);
    assert!(
        state.scrolls.panes.offset > 0,
        "selecting the last agent should scroll the list"
    );
}

#[test]
fn test_agents_auto_scroll_up_shows_group_header() {
    let mut state = listed(8);
    // Scroll to bottom
    state.global.selected_pane_row = 7;
    draw(&mut state);
    assert!(state.scrolls.panes.offset > 0, "should have scrolled down");

    // Now select first agent and re-render: the name of the repository comes into
    // view with it.
    state.global.selected_pane_row = 0;
    let lines = draw(&mut state);
    assert_eq!(state.scrolls.panes.offset, 0);
    assert!(matches!(&lines[0], ListLine::Header { name, .. } if name == "project"));
    let said: Vec<String> = lines[1..3]
        .iter()
        .map(|line| match line {
            ListLine::Pane { shown, .. } => on_screen(shown).trim_end().to_string(),
            other => panic!("not a line of a pane: {other:?}"),
        })
        .collect();
    let agent = AgentType::Claude.as_str();
    assert_eq!(said, [format!("  ○ {agent}"), "    Waiting for prompt…".to_string()]);
}

#[test]
fn test_unknown_status_icon() {
    assert_eq!(status_icon(PaneStatus::Unknown), "·");
}

#[test]
fn lines_start_with_a_name_and_their_rows_rise() {
    let mut state = listed(3);
    let other = listed(2).repo_groups.remove(0);
    state.repo_groups.push(other);
    state.rebuild_row_targets();
    let lines = draw(&mut state);
    assert!(matches!(lines[0], ListLine::Header { .. }));
    let rows: Vec<usize> = state.layout.line_to_row.iter().flatten().copied().collect();
    assert_eq!(rows, [0, 0, 1, 1, 2, 2, 3, 3, 4, 4]);
    for (line, row) in lines.iter().zip(&state.layout.line_to_row) {
        let apart = matches!(line, ListLine::Header { .. } | ListLine::Blank);
        assert_eq!(row.is_none(), apart);
    }
}

#[test]
fn repo_popup_renders_repo_names_when_open() {
    let mut state = listed(1);
    state.repo_groups[0].name = "frontend".into();
    let mut backend = listed(1).repo_groups.remove(0);
    backend.name = "backend".into();
    state.repo_groups.push(backend);
    state.rebuild_row_targets();
    state.popup = PopupState::Repo { selected: 0, area: None };
    let popup = render_repo_popup(&mut state, area(40, 9));
    let texts: Vec<&str> = popup.items.iter().map(|item| item.text.as_str()).collect();
    assert_eq!(texts, [" All", " frontend", " backend"]);
    assert_eq!(popup.rect, Rect::new(28, 2, 12, 5));
    assert!(
        matches!(state.popup, PopupState::Repo { area: Some(_), .. }),
        "render should populate repo popup area for hit-testing"
    );
}

#[test]
fn popups_cut_what_is_too_wide() {
    let mut state = listed(1);
    state.popup = PopupState::SpawnInput {
        input: "fix the login".into(),
        agent_idx: 0,
        mode_idx: 0,
        field: SpawnField::Agent,
        repo_name: "repo".into(),
        repo_root: "/repo".into(),
        anchor_y: None,
        error: Some("branch exists already".into()),
        area: None,
    };
    let popup = render_spawn_input_popup(&mut state, area(12, 20), "opencode-agent", "plan");
    let popup = popup.unwrap();
    assert_eq!(popup.title, " Spawn wo…");
    let mut told = Vec::new();
    for row in &popup.rows {
        match &row.content {
            PopupContent::Label(field) => told.push(field_label(*field).to_string()),
            PopupContent::Input { text, cursor } => {
                assert!(!cursor);
                told.push(text.clone());
            }
            PopupContent::Value { text, .. } => told.push(text.clone()),
            PopupContent::Error(text) => told.push(text.clone()),
        }
    }
    let wanted =
        ["NAME", "… login", "AGENT", "opencod…", "MODE", "plan", "branch …"];
    assert_eq!(told, wanted);

    state.popup = PopupState::RemoveConfirm {
        pane_id: "%1".into(),
        branch: "feature/very-long".into(),
        error: None,
        area: None,
    };
    let popup = render_remove_confirm_popup(&mut state, area(12, 20)).unwrap();
    assert_eq!(popup.title, " feature/…");
    assert_eq!(RemoveContent::Cancel.shown_in(popup.rows[2].0), "[n] cancel");
    assert_eq!(RemoveContent::RemoveWorktree.shown_in(popup.rows[0].0), "[y] remov…");

    state.extensions.ui.detail = Some(DetailView {
        title: "A long title".into(),
        source: "/somewhere".into(),
        text: "body".into(),
        scroll: 0,
        previous_selection: None,
        previous_pane_scroll: 0,
    });
    let layout = draw_detail(&state, area(12, 20)).unwrap();
    assert_eq!(layout.title, " A long t…");
    assert_eq!(layout.source, "Source: /…");
}
