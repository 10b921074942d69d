use tmux_agent_sidebar::activity::{ActivityEntry, TaskProgress, TaskStatus};
use tmux_agent_sidebar::cli::sanitize_tmux_value;
use tmux_agent_sidebar::group::{PaneGitInfo, RepoGroup};
use tmux_agent_sidebar::port::PaneProcessSnapshot;
use tmux_agent_sidebar::process::ProcessSnapshot;
use tmux_agent_sidebar::state::refresh::{
    classify_task_progress, clear_dead_bg_shells, has_bg_shells, ps_line_matches_cmd,
    sweep_dead_bg_shells, LogRead, TaskProgressDecision, INACTIVE_GRACE_SECS,
};
use tmux_agent_sidebar::state::AppState;
use tmux_agent_sidebar::textmap::{TextMap, TextSet};
use tmux_agent_sidebar::tmux::options::{
    set_pane_option, PaneOptions, BG_CMD_PLACEHOLDER, PANE_BG_CMD, PANE_STATUS,
};
use tmux_agent_sidebar::tmux::types::{
    AgentType, PaneInfo, PaneStatus, PermissionMode, SessionInfo, WindowInfo, WorktreeMetadata,
};

fn set_of(members: &[&str]) -> TextSet {
    let mut set = TextSet::new();
    for member in members {
        set.insert(member.to_string());
    }
    set
}

fn map_of<V>(key: &str, value: V) -> TextMap<V> {
    let mut map = TextMap::new();
    map.insert(key.to_string(), value);
    map
}


fn test_pane(id: &str) -> PaneInfo {
    PaneInfo {
        pane_id: id.into(),
        pane_active: false,
        status: PaneStatus::Running,
        attention: false,
        agent: AgentType::Claude,
        path: "/tmp".into(),
        current_command: String::new(),
        prompt: String::new(),
        prompt_is_response: false,
        started_at: None,
        wait_reason: String::new(),
        permission_mode: PermissionMode::Default,
        subagents: vec![],
        pane_pid: None,
        worktree: WorktreeMetadata::default(),
        session_id: None,
        session_name: String::new(),
        sidebar_spawned: false,
        bg_shell_cmd: None,
    }
}

fn test_session(panes: Vec<PaneInfo>) -> Vec<SessionInfo> {
    vec![SessionInfo {
        session_name: "main".into(),
        windows: vec![WindowInfo {
            window_id: "@0".into(),
            window_name: "test".into(),
            window_active: true,
            auto_rename: false,
            panes,
        }],
    }]
}


fn pane_with_bg(id: &str, cmd: &str, status: PaneStatus) -> PaneInfo {
    let mut p = test_pane(id);
    p.bg_shell_cmd = Some(cmd.into());
    p.status = status;
    p.pane_pid = Some(100);
    p
}

fn process_snapshot(ps_out: &str) -> ProcessSnapshot {
    ProcessSnapshot::from_ps_output(ps_out)
}

#[test]
fn clear_dead_bg_shells_retains_shell_present_in_ps_output() {
    let mut options = PaneOptions::new();
    let pane_id = "%BG_ALIVE";
    set_pane_option(&mut options, pane_id, PANE_BG_CMD, "sleep 300");

    let mut sessions = test_session(vec![pane_with_bg(
        pane_id,
        "sleep 300",
        PaneStatus::Background,
    )]);
    let snapshot = process_snapshot("100 1 zsh /bin/zsh -c eval 'sleep 300' < /dev/null\n");

    clear_dead_bg_shells(&mut sessions, &snapshot, &mut options);

    assert_eq!(
        sessions[0].windows[0].panes[0].bg_shell_cmd.as_deref(),
        Some("sleep 300"),
        "a matching ps line must leave the marker intact",
    );
    assert!(options.contains(pane_id, PANE_BG_CMD));
}

#[test]
fn clear_dead_bg_shells_ignores_matching_command_in_other_pane_tree() {
    let mut options = PaneOptions::new();
    let pane_id = "%BG_OTHER_PANE";
    set_pane_option(&mut options, pane_id, PANE_BG_CMD, "sleep 300");
    set_pane_option(&mut options, pane_id, PANE_STATUS, "background");

    let mut sessions = test_session(vec![pane_with_bg(
        pane_id,
        "sleep 300",
        PaneStatus::Background,
    )]);
    let snapshot = process_snapshot("100 1 zsh /bin/zsh\n200 1 zsh /bin/zsh -c 'sleep 300'\n");

    clear_dead_bg_shells(&mut sessions, &snapshot, &mut options);

    let pane = &sessions[0].windows[0].panes[0];
    assert!(
        pane.bg_shell_cmd.is_none(),
        "a matching command outside the pane process tree must not keep the marker alive",
    );
    assert_eq!(pane.status, PaneStatus::Idle);
}

#[test]
fn clear_dead_bg_shells_clears_when_shell_missing_and_downgrades_background() {
    let mut options = PaneOptions::new();
    let pane_id = "%BG_DEAD";
    set_pane_option(&mut options, pane_id, PANE_BG_CMD, "sleep 300");
    set_pane_option(&mut options, pane_id, PANE_STATUS, "background");

    let mut sessions = test_session(vec![pane_with_bg(
        pane_id,
        "sleep 300",
        PaneStatus::Background,
    )]);
    // ps output contains nothing matching "sleep 300".
    let snapshot = process_snapshot("100 1 zsh /bin/zsh\n200 1 ssh /usr/bin/ssh host\n");

    clear_dead_bg_shells(&mut sessions, &snapshot, &mut options);

    let pane = &sessions[0].windows[0].panes[0];
    assert!(
        pane.bg_shell_cmd.is_none(),
        "local pane copy must be cleared so this tick's render reflects it",
    );
    assert_eq!(
        pane.status,
        PaneStatus::Idle,
        "background with a dead shell must downgrade to idle",
    );
    assert!(!options.contains(pane_id, PANE_BG_CMD));
    assert_eq!(
        options.get(pane_id, PANE_STATUS).as_deref(),
        Some("idle"),
    );
}

#[test]
fn clear_dead_bg_shells_does_not_touch_non_background_status() {
    let mut options = PaneOptions::new();
    let pane_id = "%BG_STALE_RUNNING";
    set_pane_option(&mut options, pane_id, PANE_STATUS, "running");
    set_pane_option(&mut options, pane_id, PANE_BG_CMD, "npm run dev");

    let mut sessions = test_session(vec![pane_with_bg(
        pane_id,
        "npm run dev",
        PaneStatus::Running,
    )]);
    let snapshot = process_snapshot("100 1 zsh /bin/zsh\n");

    clear_dead_bg_shells(&mut sessions, &snapshot, &mut options);

    let pane = &sessions[0].windows[0].panes[0];
    assert!(pane.bg_shell_cmd.is_none());
    assert_eq!(
        pane.status,
        PaneStatus::Running,
        "non-background status must be left alone",
    );
    assert_eq!(
        options.get(pane_id, PANE_STATUS).as_deref(),
        Some("running"),
    );
}

#[test]
fn clear_dead_bg_shells_preserves_placeholder_cmd() {
    let mut options = PaneOptions::new();
    let pane_id = "%BG_PLACEHOLDER";
    set_pane_option(&mut options, pane_id, PANE_BG_CMD, BG_CMD_PLACEHOLDER);

    let mut sessions = test_session(vec![pane_with_bg(
        pane_id,
        BG_CMD_PLACEHOLDER,
        PaneStatus::Background,
    )]);
    let snapshot = process_snapshot("");

    clear_dead_bg_shells(&mut sessions, &snapshot, &mut options);

    assert_eq!(
        sessions[0].windows[0].panes[0].bg_shell_cmd.as_deref(),
        Some(BG_CMD_PLACEHOLDER),
        "placeholder must survive — we cannot prove the shell is dead",
    );
    assert!(options.contains(pane_id, PANE_BG_CMD));
}

#[test]
fn clear_dead_bg_shells_treats_prefix_collision_as_dead() {
    // Regression: a naive `str::contains` match kept the marker
    // alive forever when a shorter stored cmd was a prefix of a
    // live longer cmd.
    let mut options = PaneOptions::new();
    let pane_id = "%BG_PREFIX_COLLIDE";
    set_pane_option(&mut options, pane_id, PANE_BG_CMD, "sleep 3");
    let mut sessions = test_session(vec![pane_with_bg(
        pane_id,
        "sleep 3",
        PaneStatus::Background,
    )]);
    let snapshot = process_snapshot("100 1 zsh /bin/zsh -c 'sleep 30' < /dev/null\n");

    clear_dead_bg_shells(&mut sessions, &snapshot, &mut options);

    assert!(
        sessions[0].windows[0].panes[0].bg_shell_cmd.is_none(),
        "the marker for `sleep 3` must clear when only `sleep 30` is running",
    );
}

#[test]
fn clear_dead_bg_shells_no_op_when_no_pane_has_bg_marker() {
    let mut options = PaneOptions::new();
    let mut sessions = test_session(vec![test_pane("%1")]);
    let snapshot = process_snapshot("100 1 zsh /bin/zsh\n");

    clear_dead_bg_shells(&mut sessions, &snapshot, &mut options);

    assert!(sessions[0].windows[0].panes[0].bg_shell_cmd.is_none());
}


#[test]
fn ps_line_matches_cmd_empty_cmd_never_matches() {
    assert!(!ps_line_matches_cmd("anything", ""));
    assert!(!ps_line_matches_cmd("", ""));
}

#[test]
fn ps_line_matches_cmd_no_occurrence_is_false() {
    assert!(!ps_line_matches_cmd("/bin/zsh", "sleep 300"));
}

#[test]
fn ps_line_matches_cmd_full_line_match() {
    assert!(ps_line_matches_cmd("sleep 300", "sleep 300"));
}

#[test]
fn ps_line_matches_cmd_match_at_start() {
    assert!(ps_line_matches_cmd("sleep 300 --flag", "sleep 300"));
}

#[test]
fn ps_line_matches_cmd_match_at_end() {
    assert!(ps_line_matches_cmd("/bin/zsh -c sleep 300", "sleep 300"));
}

#[test]
fn ps_line_matches_cmd_rejects_trailing_alnum() {
    // Stored "sleep 3" must not match a live "sleep 30" process.
    assert!(!ps_line_matches_cmd("sleep 30", "sleep 3"));
    assert!(!ps_line_matches_cmd("/bin/zsh sleep 300 end", "sleep 3"));
}

#[test]
fn ps_line_matches_cmd_rejects_leading_alnum() {
    // `mysleep 300` must not match `sleep 300`.
    assert!(!ps_line_matches_cmd("mysleep 300", "sleep 300"));
}

#[test]
fn ps_line_matches_cmd_accepts_non_alnum_boundary_chars() {
    // Quotes, parens, semicolons — all count as word boundaries.
    assert!(ps_line_matches_cmd(
        "/bin/zsh -c 'sleep 300' end",
        "sleep 300"
    ));
    assert!(ps_line_matches_cmd("(sleep 300);", "sleep 300"));
}

#[test]
fn ps_line_matches_cmd_multibyte_adjacent_treated_as_boundary() {
    // A non-ASCII char adjacent to the match must not panic and
    // must count as a boundary (the byte is not ASCII-alnum).
    assert!(ps_line_matches_cmd("🚀sleep 300", "sleep 300"));
    assert!(ps_line_matches_cmd("sleep 300🚀", "sleep 300"));
}

#[test]
fn ps_line_matches_cmd_piped_cmd_matches_ps_line_with_pipe() {
    // Regression for Bug A: `sanitize_tmux_value` replaces `|` with
    // a space before writing `@pane_bg_cmd`, so the stored value
    // never contains a pipe. ps, however, emits the raw command line
    // with `|` intact — so callers must pre-normalize ps lines through
    // the same filter before this match can see the two sides as equal.
    let raw_line = "/bin/zsh -c 'tail -f log.txt | grep ERROR'";
    let normalized = sanitize_tmux_value(raw_line);
    let stored = "tail -f log.txt   grep ERROR"; // post-sanitize
    assert!(ps_line_matches_cmd(&normalized, stored));
}

#[test]
fn ps_line_matches_cmd_newline_cmd_matches_ps_line() {
    // Same story for `\n` in the original command.
    let raw_line = "/bin/zsh -c 'echo one\necho two'";
    let normalized = sanitize_tmux_value(raw_line);
    let stored = "echo one echo two";
    assert!(ps_line_matches_cmd(&normalized, stored));
}

#[test]
fn ps_line_matches_cmd_rejects_hyphenated_continuation() {
    // Regression for Bug B: `cargo-watch` must not match
    // `cargo-watch-bin` — `-` is part of the token, not a boundary.
    assert!(!ps_line_matches_cmd(
        "/usr/local/bin/cargo-watch-bin",
        "cargo-watch"
    ));
    assert!(!ps_line_matches_cmd("npm-run-all-ng foo", "npm-run-all"));
}

#[test]
fn ps_line_matches_cmd_rejects_dot_continuation() {
    assert!(!ps_line_matches_cmd("node app.js.bak watch", "node app.js"));
}

#[test]
fn ps_line_matches_cmd_accepts_path_prefixed_cmd() {
    // `/` stays a boundary so a bare `cargo-watch` still matches
    // the full-path form ps typically emits for installed binaries.
    assert!(ps_line_matches_cmd(
        "/usr/local/bin/cargo-watch",
        "cargo-watch"
    ));
    assert!(ps_line_matches_cmd(
        "./cargo-watch --watch src",
        "cargo-watch"
    ));
}

#[test]
fn ps_line_matches_cmd_multiple_occurrences_one_valid_matches() {
    // If any occurrence satisfies the boundary check, return true.
    // First occurrence is glued to `mysleep 3`, second is standalone.
    assert!(ps_line_matches_cmd(
        "mysleep 30 /bin/sh sleep 30",
        "sleep 30"
    ));
}

#[test]
fn filter_sessions_to_live_agent_panes_removes_dead_panes() {
    let sessions = test_session(vec![test_pane("%1"), test_pane("%2")]);
    let live = set_of(&["%2"]);

    let filtered = AppState::filter_sessions_to_live_agent_panes(sessions, &live);

    assert_eq!(filtered.len(), 1);
    assert_eq!(filtered[0].windows.len(), 1);
    assert_eq!(filtered[0].windows[0].panes.len(), 1);
    assert_eq!(filtered[0].windows[0].panes[0].pane_id, "%2");
}

#[test]
fn filter_sessions_to_live_agent_panes_drops_empty_sessions() {
    let sessions = test_session(vec![test_pane("%1")]);
    let live = TextSet::new();

    let filtered = AppState::filter_sessions_to_live_agent_panes(sessions, &live);

    assert!(filtered.is_empty());
}

#[test]
fn process_liveness_preserves_first_miss_then_tears_down_second_miss() {
    let mut pane = test_pane("%1");
    pane.pane_pid = Some(100);
    let sessions = test_session(vec![pane]);
    let mut state = AppState::new("%sidebar".into());
    let live = PaneProcessSnapshot {
        ports_by_pane: map_of("%1", vec![3000]),
        command_by_pane: map_of("%1", "node server.js".to_string()),
        live_agent_panes: set_of(&["%1"]),
    };
    let missing = PaneProcessSnapshot::default();

    state.reconcile_agent_liveness(&sessions, &live);
    state.apply_port_sample(&sessions, &live);
    assert_eq!(state.pane_ports("%1"), Some(&[3000][..]));
    assert_eq!(state.pane_state("%1").unwrap().process_liveness_misses, 0);

    state.reconcile_agent_liveness(&sessions, &missing);
    assert_eq!(state.pane_ports("%1"), Some(&[][..]));
    assert_eq!(state.pane_state("%1").unwrap().process_liveness_misses, 1);
    assert_eq!(
        state
            .filter_sessions_after_process_liveness(sessions.clone())
            .len(),
        1
    );

    state.reconcile_agent_liveness(&sessions, &missing);
    assert_eq!(state.pane_state("%1").unwrap().process_liveness_misses, 2);
    assert!(
        state
            .filter_sessions_after_process_liveness(sessions.clone())
            .is_empty()
    );

    state.reconcile_agent_liveness(&sessions, &live);
    state.apply_port_sample(&sessions, &live);
    assert_eq!(state.pane_state("%1").unwrap().process_liveness_misses, 0);
    assert_eq!(state.pane_ports("%1"), Some(&[3000][..]));
}

#[test]
fn failed_process_sample_hides_ports_without_incrementing_liveness() {
    let sessions = test_session(vec![test_pane("%1")]);
    let mut state = AppState::new("%sidebar".into());
    state.set_pane_ports("%1", vec![3000]);
    state.set_pane_command("%1", Some("node server.js".into()));
    state.pane_state_mut("%1").process_liveness_misses = 1;

    state.invalidate_process_sample(&sessions);

    assert_eq!(state.pane_ports("%1"), Some(&[][..]));
    assert_eq!(state.pane_command("%1"), None);
    assert_eq!(state.pane_state("%1").unwrap().process_liveness_misses, 1);
}

//
// refresh_session_names no longer scans the filesystem itself; it
// only consumes the cached `session_names` map populated by the
// dedicated polling thread in `main.rs`. These tests pin that
// contract: the function must apply the cached snapshot to every
// pane and clear stale labels for panes whose session_id is no
// longer in the map.

fn pane_with_session(id: &str, session_id: &str) -> PaneInfo {
    let mut p = test_pane(id);
    p.session_id = Some(session_id.to_string());
    p
}

fn state_with_panes(panes: Vec<PaneInfo>) -> AppState {
    let mut state = AppState::new("%99".into());
    state.repo_groups = vec![RepoGroup {
        name: "test".into(),
        has_focus: true,
        panes: panes
            .into_iter()
            .map(|p| (p, PaneGitInfo::default()))
            .collect(),
    }];
    state
}

#[test]
fn refresh_session_names_applies_cached_map_to_panes() {
    let mut state = state_with_panes(vec![
        pane_with_session("%1", "sess-a"),
        pane_with_session("%2", "sess-b"),
    ]);
    state.sessions.names.insert("sess-a".into(), "alpha".into());
    state.sessions.names.insert("sess-b".into(), "beta".into());

    state.refresh_session_names();

    let names: Vec<&str> = state.repo_groups[0]
        .panes
        .iter()
        .map(|(p, _)| p.session_name.as_str())
        .collect();
    assert_eq!(names, vec!["alpha", "beta"]);
}

#[test]
fn refresh_session_names_clears_stale_label_when_session_id_missing() {
    // Pane already has a label from a previous tick, but its
    // session_id no longer appears in the cached map (e.g. the
    // session JSON file was deleted). The label must be cleared so
    // the UI does not show a name for a session that is gone.
    let mut state = state_with_panes(vec![pane_with_session("%1", "sess-gone")]);
    state.repo_groups[0].panes[0].0.session_name = "old-label".into();
    // session_names is empty — no entry for sess-gone.

    state.refresh_session_names();

    assert!(
        state.repo_groups[0].panes[0].0.session_name.is_empty(),
        "stale session_name must be cleared when the cache no longer has it"
    );
}

#[test]
fn apply_session_snapshot_marks_dirty_when_existing_pane_swaps_session_id() {
    // Pane %1 keeps the same pane_id across snapshots but its
    // session_id changes (e.g. the agent restarted with a new
    // session). Without dirty propagation,
    // refresh_session_names would be skipped and the UI would
    // keep showing the old session label forever.
    let mut state = state_with_panes(vec![pane_with_session("%1", "sess-old")]);
    state.sessions.dirty = false;

    let next = state_with_panes(vec![pane_with_session("%1", "sess-new")]).repo_groups;
    state.apply_session_snapshot(false, next, None, 1_000);

    assert!(
        state.sessions.dirty,
        "session_names_dirty must be set when an existing pane's session_id changes"
    );
}

#[test]
fn apply_session_snapshot_does_not_mark_dirty_when_session_ids_unchanged() {
    // Same pane, same session_id across snapshots — no need to
    // re-walk every pane, dirty flag should stay clear.
    let mut state = state_with_panes(vec![pane_with_session("%1", "sess-a")]);
    state.sessions.dirty = false;

    let next = state_with_panes(vec![pane_with_session("%1", "sess-a")]).repo_groups;
    state.apply_session_snapshot(false, next, None, 1_000);

    assert!(
        !state.sessions.dirty,
        "session_names_dirty must remain clear when nothing changed"
    );
}

#[test]
fn refresh_session_names_clears_label_for_pane_with_no_session_id() {
    // Pane has a session_name set but no session_id (e.g. a
    // agent of another kind or a pane that has not reported one yet).
    // The function must not preserve a label that no longer ties
    // to a known session.
    let mut state = state_with_panes(vec![test_pane("%1")]);
    state.repo_groups[0].panes[0].0.session_name = "stray".into();
    state.sessions.names.insert("sess-a".into(), "alpha".into());

    state.refresh_session_names();

    assert!(
        state.repo_groups[0].panes[0].0.session_name.is_empty(),
        "pane without session_id must end up with an empty session_name"
    );
}

#[test]
fn tasks_are_dismissed_once() {
    let done = TaskProgress {
        tasks: vec![("a".into(), TaskStatus::Completed)],
    };
    let open = TaskProgress {
        tasks: vec![("a".into(), TaskStatus::Pending)],
    };
    assert_eq!(
        classify_task_progress(&TaskProgress { tasks: vec![] }, None),
        TaskProgressDecision::Clear
    );
    assert_eq!(classify_task_progress(&open, None), TaskProgressDecision::Show);
    assert_eq!(
        classify_task_progress(&done, None),
        TaskProgressDecision::Dismiss { total: 1 }
    );
    assert_eq!(
        classify_task_progress(&done, Some(1)),
        TaskProgressDecision::Skip
    );
}

fn log(tasks: Vec<(String, TaskStatus)>, mtime: u64) -> LogRead {
    LogRead {
        mtime: Some(mtime),
        len: Some(mtime),
        progress: TaskProgress { tasks },
    }
}

#[test]
fn tasks_outlast_a_short_pause_of_the_agent() {
    let mut state = state_with_panes(vec![test_pane("%1")]);
    state.now = 100;
    let tasks = vec![("a".to_string(), TaskStatus::InProgress)];
    state.refresh_task_progress(&map_of("%1", log(tasks.clone(), 1)));
    assert_eq!(state.pane_task_progress("%1").map(|p| p.total()), Some(1));
    state.repo_groups[0].panes[0].0.status = PaneStatus::Idle;
    state.refresh_task_progress(&map_of("%1", log(tasks.clone(), 1)));
    assert_eq!(state.pane_task_progress("%1").map(|p| p.total()), Some(1));
    state.now = 100 + INACTIVE_GRACE_SECS + 1;
    state.refresh_task_progress(&map_of("%1", log(tasks, 1)));
    assert!(state.pane_task_progress("%1").is_none());
}

#[test]
fn sweeping_twice_changes_nothing_more() {
    let mut options = PaneOptions::new();
    let mut sessions = test_session(vec![pane_with_bg(
        "%1",
        "sleep 300",
        PaneStatus::Background,
    )]);
    assert!(has_bg_shells(&sessions));
    let snapshot = process_snapshot("100 1 zsh /bin/zsh\n");
    sweep_dead_bg_shells(&mut sessions, None, &mut options);
    assert!(has_bg_shells(&sessions));
    sweep_dead_bg_shells(&mut sessions, Some(&snapshot), &mut options);
    assert!(!has_bg_shells(&sessions));
    let writes = options.writes.len();
    sweep_dead_bg_shells(&mut sessions, Some(&snapshot), &mut options);
    assert_eq!(options.writes.len(), writes);
}

#[test]
fn sweeps_are_spaced() {
    let mut state = AppState::new("%99".into());
    let mut sessions = test_session(vec![test_pane("%1")]);
    assert!(state.bg_sweep_due(5));
    state.sweep_dead_bg_shells_if_due(&mut sessions, None, 5);
    assert!(!state.bg_sweep_due(6));
    assert!(state.bg_sweep_due(5 + 60 * 60 * 1000));
}

#[test]
fn the_log_of_the_focused_pane_is_shown() {
    let mut state = AppState::new("%99".into());
    let entry = || {
        vec![ActivityEntry {
            timestamp: "10:00".into(),
            tool: "Bash".into(),
            label: "ls".into(),
        }]
    };
    state.refresh_activity_log(Some(1), entry());
    assert!(state.activity.entries.is_empty());
    state.find_focused_pane(Some("%1".into()));
    assert!(!state.activity_log_shown(Some(1)));
    state.refresh_activity_log(Some(1), entry());
    assert_eq!(state.activity.entries.len(), 1);
    assert!(state.activity_log_shown(Some(1)));
    assert!(!state.activity_log_shown(Some(2)));
}

#[test]
fn values_are_sanitized_once() {
    let clean = sanitize_tmux_value("a|b\nc");
    assert_eq!(clean, "a b c");
    assert_eq!(sanitize_tmux_value(&clean), clean);
}

#[test]
fn a_pane_is_given_up_after_its_second_miss() {
    let mut state = AppState::new("%99".into());
    let mut gone = test_pane("%1");
    gone.pane_pid = Some(10);
    gone.agent = AgentType::Codex;
    let snapshot = process_snapshot("10 1 zsh zsh\n");
    let kept = state.reconcile_sessions(test_session(vec![gone.clone()]), Some(&snapshot));
    assert_eq!(kept.len(), 1);
    let kept = state.reconcile_sessions(test_session(vec![gone.clone()]), Some(&snapshot));
    assert!(kept.is_empty());
    // Without a list of processes nothing is known to be gone.
    let kept = state.reconcile_sessions(test_session(vec![gone]), None);
    assert_eq!(kept.len(), 1);
}

#[test]
fn ports_are_scanned_every_ten_seconds() {
    let mut state = AppState::new("%99".into());
    let mut server = test_pane("%1");
    server.pane_pid = Some(10);
    let sessions = test_session(vec![server]);
    let snapshot = process_snapshot("10 1 zsh zsh\n11 10 node node server.js\n");
    assert!(state.port_refresh_due(0));
    let found = state.refresh_port_data(&sessions, Some(&snapshot), Some("p11\nn*:3000\n"), 0);
    assert!(found.is_some());
    assert_eq!(state.pane_ports("%1"), Some(&[3000u16][..]));
    assert!(!state.port_refresh_due(9_999));
    let found = state.refresh_port_data(&sessions, Some(&snapshot), Some(""), 9_999);
    assert!(found.is_none());
    assert_eq!(state.pane_ports("%1"), Some(&[3000u16][..]));
    assert!(state.port_refresh_due(10_000));
    assert!(state.refresh_port_data(&sessions, Some(&snapshot), None, 10_000).is_none());
    assert_eq!(state.pane_ports("%1"), Some(&[][..]));
}

#[test]
fn names_are_settled_once_they_changed() {
    let mut state = state_with_panes(vec![pane_with_session("%1", "sess-a")]);
    state.sessions.names = map_of("sess-a", "alpha".to_string());
    state.sessions.dirty = false;
    state.settle_session_names();
    assert!(state.repo_groups[0].panes[0].0.session_name.is_empty());
    state.sessions.dirty = true;
    state.settle_session_names();
    assert_eq!(state.repo_groups[0].panes[0].0.session_name, "alpha");
    assert!(!state.sessions.dirty);
}

#[test]
fn panes_that_are_gone_are_forgotten() {
    let mut state = state_with_panes(vec![test_pane("%1")]);
    state.set_pane_ports("%1", vec![80]);
    state.prune_pane_states_to_current_panes();
    assert!(state.pane_state("%1").is_some());
    state.repo_groups.clear();
    state.prune_pane_states_to_current_panes();
    assert!(state.pane_state("%1").is_none());
}

#[test]
fn a_failed_listing_keeps_what_is_known() {
    let mut state = AppState::new("%sidebar".into());
    state.repo_groups = vec![RepoGroup {
        name: "project".into(),
        has_focus: true,
        panes: vec![(test_pane("%1"), PaneGitInfo::default())],
    }];
    state.rebuild_row_targets();
    let rows = state.layout.pane_row_targets.len();
    assert!(!state.listing_needs_processes(&None, 0));
    assert!(state.take_listing(None, None, 0).is_none());
    assert_eq!(state.repo_groups.len(), 1);
    assert_eq!(state.repo_groups[0].panes[0].0, test_pane("%1"));
    assert_eq!(state.layout.pane_row_targets.len(), rows);
    assert!(state.bg_sweep_due(0), "a failed listing is no sweep");
}

#[test]
fn a_listing_is_swept_and_held_against_the_processes() {
    let mut state = AppState::new("%sidebar".into());
    let mut gone = test_pane("%1");
    gone.pane_pid = Some(40);
    gone.agent = AgentType::Codex;
    gone.bg_shell_cmd = Some("npm run dev".into());
    let listed = || Some(test_session(vec![gone.clone()]));
    assert!(state.listing_needs_processes(&listed(), 0));
    let snapshot = process_snapshot("40 1 zsh zsh\n");
    let kept = state.take_listing(listed(), Some(&snapshot), 0).unwrap();
    assert_eq!(kept[0].windows[0].panes[0].bg_shell_cmd, None);
    assert!(!state.bg_sweep_due(0));
    assert!(!state.listing_needs_processes(&listed(), 0));
    let kept = state.take_listing(listed(), Some(&snapshot), 1).unwrap();
    assert!(kept.is_empty(), "a second miss takes the pane out");
}

#[test]
fn a_listing_is_shown_with_the_names_of_its_sessions() {
    let mut state = AppState::new("%sidebar".into());
    let mut named = test_pane("%1");
    named.session_id = Some("s1".into());
    state.sessions.names = map_of("s1", "fix-csv".to_string());
    state.sessions.dirty = true;
    let group = RepoGroup {
        name: "project".into(),
        has_focus: true,
        panes: vec![(named, PaneGitInfo::default())],
    };
    state.show_listing(true, vec![group], Some("%1".into()), 10_000);
    assert_eq!(state.repo_groups[0].panes[0].0.session_name, "fix-csv");
    assert!(!state.sessions.dirty);
    assert_eq!(state.focus_state.focused_pane_id.as_deref(), Some("%1"));
    assert!(state.listing_needs_sockets(10_000) == state.show_ports);
}
