use tmux_agent_sidebar::process::ProcessSnapshot;
use tmux_agent_sidebar::tmux::codex::apply_codex_permission_modes;
use tmux_agent_sidebar::tmux::hierarchy::{
    build_session_hierarchy, finalize_sessions, pane_output_needs_process_snapshot,
    query_sessions, query_sessions_with_process_snapshot, SessionMap,
};
use tmux_agent_sidebar::tmux::options::{
    set_pane_option, PaneOptions, PANE_AGENT, PANE_CWD, PANE_PROMPT, PANE_PROMPT_SOURCE,
    PANE_STARTED_AT, PANE_STATUS, PANE_WAIT_REASON,
};
use tmux_agent_sidebar::tmux::query::{
    detect_codex_permission_mode, is_shell_command, pane_format, parse_pane_fields_with_processes,
    parse_pane_line, parse_subagents, sanitize_prompt, split_tmux_fields, FIELD_AGENT,
    FIELD_BG_CMD, FIELD_CURRENT_COMMAND, FIELD_PANE_ID, FIELD_PANE_PID,
};
use tmux_agent_sidebar::tmux::types::{
    AgentType, PaneInfo, PaneStatus, PermissionMode, WindowInfo, WorktreeMetadata,
};

fn read_pane(line: &str) -> Option<PaneInfo> {
    parse_pane_line(line, &mut PaneOptions::new())
}

#[test]
fn detect_codex_permission_mode_variants() {
    assert_eq!(
        detect_codex_permission_mode("codex"),
        PermissionMode::Default
    );
    assert_eq!(
        detect_codex_permission_mode("codex --full-auto"),
        PermissionMode::Auto
    );
    assert_eq!(
        detect_codex_permission_mode("codex --dangerously-bypass-approvals-and-sandbox"),
        PermissionMode::BypassPermissions
    );
    assert_eq!(
        detect_codex_permission_mode("codex --full-auto --yolo"),
        PermissionMode::BypassPermissions
    );
}

fn test_pane_codex(id: &str) -> PaneInfo {
    PaneInfo {
        pane_id: id.into(),
        pane_active: false,
        status: PaneStatus::Idle,
        attention: false,
        agent: AgentType::Codex,
        path: "/tmp".into(),
        current_command: String::new(),
        prompt: String::new(),
        prompt_is_response: false,
        started_at: None,
        wait_reason: String::new(),
        permission_mode: PermissionMode::Default,
        subagents: vec![],
        pane_pid: None,
        worktree: WorktreeMetadata::default(),
        session_id: None,
        session_name: String::new(),
        sidebar_spawned: false,
        bg_shell_cmd: None,
    }
}

#[test]
fn apply_codex_permission_modes_from_ps() {
    let mut panes = vec![test_pane_codex("%1")];
    let pids = vec![(0, 101)];
    let ps_out = "101 1 bash /bin/bash\n102 101 codex /bin/codex --full-auto\n";
    let snapshot = ProcessSnapshot::from_ps_output(ps_out);

    apply_codex_permission_modes(&mut panes, &pids, &snapshot);
    assert_eq!(panes[0].permission_mode, PermissionMode::Auto);
}

#[test]
fn apply_codex_permission_modes_follows_shell_wrappers() {
    let mut panes = vec![test_pane_codex("%1")];
    let pids = vec![(0, 101)];
    let ps_out = "101 1 bash /bin/bash\n102 101 sh -c wrapper\n103 102 codex /usr/local/bin/codex --yolo\n";
    let snapshot = ProcessSnapshot::from_ps_output(ps_out);

    apply_codex_permission_modes(&mut panes, &pids, &snapshot);
    assert_eq!(panes[0].permission_mode, PermissionMode::BypassPermissions);
}

#[test]
fn apply_codex_permission_modes_matches_path_comm() {
    let mut panes = vec![test_pane_codex("%1")];
    let pids = vec![(0, 101)];
    let ps_out = "101 1 /bin/zsh /bin/zsh\n102 101 /opt/homebrew/bin/codex /opt/homebrew/bin/codex --full-auto\n";
    let snapshot = ProcessSnapshot::from_ps_output(ps_out);

    apply_codex_permission_modes(&mut panes, &pids, &snapshot);
    assert_eq!(panes[0].permission_mode, PermissionMode::Auto);
}

#[test]
fn parse_ps_processes_preserves_spaced_args() {
    let snapshot = ProcessSnapshot::from_ps_output(
        "100 1 codex /Applications/Codex App/bin/codex --full-auto\n101 100 sh sh -c wrapper\n",
    );

    assert_eq!(snapshot.children_of.get(&1).cloned(), Some(vec![100]));
    let info = snapshot.info_by_pid.get(&100).expect("process info");
    assert_eq!(info.comm, "codex");
    assert_eq!(info.args, "/Applications/Codex App/bin/codex --full-auto");
}

#[test]
fn process_tree_has_agent_matches_descendant_process_name() {
    let snapshot = ProcessSnapshot::from_ps_output(
        "100 1 fish fish -c opencode\n101 100 opencode opencode\n",
    );

    assert!(snapshot.tree_has_agent(&[100], &AgentType::OpenCode));
    assert!(!snapshot.tree_has_agent(&[100], &AgentType::Codex));
}


#[test]
fn sanitize_prompt_filters_system_injected() {
    assert_eq!(
        sanitize_prompt("<system-reminder>noise</system-reminder>"),
        ""
    );
    assert_eq!(
        sanitize_prompt("hello <task-notification>abc</task-notification> world"),
        ""
    );
}

#[test]
fn sanitize_prompt_passes_normal_text() {
    assert_eq!(sanitize_prompt("fix the bug"), "fix the bug");
}

#[test]
fn sanitize_prompt_keeps_legitimate_angle_brackets() {
    assert_eq!(sanitize_prompt("1 < 2 and 3 > 1"), "1 < 2 and 3 > 1");
}

#[test]
fn sanitize_prompt_truncates_long_text() {
    let long = "a".repeat(300);
    let result = sanitize_prompt(&long);
    assert_eq!(result.chars().count(), 200);
}

#[test]
fn sanitize_prompt_empty() {
    assert_eq!(sanitize_prompt(""), "");
}


#[test]
fn parse_subagents_empty() {
    assert_eq!(parse_subagents(""), Vec::<String>::new());
}

#[test]
fn parse_subagents_single() {
    assert_eq!(parse_subagents("Explore"), vec!["Explore"]);
}

#[test]
fn parse_subagents_multiple() {
    assert_eq!(
        parse_subagents("Explore,Plan,Bash"),
        vec!["Explore", "Plan", "Bash"]
    );
}

#[test]
fn parse_subagents_duplicates() {
    assert_eq!(
        parse_subagents("Explore,Explore,Plan"),
        vec!["Explore", "Explore", "Plan"]
    );
}

#[test]
fn parse_subagents_renders_id_prefix() {
    // Current format: `type:id`. The id prefix is used as a stable
    // `#<prefix>` label so surviving siblings do not renumber when
    // another subagent stops.
    assert_eq!(
        parse_subagents("Explore:sub123456,Plan:abc987654"),
        vec!["Explore #sub1", "Plan #abc9"]
    );
}

#[test]
fn parse_subagents_id_prefix_distinguishes_parallel_same_type() {
    // Two subagents of the same type get distinct labels from their ids,
    // which is the whole point of id-based tagging.
    assert_eq!(
        parse_subagents("Explore:aaaa1111,Explore:bbbb2222"),
        vec!["Explore #aaaa", "Explore #bbbb"]
    );
}

#[test]
fn parse_subagents_id_shorter_than_prefix_len_uses_full_id() {
    // Short ids (e.g. test fixtures like "s1") render in full rather
    // than being padded or truncated to nothing.
    assert_eq!(parse_subagents("Plan:s1"), vec!["Plan #s1"]);
}

#[test]
fn parse_subagents_legacy_without_id_renders_type_only() {
    // Stale entry written before id tracking (or by an older build)
    // falls back to the bare type name.
    assert_eq!(
        parse_subagents("Explore,Plan:sub-999"),
        vec!["Explore", "Plan #sub-"]
    );
}


fn make_pane_line(fields: &[&str]) -> String {
    fields.join("|")
}

fn full_fields() -> Vec<&'static str> {
    vec![
        "1",                  // 0: pane_active
        "running",            // 1: @pane_status
        "",                   // 2: @pane_attention
        AgentType::Claude.as_str(), // 3: @pane_agent
        "my-agent",           // 4: @pane_name
        "/home/user/project", // 5: pane_current_path
        "fish",               // 6: pane_current_command
        "",                   // 7: @pane_role
        "%1",                 // 8: pane_id
        "fix the bug",        // 9: @pane_prompt
        "user",               // 10: @pane_prompt_source
        "1700000000",         // 11: @pane_started_at
        "",                   // 12: @pane_wait_reason
        "12345",              // 13: pane_pid
        "Explore,Plan",       // 14: @pane_subagents
        "/custom/cwd",        // 15: @pane_cwd
        "auto",               // 16: @pane_permission_mode
        "",                   // 17: @pane_worktree_name
        "",                   // 18: @pane_worktree_branch
        "",                   // 19: @pane_session_id
        "",                   // 20: @agent-sidebar-spawned
        "",                   // 21: @pane_bg_cmd
    ]
}

fn process_snapshot(ps_out: &str) -> ProcessSnapshot {
    ProcessSnapshot::from_ps_output(ps_out)
}

fn field_strings(fields: &[&str]) -> Vec<String> {
    fields.iter().map(|field| (*field).to_string()).collect()
}

#[test]
fn parse_pane_line_full_fields() {
    let line = make_pane_line(&full_fields());
    let pane = read_pane(&line).expect("should parse 22 fields");
    assert!(pane.pane_active);
    assert_eq!(pane.status, PaneStatus::Running);
    assert_eq!(pane.agent, AgentType::Claude);
    assert_eq!(pane.path, "/custom/cwd"); // pane_cwd preferred
    assert_eq!(pane.current_command, "fish");
    assert_eq!(pane.pane_id, "%1");
    assert_eq!(pane.prompt, "fix the bug");
    assert!(!pane.prompt_is_response);
    assert_eq!(pane.started_at, Some(1700000000));
    assert_eq!(pane.pane_pid, Some(12345));
    assert_eq!(pane.subagents, vec!["Explore", "Plan"]);
    assert_eq!(pane.permission_mode, PermissionMode::Auto);
}

#[test]
fn parse_pane_line_sidebar_spawned_field() {
    let mut fields = full_fields();
    fields[20] = "1";
    let pane = read_pane(&make_pane_line(&fields)).unwrap();
    assert!(pane.sidebar_spawned);

    fields[20] = "";
    let pane = read_pane(&make_pane_line(&fields)).unwrap();
    assert!(!pane.sidebar_spawned);

    fields[20] = "0";
    let pane = read_pane(&make_pane_line(&fields)).unwrap();
    assert!(
        !pane.sidebar_spawned,
        "any value other than `1` is treated as false"
    );
}

#[test]
fn parse_pane_line_response_prompt_source() {
    let mut fields = full_fields();
    fields[10] = "response"; // @pane_prompt_source
    let line = make_pane_line(&fields);
    let pane = read_pane(&line).unwrap();
    assert!(pane.prompt_is_response);
}

#[test]
fn parse_pane_line_rejects_fewer_than_min_fields() {
    // Only 15 fields — should be rejected
    let agent = AgentType::Claude.as_str();
    let fields_15 =
        format!("1|running||{agent}|name|/path|fish||%1|prompt|1700000000||12345|Explore|/cwd");
    assert!(
        read_pane(&fields_15).is_none(),
        "15 fields should be rejected"
    );

    // 21 fields — still rejected (need 22 including @pane_bg_cmd).
    let fields_21 = format!("1|running||{agent}|name|/path|fish||%1|prompt|user|1700000000||12345|Explore|/cwd|auto||||");
    assert!(
        read_pane(&fields_21).is_none(),
        "21 fields should be rejected"
    );
}

#[test]
fn parse_pane_line_reads_bg_cmd_field() {
    let mut fields = full_fields();
    fields[FIELD_BG_CMD] = "cargo build --release";
    let pane = read_pane(&make_pane_line(&fields)).unwrap();
    assert_eq!(
        pane.bg_shell_cmd.as_deref(),
        Some("cargo build --release"),
        "bg_shell_cmd should surface the @pane_bg_cmd value"
    );

    fields[FIELD_BG_CMD] = "";
    let pane = read_pane(&make_pane_line(&fields)).unwrap();
    assert!(
        pane.bg_shell_cmd.is_none(),
        "empty @pane_bg_cmd should parse as None"
    );
}

#[test]
fn parse_pane_line_rejects_sidebar_role() {
    let mut fields = full_fields();
    fields[7] = "sidebar";
    let line = make_pane_line(&fields);
    assert!(
        read_pane(&line).is_none(),
        "sidebar role should be filtered out"
    );
}

#[test]
fn parse_pane_line_rejects_unknown_agent() {
    let mut fields = full_fields();
    fields[3] = ""; // no agent type
    let line = make_pane_line(&fields);
    assert!(
        read_pane(&line).is_none(),
        "empty agent should be rejected"
    );
}

#[test]
fn parse_pane_line_falls_back_to_pane_current_path() {
    let mut fields = full_fields();
    fields[15] = ""; // empty pane_cwd
    let line = make_pane_line(&fields);
    let pane = read_pane(&line).unwrap();
    assert_eq!(
        pane.path, "/home/user/project",
        "should fall back to pane_current_path when pane_cwd is empty"
    );
}

#[test]
fn parse_pane_line_preserves_pipe_in_path() {
    let mut fields = full_fields();
    fields[5] = "/home/user/a\\|b";
    fields[15] = "";
    let line = make_pane_line(&fields);
    let pane = read_pane(&line).unwrap();
    assert_eq!(pane.path, "/home/user/a|b");
}

#[test]
fn split_tmux_fields_unescapes_delimiter() {
    let fields = split_tmux_fields("one|two\\|still-two|three", '|');
    assert_eq!(fields, vec!["one", "two|still-two", "three"]);
}

#[test]
fn parse_pane_line_codex_ignores_permission_mode_field() {
    let mut fields = full_fields();
    fields[3] = "codex";
    fields[6] = "node";
    fields[16] = "auto"; // should be ignored for codex
    let line = make_pane_line(&fields);
    let pane = read_pane(&line).unwrap();
    assert_eq!(
        pane.permission_mode,
        PermissionMode::Default,
        "codex should not read permission_mode from tmux variable"
    );
}

#[test]
fn parse_pane_line_rejects_stale_codex_shell_pane() {
    let mut fields = full_fields();
    fields[3] = "codex";
    fields[6] = "zsh";
    let line = make_pane_line(&fields);
    assert!(
        read_pane(&line).is_none(),
        "codex metadata on a shell pane should be treated as stale"
    );
}

#[test]
fn parse_pane_line_rejects_stale_codex_shell_pane_with_path_and_args() {
    let mut fields = full_fields();
    fields[3] = "codex";
    fields[6] = "/usr/local/bin/PwSh -l";
    let line = make_pane_line(&fields);
    assert!(
        read_pane(&line).is_none(),
        "shell detection should handle paths, args, and case differences"
    );
}

#[test]
fn parse_pane_line_does_not_wipe_claude_on_shell_command() {
    // This agent has a SessionEnd hook of its own, so the poller must NOT sweep its
    // pane state even when `current_command` is a shell — otherwise
    // we race with the hook and lose legitimate prompt/status.
    let mut options = PaneOptions::new();
    let pane = "%CLAUDE_SHELL";
    set_pane_option(&mut options, pane, PANE_AGENT, AgentType::Claude.as_str());
    set_pane_option(&mut options, pane, PANE_PROMPT, "keep me");
    set_pane_option(&mut options, pane, PANE_STATUS, "running");

    let mut fields = full_fields();
    fields[FIELD_PANE_ID] = pane;
    fields[FIELD_AGENT] = AgentType::Claude.as_str();
    fields[FIELD_CURRENT_COMMAND] = "bash";
    let _ = parse_pane_line(&make_pane_line(&fields), &mut options);

    assert!(options.contains(pane, PANE_AGENT));
    assert!(options.contains(pane, PANE_PROMPT));
    assert_eq!(
        options.get(pane, PANE_PROMPT).as_deref(),
        Some("keep me"),
        "the prompt must survive — SessionEnd hook is the clear path",
    );
}

#[test]
fn parse_pane_fields_keeps_opencode_shell_pane_when_process_is_alive() {
    let mut options = PaneOptions::new();
    let pane = "%OPENCODE_LIVE";
    set_pane_option(&mut options, pane, PANE_AGENT, "opencode");
    set_pane_option(&mut options, pane, PANE_PROMPT, "keep me");

    let mut fields = full_fields();
    fields[FIELD_PANE_ID] = pane;
    fields[FIELD_AGENT] = "opencode";
    fields[FIELD_CURRENT_COMMAND] = "fish";
    fields[FIELD_PANE_PID] = "100";
    let fields = field_strings(&fields);
    let snapshot = process_snapshot("100 1 fish fish -c opencode\n101 100 opencode opencode\n");

    let pane_info = parse_pane_fields_with_processes(&fields, Some(&snapshot), &mut options)
        .expect("live OpenCode child process should keep pane visible");

    assert_eq!(pane_info.agent, AgentType::OpenCode);
    assert!(options.contains(pane, PANE_AGENT));
    assert_eq!(
        options.get(pane, PANE_PROMPT).as_deref(),
        Some("keep me"),
        "live OpenCode panes must not be swept just because tmux reports a shell"
    );
}

#[test]
fn parse_pane_fields_keeps_codex_shell_pane_when_process_is_alive() {
    let mut options = PaneOptions::new();
    let pane = "%CODEX_LIVE";
    set_pane_option(&mut options, pane, PANE_AGENT, "codex");
    set_pane_option(&mut options, pane, PANE_PROMPT, "keep me");

    let mut fields = full_fields();
    fields[FIELD_PANE_ID] = pane;
    fields[FIELD_AGENT] = "codex";
    fields[FIELD_CURRENT_COMMAND] = "zsh";
    fields[FIELD_PANE_PID] = "200";
    let fields = field_strings(&fields);
    let snapshot = process_snapshot(
        "200 1 zsh zsh -c codex\n201 200 codex /opt/homebrew/bin/codex --full-auto\n",
    );

    let pane_info = parse_pane_fields_with_processes(&fields, Some(&snapshot), &mut options)
        .expect("live Codex child process should keep pane visible");

    assert_eq!(pane_info.agent, AgentType::Codex);
    assert!(options.contains(pane, PANE_AGENT));
    assert_eq!(
        options.get(pane, PANE_PROMPT).as_deref(),
        Some("keep me"),
        "live Codex panes must not be swept just because tmux reports a shell"
    );
}

#[test]
fn finalize_sessions_drops_windows_with_no_panes() {
    // Regression: build_session_hierarchy() creates a WindowInfo as
    // soon as it sees a tmux row, but parse_pane_line() may then
    // reject every pane in that window (sidebar / shell / unknown).
    // finalize_sessions must filter out the resulting empty windows
    // so downstream code never has to special-case them.
    let mut sessions_map: SessionMap = indexmap::IndexMap::new();
    let entry = sessions_map.entry("main".to_string()).or_default();
    entry.insert(
        "@1".to_string(),
        WindowInfo {
            window_id: "@1".into(),
            window_name: "with-pane".into(),
            window_active: true,
            auto_rename: false,
            panes: vec![PaneInfo {
                pane_id: "%1".into(),
                pane_active: true,
                status: PaneStatus::Running,
                attention: false,
                agent: AgentType::Claude,
                path: "/repo".into(),
                current_command: String::new(),
                prompt: String::new(),
                prompt_is_response: false,
                started_at: None,
                wait_reason: String::new(),
                permission_mode: PermissionMode::Default,
                subagents: vec![],
                pane_pid: None,
                worktree: WorktreeMetadata::default(),
                session_id: None,
                session_name: String::new(),
                sidebar_spawned: false,
                bg_shell_cmd: None,
            }],
        },
    );
    entry.insert(
        "@2".to_string(),
        WindowInfo {
            window_id: "@2".into(),
            window_name: "empty".into(),
            window_active: false,
            auto_rename: false,
            panes: vec![],
        },
    );

    let sessions = finalize_sessions(sessions_map);

    assert_eq!(sessions.len(), 1, "session should survive");
    assert_eq!(
        sessions[0].windows.len(),
        1,
        "empty window must be filtered out"
    );
    assert_eq!(sessions[0].windows[0].window_id, "@1");
}

#[test]
fn finalize_sessions_drops_session_when_all_windows_are_empty() {
    let mut sessions_map: SessionMap = indexmap::IndexMap::new();
    let entry = sessions_map.entry("dead".to_string()).or_default();
    entry.insert(
        "@9".to_string(),
        WindowInfo {
            window_id: "@9".into(),
            window_name: "ghost".into(),
            window_active: false,
            auto_rename: false,
            panes: vec![],
        },
    );

    let sessions = finalize_sessions(sessions_map);

    assert!(sessions.is_empty(), "session with no panes must be dropped");
}


/// Construct a minimal valid pane line for `build_session_hierarchy`
/// with the given session name and pane_pid. All other fields are
/// empty/defaults — enough to survive parsing as an opencode pane.
fn make_full_pane_line(session_name: &str, pane_pid: u32) -> String {
    // Field layout (pane_format):
    // 0:session_name|1:window_id|2:window_index|3:window_name|
    // 4:window_active|5:automatic-rename|6:pane_active|7:@pane_status|
    // 8:@pane_attention|9:@pane_agent|10:@pane_name|
    // 11:pane_current_path|12:pane_current_command|13:@pane_role|
    // 14:pane_id|15:@pane_prompt|16:@pane_prompt_source|
    // 17:@pane_started_at|18:@pane_wait_reason|19:pane_pid|
    // 20:@pane_subagents|21:@pane_cwd|22:@pane_permission_mode|
    // 23:@pane_worktree_name|24:@pane_worktree_branch|
    // 25:@pane_session_id|26:@agent-sidebar-spawned|27:@pane_bg_cmd
    // 28 total fields (MIN_FIELDS = 28)
    let mut fields: Vec<&str> = vec![""; 28];
    fields[0] = session_name;
    fields[1] = "@0"; // window_id
    fields[3] = "win"; // window_name
    fields[4] = "1"; // window_active
    fields[9] = "opencode"; // @pane_agent
    fields[11] = "/tmp"; // pane_current_path
    fields[14] = "%0"; // pane_id
    fields[21] = "/tmp"; // @pane_cwd
    let pid_str = pane_pid.to_string();
    fields[19] = &pid_str; // pane_pid
    fields.join("|")
}

#[test]
fn build_session_hierarchy_dedups_nonzero_pane_pid_only() {
    // Two rows with same non-zero pane_pid: only the first is retained.
    let line_a = make_full_pane_line("primary", 42);
    let line_b = make_full_pane_line("grouped", 42);
    // Two more rows with pane_pid = 0: both retained (no dedup on zero).
    let line_c = make_full_pane_line("primary", 0);
    let line_d = make_full_pane_line("grouped", 0);

    let input = format!("{line_a}\n{line_b}\n{line_c}\n{line_d}");
    let hierarchy = build_session_hierarchy(&input, None, &mut PaneOptions::new());
    let sessions = finalize_sessions(hierarchy.sessions);

    // Should produce two sessions: "primary" and "grouped"
    assert_eq!(sessions.len(), 2);

    let primary = sessions
        .iter()
        .find(|s| s.session_name == "primary")
        .unwrap();
    let grouped = sessions
        .iter()
        .find(|s| s.session_name == "grouped")
        .unwrap();

    // primary: non-zero pane (42) + zero pane (0) — both retained
    assert_eq!(
        primary.windows[0].panes.len(),
        2,
        "primary session should have both pane 42 and pane 0"
    );

    // grouped: panes with pane_pid 42 and 42 are duplicates,
    // so 42 is skipped. Only pane 0 is retained (no dedup on zero).
    assert_eq!(
        grouped.windows[0].panes.len(),
        1,
        "grouped session should only have pane 0 (pane 42 was deduped)"
    );
    assert_eq!(
        grouped.windows[0].panes[0].pane_pid,
        Some(0),
        "retained pane should be the zero-pid one"
    );
}

#[test]
fn a_stale_pane_is_wiped() {
    let mut options = PaneOptions::new();
    let pane = "%CODEX_STALE";
    for key in [
        PANE_AGENT,
        PANE_PROMPT,
        PANE_PROMPT_SOURCE,
        PANE_STATUS,
        PANE_STARTED_AT,
        PANE_CWD,
        PANE_WAIT_REASON,
    ] {
        set_pane_option(&mut options, pane, key, "x");
    }
    let mut fields = full_fields();
    fields[FIELD_PANE_ID] = pane;
    fields[FIELD_AGENT] = "codex";
    fields[FIELD_CURRENT_COMMAND] = "zsh";
    assert!(parse_pane_line(&make_pane_line(&fields), &mut options).is_none());
    for key in [
        PANE_AGENT,
        PANE_PROMPT,
        PANE_PROMPT_SOURCE,
        PANE_STATUS,
        PANE_STARTED_AT,
        PANE_CWD,
        PANE_WAIT_REASON,
    ] {
        assert!(!options.contains(pane, key), "{key} must be cleared");
    }
}

#[test]
fn shells_are_told_from_other_commands() {
    assert!(is_shell_command("zsh"));
    assert!(is_shell_command("/bin/BASH -l"));
    assert!(!is_shell_command("node"));
    assert!(!is_shell_command(""));
}

#[test]
fn sessions_are_read_with_their_processes() {
    let line = make_full_pane_line("main", 42);
    assert!(pane_output_needs_process_snapshot(&line));
    assert!(!pane_output_needs_process_snapshot("nothing"));
    let mut options = PaneOptions::new();
    let sessions = query_sessions(Some(&line), None, &mut options);
    assert_eq!(sessions.len(), 1);
    assert_eq!(sessions[0].session_name, "main");
    assert!(query_sessions(None, None, &mut options).is_empty());
    assert!(query_sessions_with_process_snapshot(None, None, &mut options).is_none());
}

#[test]
fn the_format_names_every_field() {
    let format = pane_format();
    assert_eq!(format.split('|').count(), 28);
    assert!(format.starts_with("#{q:session_name}|"));
    assert!(format.ends_with("#{q:@pane_bg_cmd}"));
}
