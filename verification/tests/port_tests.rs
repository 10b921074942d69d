use tmux_agent_sidebar::port::{
    best_command_for_pane, extract_port, parse_lsof_listening_ports, parse_pane_pids,
    scan_session_agent_liveness, scan_session_ports, scan_session_process_snapshot,
};
use tmux_agent_sidebar::process::{command_basename, ProcessSnapshot};
use tmux_agent_sidebar::tmux::types::{
    AgentType, PaneInfo, PaneStatus, PermissionMode, SessionInfo, WindowInfo, WorktreeMetadata,
};

fn liveness_session() -> Vec<SessionInfo> {
    vec![SessionInfo {
        session_name: "main".into(),
        windows: vec![WindowInfo {
            window_id: "@1".into(),
            window_name: "project".into(),
            window_active: true,
            auto_rename: false,
            panes: vec![PaneInfo {
                pane_id: "%1".into(),
                pane_active: true,
                status: PaneStatus::Running,
                attention: false,
                agent: AgentType::Codex,
                path: "/tmp/project".into(),
                current_command: "zsh".into(),
                prompt: String::new(),
                prompt_is_response: false,
                started_at: None,
                wait_reason: String::new(),
                permission_mode: PermissionMode::Default,
                subagents: Vec::new(),
                pane_pid: Some(10),
                worktree: WorktreeMetadata::default(),
                session_id: Some("session".into()),
                session_name: String::new(),
                sidebar_spawned: false,
                bg_shell_cmd: None,
            }],
        }],
    }]
}

#[test]
fn process_only_liveness_needs_no_socket_scan() {
    let sessions = liveness_session();
    let process_snapshot =
        ProcessSnapshot::from_ps_output("10 1 zsh zsh\n11 10 codex codex --full-auto\n");

    let scanned = scan_session_agent_liveness(&sessions, Some(&process_snapshot)).unwrap();

    assert!(scanned.live_agent_panes.contains("%1"));
    assert!(scanned.ports_by_pane.is_empty());
    assert_eq!(
        scanned.command_by_pane.get("%1"),
        Some(&"codex --full-auto".into())
    );
}

#[test]
fn extract_port_handles_common_lsof_names() {
    assert_eq!(extract_port("127.0.0.1:3000"), Some(3000));
    assert_eq!(extract_port("*:5173"), Some(5173));
    assert_eq!(extract_port("localhost:http"), None);
}

#[test]
fn parse_lsof_listening_ports_pairs_pid_and_port() {
    let sample = "p123\nn127.0.0.1:3000\np456\nn*:5173\n";
    assert_eq!(
        parse_lsof_listening_ports(sample),
        vec![(123, 3000), (456, 5173)]
    );
}

#[test]
fn best_command_for_pane_prefers_leaf_non_shell_command() {
    let snapshot = ProcessSnapshot::from_ps_output(
        "10 1 zsh zsh\n11 10 node /usr/bin/node /tmp/server.js --port 3000\n12 10 git /usr/bin/git status\n",
    );

    let command = best_command_for_pane(10, &snapshot).unwrap();
    assert_eq!(command, "/usr/bin/node /tmp/server.js --port 3000");
}

#[test]
fn a_port_fits_sixteen_bits() {
    assert_eq!(extract_port("*:65535"), Some(65535));
    assert_eq!(extract_port("*:65536"), None);
    assert_eq!(extract_port("3000"), None);
}

#[test]
fn ports_belong_to_the_tree_of_a_pane() {
    let sessions = liveness_session();
    let snapshot = ProcessSnapshot::from_ps_output(
        "10 1 zsh zsh\n11 10 codex codex\n12 11 node node x\n99 1 node other\n",
    );
    let scanned = scan_session_process_snapshot(
        &sessions,
        Some(&snapshot),
        Some("p12\nn*:3000\np99\nn*:9999\n"),
    )
    .unwrap();
    assert_eq!(scanned.ports_by_pane.get("%1"), Some(&vec![3000]));
}

#[test]
fn a_process_tree_is_walked_to_its_leaves() {
    let snapshot = ProcessSnapshot::from_ps_output("10 1 zsh zsh\n11 10 sh sh\n12 11 codex codex\n");
    assert_eq!(snapshot.descendants(&[10]).len(), 3);
    assert!(snapshot.tree_has_agent(&[10], &AgentType::Codex));
    assert!(!snapshot.tree_has_agent(&[10], &AgentType::OpenCode));
    assert_eq!(command_basename("/usr/bin/codex"), "codex");
}

#[test]
fn pids_are_those_of_panes_that_report_one() {
    let mut sessions = liveness_session();
    let pids = parse_pane_pids(&sessions);
    assert_eq!(pids.get("%1"), Some(&10));
    assert_eq!(pids.len(), 1);
    sessions[0].windows[0].panes[0].pane_pid = None;
    assert!(parse_pane_pids(&sessions).is_empty());
}

#[test]
fn ports_of_children_are_listed_in_order() {
    let sessions = liveness_session();
    let snapshot = ProcessSnapshot::from_ps_output("10 1 zsh zsh\n11 10 node node server.js\n");
    let sockets = "p11\nn*:5173\nn127.0.0.1:3000\nn*:5173\np99\nn*:8080\n";
    let ports = scan_session_ports(&sessions, Some(&snapshot), Some(sockets));
    assert_eq!(ports.get("%1"), Some(&vec![3000, 5173]));
    assert_eq!(ports.len(), 1);
    assert!(scan_session_ports(&sessions, None, Some(sockets)).is_empty());
    assert!(scan_session_ports(&sessions, Some(&snapshot), None).is_empty());
}
