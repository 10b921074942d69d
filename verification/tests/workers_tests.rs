use tmux_agent_sidebar::git::GitData;
use tmux_agent_sidebar::textmap::TextMap;
use tmux_agent_sidebar::workers::{init_state, with_pr_number, GitPoll, PathHistory};

fn checkout(branch: &str) -> GitData {
    GitData {
        diff_stat: Some((3, 1)),
        branch: branch.to_string(),
        ahead_behind: None,
        staged_files: vec![],
        unstaged_files: vec![],
        untracked_files: vec![],
        remote_url: String::new(),
        pr_number: None,
    }
}

#[test]
fn git_poll_keeps_the_last_path_while_the_sidebar_has_focus() {
    let mut poll = GitPoll::new();
    assert_eq!(poll.tick(true, None), None);
    assert_eq!(poll.tick(true, Some("/repo".to_string())), Some("/repo".to_string()));
    assert_eq!(poll.tick(true, None), Some("/repo".to_string()));
}

#[test]
fn git_poll_looks_at_nothing_while_the_tab_is_hidden() {
    let mut poll = GitPoll::new();
    assert_eq!(poll.tick(false, Some("/repo".to_string())), None);
    assert_eq!(poll.last_path, None);
    assert_eq!(poll.tick(true, None), None);
}

#[test]
fn git_poll_asks_for_a_pull_request_once() {
    let mut poll = GitPoll::new();
    let first = poll.pr_cache.get_or_fetch("/repo", "main", 0, |path| Some(format!("7 {path}")));
    assert_eq!(first, Some("7 /repo".to_string()));
    let again = poll.pr_cache.get_or_fetch("/repo", "main", 10, |_| unreachable!());
    assert_eq!(again, Some("7 /repo".to_string()));
    let data = with_pr_number(checkout("main"), again);
    assert_eq!(data.pr_number, Some("7 /repo".to_string()));
    assert_eq!(data.branch, "main");
    assert_eq!(data.diff_stat, Some((3, 1)));
}

#[test]
fn path_history_is_ordered_and_only_grows() {
    let mut history = PathHistory::new();
    assert_eq!(history.tick(true), Some(vec![]));
    history.add_path("/b");
    history.add_path("/a");
    history.add_path("/b");
    assert_eq!(history.tick(true), Some(vec!["/a".to_string(), "/b".to_string()]));
    assert_eq!(history.tick(false), None);
    history.add_path("/c");
    let all = vec!["/a".to_string(), "/b".to_string(), "/c".to_string()];
    assert_eq!(history.tick(true), Some(all));
}

#[test]
fn init_state_shows_session_names_on_the_first_frame() {
    let mut names = TextMap::new();
    names.insert("sess-a".to_string(), "alpha".to_string());
    let state = init_state("%9".to_string(), true, names);
    assert_eq!(state.tmux_pane, "%9");
    assert!(state.show_ports);
    assert!(state.sessions.dirty);
    assert_eq!(state.sessions.names.get("sess-a"), Some(&"alpha".to_string()));
    assert!(state.repo_groups.is_empty());
}
