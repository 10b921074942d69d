use tmux_agent_sidebar::extension::{
    activate, Detail, ExtensionsConfig, ProviderConfig, Reply, PROTOCOL_VERSION,
};
use tmux_agent_sidebar::state::extensions::{
    queue_outcome, worker_call, worker_result, CacheKey, CapabilityUiState, ExtensionsState,
    SendOutcome, TreeTarget, WorkerRequest, WorkerResult, REFRESH_MS,
};
use tmux_agent_sidebar::state::layout::SubagentTarget;
use tmux_agent_sidebar::textmap::TextMap;

fn config() -> ExtensionsConfig {
    let mut providers = TextMap::new();
    providers.insert(
        "codex".to_string(),
        ProviderConfig { argv: vec!["collect".to_string()], timeout_ms: 750 },
    );
    ExtensionsConfig { version: 1, providers, ..ExtensionsConfig::default() }
}

fn configured() -> ExtensionsState {
    let mut state = ExtensionsState::new();
    state.reload_config(true, Some(1), true, Ok(config()));
    state
}

fn key(session: &str) -> CacheKey {
    CacheKey::new("codex", "%1", Some(session))
}

fn told(text: &str) -> Reply {
    Reply { version: 1, error: Some(text.to_string()), ..Reply::default() }
}

fn node(id: &str, disclosure: bool) -> TreeTarget {
    TreeTarget {
        parent_pane_id: "%1".to_string(),
        provider_id: "codex".to_string(),
        session_id: None,
        agent_id: "root".to_string(),
        node_id: id.to_string(),
        detail_token: Some("token".to_string()),
        inline_detail: None,
        is_disclosure: disclosure,
    }
}

fn subagent() -> SubagentTarget {
    SubagentTarget {
        parent_pane_id: "%1".to_string(),
        provider_id: "codex".to_string(),
        session_id: None,
        agent_id: "child".to_string(),
        node_id: "child".to_string(),
    }
}

#[test]
fn a_failure_keeps_the_reply_and_marks_it_stale() {
    let mut state = configured();
    state.record_send(key("a"), SendOutcome::Sent);
    state.take_results(vec![WorkerResult::Inspect { key: key("a"), result: Ok(told("first")) }]);
    let known = state.inspection("%1", "codex", Some("a")).unwrap();
    assert!(!known.stale);
    state.take_results(vec![WorkerResult::Inspect {
        key: key("a"),
        result: Err("collector timed out".to_string()),
    }]);
    let known = state.inspection("%1", "codex", Some("a")).unwrap();
    assert!(known.stale);
    assert_eq!(known.reply.error.as_deref(), Some("first"));
}

#[test]
fn a_failure_without_a_reply_is_shown_as_one() {
    let mut state = configured();
    let results = state.take_results(vec![WorkerResult::Inspect {
        key: key("a"),
        result: Err("collector timed out".to_string()),
    }]);
    assert_eq!(results.len(), 1);
    let known = state.inspection("%1", "codex", Some("a")).unwrap();
    assert!(!known.stale);
    assert_eq!(known.reply.version, PROTOCOL_VERSION);
    assert_eq!(known.reply.error.as_deref(), Some("collector timed out"));
}

#[test]
fn results_of_one_session_leave_another_alone() {
    let mut state = configured();
    state.record_send(key("b"), SendOutcome::Sent);
    state.take_results(vec![
        WorkerResult::Inspect { key: key("a"), result: Ok(told("a")) },
        WorkerResult::Activate { result: Ok(told("ignored")) },
    ]);
    assert!(state.inspection("%1", "codex", Some("b")).is_none());
    assert!(state.in_flight.contains_key(&key("b")));
    assert_eq!(
        state.inspection("%1", "codex", Some("a")).unwrap().reply.error.as_deref(),
        Some("a")
    );
}

#[test]
fn a_session_is_inspected_once_at_a_time() {
    let mut state = configured();
    let request = state.inspect_request("%1", "codex", Some("a"), Some("/repo".to_string()));
    match request {
        Some(WorkerRequest::Inspect { key: asked, cwd }) => {
            assert_eq!(asked, key("a"));
            assert_eq!(cwd.as_deref(), Some("/repo"));
        }
        _ => panic!("an inspection is due"),
    }
    state.record_send(key("a"), SendOutcome::Sent);
    assert!(state.inspect_request("%1", "codex", Some("a"), None).is_none());
    assert!(state.inspect_request("%1", "codex", Some("b"), None).is_some());
    state.take_results(vec![WorkerResult::Inspect { key: key("a"), result: Ok(told("a")) }]);
    assert!(state.inspect_request("%1", "codex", Some("a"), None).is_some());
}

#[test]
fn a_queue_that_takes_nothing_is_told_of() {
    let mut state = configured();
    state.record_send(key("a"), SendOutcome::Full);
    assert_eq!(state.config_error.as_deref(), Some("extensions: collector queue is full"));
    assert!(!state.in_flight.contains_key(&key("a")));
    state.record_send(key("a"), SendOutcome::Disconnected);
    assert_eq!(state.config_error.as_deref(), Some("extensions: collector worker stopped"));
    assert_eq!(queue_outcome(SendOutcome::Sent), Ok(()));
    assert_eq!(queue_outcome(SendOutcome::Full), Err("collector queue is full".to_string()));
    assert_eq!(
        queue_outcome(SendOutcome::Disconnected),
        Err("collector worker stopped".to_string())
    );
}

#[test]
fn panes_are_inspected_every_two_seconds() {
    let mut state = configured();
    assert!(state.refresh(5_000));
    assert!(!state.refresh(5_000 + REFRESH_MS - 1));
    assert!(state.refresh(5_000 + REFRESH_MS));
    let mut bare = ExtensionsState::new();
    assert!(!bare.refresh(5_000));
}

#[test]
fn a_changed_configuration_forgets_what_was_known() {
    let mut state = configured();
    state.take_results(vec![WorkerResult::Inspect { key: key("a"), result: Ok(told("a")) }]);
    assert!(!state.needs_reload(false, Some(1)));
    state.reload_config(false, Some(1), true, Err("not read".to_string()));
    assert!(state.config.is_some());
    assert!(state.inspection("%1", "codex", Some("a")).is_some());
    assert!(state.needs_reload(false, Some(2)));
    state.reload_config(false, Some(2), true, Err("cannot read it".to_string()));
    assert!(state.config.is_none());
    assert!(state.inspection("%1", "codex", Some("a")).is_none());
    assert_eq!(state.config_error.as_deref(), Some("extensions: cannot read it"));
    state.reload_config(true, None, false, Err("cannot read it".to_string()));
    assert!(state.config_error.is_none());
    state.set_notice("broken");
    assert_eq!(state.config_error.as_deref(), Some("extensions: broken"));
}

#[test]
fn requests_need_a_configuration() {
    let bare = ExtensionsState::new();
    let refused = "no provider collector configured".to_string();
    assert_eq!(bare.queue_detail(node("a", false), None, None, 3).err(), Some(refused.clone()));
    assert_eq!(bare.queue_activate(subagent(), None, None).err(), Some(refused));
    let state = configured();
    match state.queue_detail(node("a", false), Some("s".to_string()), None, 3) {
        Ok(WorkerRequest::Detail { target, session_id, cwd, previous_pane_scroll }) => {
            assert_eq!(target, node("a", false));
            assert_eq!(session_id.as_deref(), Some("s"));
            assert_eq!(cwd, None);
            assert_eq!(previous_pane_scroll, 3);
        }
        _ => panic!("a detail is asked for"),
    }
    assert!(state.queue_activate(subagent(), None, None).is_ok());
}

#[test]
fn each_request_is_one_call() {
    let config = config();
    let inspect = WorkerRequest::Inspect { key: key("a"), cwd: Some("/repo".to_string()) };
    let planned = worker_call(&inspect, &config).ok().unwrap();
    assert_eq!(planned.program.argv, vec!["collect".to_string()]);
    assert_eq!(planned.request.op, "inspect");
    assert_eq!(planned.request.pane_id, "%1");
    assert_eq!(planned.request.cwd, Some("/repo"));
    assert_eq!(planned.request.session_id, Some("a"));
    let show = WorkerRequest::Activate { target: subagent(), session_id: None, cwd: None };
    let planned = worker_call(&show, &config).ok().unwrap();
    assert_eq!(planned.request.op, "activate");
    assert_eq!(planned.request.subagent_id, Some("child"));
    let stranger = WorkerRequest::Inspect {
        key: CacheKey::new("opencode", "%1", None),
        cwd: None,
    };
    assert!(worker_call(&stranger, &config).is_err());
    let direct = activate(&config, "codex", "%1", None, Some("a"), "child").ok().unwrap();
    assert_eq!(direct.request.version, PROTOCOL_VERSION);
    assert_eq!(direct.request.op, "activate");
}

#[test]
fn an_answer_goes_to_its_request() {
    let detail = Detail {
        title: "t".to_string(),
        source: String::new(),
        text: "body".to_string(),
    };
    let ask = |scroll| WorkerRequest::Detail {
        target: node("a", false),
        session_id: None,
        cwd: None,
        previous_pane_scroll: scroll,
    };
    let answer = Reply { version: 1, detail: Some(detail), ..Reply::default() };
    match worker_result(ask(7), Ok(answer)) {
        WorkerResult::Detail { target, previous_pane_scroll, result } => {
            assert_eq!(target, node("a", false));
            assert_eq!(previous_pane_scroll, 7);
            assert_eq!(result.ok().unwrap().text, "body");
        }
        _ => panic!("the answer is a detail"),
    }
    match worker_result(ask(7), Ok(told("nothing"))) {
        WorkerResult::Detail { result, .. } => {
            assert_eq!(result.err().as_deref(), Some("collector returned no detail"));
        }
        _ => panic!("the answer is a detail"),
    }
    let request = WorkerRequest::Inspect { key: key("a"), cwd: None };
    match worker_result(request, Err("late".to_string())) {
        WorkerResult::Inspect { key: answered, result } => {
            assert_eq!(answered, key("a"));
            assert_eq!(result.err().as_deref(), Some("late"));
        }
        _ => panic!("the answer is an inspection"),
    }
}

#[test]
fn toggling_twice_folds_again() {
    let mut ui = CapabilityUiState::default();
    let target = node("skills", true);
    assert!(!ui.is_expanded("%1", "skills"));
    ui.toggle(&target);
    assert!(ui.is_expanded("%1", "skills"));
    assert!(!ui.is_expanded("%2", "skills"));
    assert!(ui.selected.as_ref().unwrap().same_target(&target));
    ui.toggle(&target);
    assert!(!ui.is_expanded("%1", "skills"));
    assert!(!ui.selected.as_ref().unwrap().same_target(&node("other", true)));
}
