use tmux_agent_sidebar::extension::{
    call, call_deadline, call_wait, collector_argv, default_config_path, detail_answer,
    expand_executable, expand_home, inspect, inspect_once, inspection_cache_key, load_config,
    unknown, validate_executable, validate_reply, AgentNode, CallEnd, ConfigRead, Detail,
    Evidence, ExtensionsConfig, Fact, Inspection, ProviderConfig, Reply, TreeNode, WaitStep,
};
use tmux_agent_sidebar::textmap::TextMap;
use tmux_agent_sidebar::tmux::types::AgentType;

fn provider() -> &'static str {
    AgentType::Claude.as_str()
}

fn config_with(program: &str) -> ExtensionsConfig {
    let mut providers = TextMap::new();
    providers.insert(
        provider().into(),
        ProviderConfig {
            argv: vec![program.into()],
            timeout_ms: 1,
        },
    );
    ExtensionsConfig {
        version: 1,
        providers,
        ..ExtensionsConfig::default()
    }
}

fn fact(id: &str, label: &str) -> Fact {
    Fact {
        id: id.into(),
        agent_id: String::new(),
        category: String::new(),
        label: label.into(),
        detail: String::new(),
        evidence: Evidence::Observed,
        source: String::new(),
        detail_token: None,
    }
}

fn node(id: &str, parent: Option<&str>, label: &str) -> TreeNode {
    TreeNode {
        id: id.into(),
        agent_id: String::new(),
        parent_id: parent.map(|id| id.to_string()),
        label: label.into(),
        fact_ids: vec![],
        detail_token: None,
        category: String::new(),
    }
}

fn agent(id: &str, parent: Option<&str>, label: &str) -> AgentNode {
    AgentNode {
        id: id.into(),
        parent_id: parent.map(|id| id.to_string()),
        label: label.into(),
        model: None,
    }
}

fn reply() -> Reply {
    Reply {
        version: 1,
        ..Reply::default()
    }
}

#[test]
fn stale_cache_is_preserved_when_collector_fails() {
    let config = config_with("definitely-not-a-command");
    let mut cache = TextMap::new();
    cache.insert(
        inspection_cache_key(provider(), "%1", None),
        Inspection {
            reply: Reply {
                version: 1,
                facts: vec![fact("model", "model: test")],
                ..Reply::default()
            },
            stale: false,
        },
    );
    let failure = Err("cannot start collector".to_string());
    let result = inspect(&config, provider(), "%1", None, failure, &mut cache);
    assert!(result.stale);
    assert_eq!(result.reply.facts[0].label, "model: test");
}

#[test]
fn stale_cache_is_not_reused_after_session_change() {
    let config = config_with("/definitely-not-a-command");
    let mut cache = TextMap::new();
    cache.insert(
        inspection_cache_key(provider(), "%1", Some("old")),
        Inspection {
            reply: Reply {
                version: 1,
                facts: vec![fact("old-model", "old")],
                ..Reply::default()
            },
            stale: false,
        },
    );
    let failure = Err("cannot start collector".to_string());
    let result = inspect(&config, provider(), "%1", Some("new"), failure, &mut cache);
    assert!(!result.stale);
    assert!(result.reply.facts.is_empty());
}

#[test]
fn reply_rejects_duplicate_stable_node_ids() {
    let mut reply = reply();
    reply.agents = vec![agent("a", None, "a"), agent("a", None, "b")];
    assert!(validate_reply(&reply).unwrap_err().contains("duplicate"));
}

#[test]
fn reply_rejects_capability_tree_cycle() {
    let reply = Reply {
        version: 1,
        tree: vec![node("a", Some("b"), "A"), node("b", Some("a"), "B")],
        ..Reply::default()
    };
    assert!(validate_reply(&reply).unwrap_err().contains("cycle"));
}

fn refused(reply: Reply) -> String {
    validate_reply(&reply).unwrap_err()
}

#[test]
fn each_fault_of_a_reply_has_its_words() {
    assert!(validate_reply(&reply()).is_ok());
    let long = "x".repeat(4097);
    assert_eq!(
        refused(Reply {
            facts: vec![fact("a", &long)],
            ..reply()
        }),
        "invalid or duplicate fact id"
    );
    assert_eq!(
        refused(Reply {
            facts: vec![Fact {
                detail_token: Some(String::new()),
                ..fact("a", "a")
            }],
            ..reply()
        }),
        "invalid detail token"
    );
    assert_eq!(
        refused(Reply {
            agents: vec![agent("a", Some("b"), "a"), agent("b", Some("a"), "b")],
            ..reply()
        }),
        "agent tree cycle"
    );
    assert_eq!(
        refused(Reply {
            agents: vec![agent("a", Some("gone"), "a")],
            ..reply()
        }),
        "invalid agent parent"
    );
    assert_eq!(
        refused(Reply {
            agents: vec![agent("a", None, "a")],
            tree: vec![node("a", None, "a")],
            ..reply()
        }),
        "invalid or duplicate tree id"
    );
    let mut slots = TextMap::new();
    slots.insert("id".to_string(), "a\u{7}".to_string());
    assert_eq!(refused(Reply { slots, ..reply() }), "invalid slot value");
    assert_eq!(
        refused(Reply {
            tree: vec![node("a", Some("gone"), "a")],
            ..reply()
        }),
        "invalid capability tree parent"
    );
    assert_eq!(
        refused(Reply {
            detail: Some(Detail {
                title: String::new(),
                source: String::new(),
                text: String::new(),
            }),
            ..reply()
        }),
        "invalid detail reply"
    );
}

fn exited(success: bool, output_bytes: usize, parsed: Result<Reply, String>) -> CallEnd {
    CallEnd::Exited {
        output_bytes,
        success,
        status: "exit status: 7".to_string(),
        parsed,
    }
}

fn failure(end: CallEnd) -> String {
    match call(end) {
        Ok(_) => panic!("the call must fail"),
        Err(error) => error,
    }
}

#[test]
fn each_end_of_a_call_has_its_words() {
    assert!(call(exited(true, 10, Ok(reply()))).is_ok());
    assert_eq!(
        failure(CallEnd::NotStarted("e".to_string())),
        "cannot start collector: e"
    );
    assert_eq!(failure(CallEnd::NoStdin), "collector stdin unavailable");
    assert_eq!(failure(CallEnd::NoStdout), "collector stdout unavailable");
    assert_eq!(failure(CallEnd::Failed("e".to_string())), "e");
    assert_eq!(failure(CallEnd::TimedOut), "collector timed out");
    assert_eq!(
        failure(CallEnd::ReaderPanicked),
        "collector stdout reader panicked"
    );
    assert_eq!(
        failure(exited(true, 1024 * 1024 + 1, Ok(reply()))),
        "collector output exceeds 1 MiB"
    );
    assert_eq!(
        failure(exited(false, 0, Ok(reply()))),
        "collector exited with exit status: 7"
    );
    assert_eq!(
        failure(exited(true, 0, Err("eof".to_string()))),
        "invalid collector reply: eof"
    );
    assert_eq!(
        failure(exited(
            true,
            0,
            Ok(Reply {
                version: 2,
                ..Reply::default()
            })
        )),
        "unsupported collector reply version 2"
    );
}

#[test]
fn calls_end_in_time() {
    assert_eq!(call_deadline(100, 0), 101);
    assert_eq!(call_deadline(100, 50), 150);
    assert_eq!(call_wait(true, 999, 150), WaitStep::Collect);
    assert_eq!(call_wait(false, 150, 150), WaitStep::Kill);
    assert_eq!(call_wait(false, 149, 150), WaitStep::Sleep(5));
}

#[test]
fn a_fresh_answer_is_remembered() {
    let config = config_with("/c");
    let mut cache = TextMap::new();
    let answer = Reply {
        facts: vec![fact("m", "new")],
        ..reply()
    };
    let shown = inspect(&config, provider(), "%1", None, Ok(answer), &mut cache);
    assert!(!shown.stale);
    let later = inspect(
        &config,
        provider(),
        "%1",
        None,
        Err("down".to_string()),
        &mut cache,
    );
    assert!(later.stale);
    assert_eq!(later.reply.facts[0].label, "new");
    assert_eq!(
        unknown("why").reply.error.as_deref(),
        Some("why")
    );
}

#[test]
fn a_call_is_planned_for_a_configured_provider() {
    let config = config_with("/c");
    match inspect_once(&config, provider(), "%1", Some("/tmp/project"), Some("session")) {
        Ok(planned) => {
            assert_eq!(planned.program.argv, ["/c"]);
            assert_eq!(planned.request.pane_id, "%1");
            assert_eq!(planned.request.cwd, Some("/tmp/project"));
            assert_eq!(planned.request.session_id, Some("session"));
        }
        Err(error) => panic!("{error}"),
    }
    assert!(inspect_once(&config, "nobody", "%1", None, None).is_err());
    assert!(detail_answer(Ok(reply())).is_err());
}

#[test]
fn executables_are_absolute() {
    assert!(validate_executable("/bin/c").is_ok());
    assert!(validate_executable("~/bin/c").is_ok());
    assert!(validate_executable("collector")
        .unwrap_err()
        .contains("absolute"));
    assert_eq!(expand_executable("~/c", Some("/home/u")), "/home/u/c");
    assert_eq!(expand_executable("~/c", None), "~/c");
    assert_eq!(expand_home("$HOME/bin/collector", Some("/h")), "/h/bin/collector");
    assert_eq!(expand_home("$HOME/x", None), "$HOME/x");
    let program = ProviderConfig {
        argv: vec!["~/c".to_string(), "$HOME/d".to_string()],
        timeout_ms: 1,
    };
    assert_eq!(collector_argv(&program, Some("/h")), ["/h/c", "$HOME/d"]);
}

#[test]
fn configurations_are_checked() {
    assert!(load_config("p", ConfigRead::Parsed(config_with("/c"))).is_ok());
    let old = ExtensionsConfig {
        version: 2,
        ..ExtensionsConfig::default()
    };
    match load_config("p", ConfigRead::Parsed(old)) {
        Ok(_) => panic!("the version is not known"),
        Err(error) => assert!(error.contains("unsupported"), "{error}"),
    }
    match load_config("p", ConfigRead::Parsed(config_with("collector"))) {
        Ok(_) => panic!("the program is looked for"),
        Err(error) => assert!(error.contains("absolute"), "{error}"),
    }
    let mut empty = config_with("/c");
    empty.providers.get_mut(provider()).unwrap().argv = Vec::new();
    match load_config("p", ConfigRead::Parsed(empty)) {
        Ok(_) => panic!("there is no program"),
        Err(error) => assert!(error.contains("argv"), "{error}"),
    }
    assert!(load_config("p", ConfigRead::Unreadable("gone".to_string())).is_err());
    assert!(load_config("p", ConfigRead::Invalid("eof".to_string())).is_err());
    assert!(default_config_path(Some("/cfg"), Some("/h")).starts_with("/cfg/"));
    assert!(default_config_path(None, Some("/h")).starts_with("/h/"));
}
