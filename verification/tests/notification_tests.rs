use tmux_agent_sidebar::desktop_notification::{
    encode_stamp, escape_applescript, format_title, has_run_scoped_stamp, normalize_fingerprint,
    notification_due, notification_script, notify_if_allowed, notify_send_args, parse_events,
    parse_stamp, run_notification_command, run_scoped_fingerprint, stamp_option_key,
    DesktopNotificationEvent, DesktopNotificationKind, DesktopNotificationSettings, EventSet,
    SenderState, SenderStep, DESKTOP_NOTIFICATION_COOLDOWN_SECS,
};
use tmux_agent_sidebar::textmap::TextMap;
use tmux_agent_sidebar::tmux::options::{
    get_pane_option_value, set_pane_option, PaneOptions, SIDEBAR_NOTIFICATIONS,
    SIDEBAR_NOTIFICATIONS_EVENTS,
};
use tmux_agent_sidebar::tmux::types::AgentType;

#[test]
fn settings_parse_bool_and_numbers() {
    let mut opts = TextMap::new();
    opts.insert(SIDEBAR_NOTIFICATIONS.into(), "on".into());

    let settings = DesktopNotificationSettings::from_tmux_options_with_backend(&opts, true);
    assert!(settings.enabled);
}

#[test]
fn settings_default_when_invalid() {
    let mut opts = TextMap::new();
    opts.insert(SIDEBAR_NOTIFICATIONS.into(), "maybe".into());

    let settings = DesktopNotificationSettings::from_tmux_options_with_backend(&opts, true);
    assert!(settings.enabled);
}

#[test]
fn settings_disable_when_off() {
    let mut opts = TextMap::new();
    opts.insert(SIDEBAR_NOTIFICATIONS.into(), "off".into());

    let settings = DesktopNotificationSettings::from_tmux_options_with_backend(&opts, true);
    assert!(!settings.enabled);
}

#[test]
fn settings_disable_when_backend_missing() {
    let opts = TextMap::new();
    let settings = DesktopNotificationSettings::from_tmux_options_with_backend(&opts, false);
    assert!(!settings.enabled);
}

#[test]
fn format_title_variants() {
    let agent = AgentType::Claude.as_str();
    assert_eq!(
        format_title(Some("repo"), Some("feat/xyz"), agent),
        format!("repo (feat/xyz) / {agent}")
    );
    assert_eq!(
        format_title(Some("repo"), None, agent),
        format!("repo / {agent}")
    );
    assert_eq!(
        format_title(Some("repo"), Some(""), agent),
        format!("repo / {agent}")
    );
    assert_eq!(format_title(None, Some("feat"), agent), agent);
    assert_eq!(format_title(None, None, agent), agent);
}

#[test]
fn stamp_round_trip() {
    let stamp = encode_stamp(123, "foo bar");
    let parsed = parse_stamp(&stamp).unwrap();
    assert_eq!(parsed.timestamp, 123);
    assert_eq!(parsed.fingerprint, "foo bar");
}

#[test]
fn fingerprint_is_normalized() {
    assert_eq!(
        normalize_fingerprint("foo|bar\nbaz\rqux"),
        "foo bar baz qux"
    );
}

#[test]
fn events_default_to_default_set_when_unset() {
    let opts = TextMap::new();
    let settings = DesktopNotificationSettings::from_tmux_options_with_backend(&opts, true);
    for event in [
        DesktopNotificationEvent::Stop,
        DesktopNotificationEvent::Notification,
        DesktopNotificationEvent::StopFailure,
        DesktopNotificationEvent::PermissionDenied,
    ] {
        assert!(settings.event_enabled(event), "expected {event:?} enabled");
    }
    assert!(
        !settings.event_enabled(DesktopNotificationEvent::TaskCompleted),
        "task_completed should be opt-in"
    );
}

#[test]
fn events_parse_explicit_subset() {
    let mut opts = TextMap::new();
    opts.insert(
        SIDEBAR_NOTIFICATIONS_EVENTS.into(),
        "stop, permission_denied".into(),
    );
    let settings = DesktopNotificationSettings::from_tmux_options_with_backend(&opts, true);
    assert!(settings.event_enabled(DesktopNotificationEvent::Stop));
    assert!(settings.event_enabled(DesktopNotificationEvent::PermissionDenied));
    assert!(!settings.event_enabled(DesktopNotificationEvent::Notification));
    assert!(!settings.event_enabled(DesktopNotificationEvent::TaskCompleted));
    assert!(!settings.event_enabled(DesktopNotificationEvent::StopFailure));
}

#[test]
fn events_all_keyword_enables_every_event() {
    let mut opts = TextMap::new();
    opts.insert(SIDEBAR_NOTIFICATIONS_EVENTS.into(), "all".into());
    let settings = DesktopNotificationSettings::from_tmux_options_with_backend(&opts, true);
    for event in DesktopNotificationEvent::all() {
        assert!(settings.event_enabled(event));
    }
}

#[test]
fn events_empty_value_disables_every_event() {
    let mut opts = TextMap::new();
    opts.insert(SIDEBAR_NOTIFICATIONS_EVENTS.into(), "".into());
    let settings = DesktopNotificationSettings::from_tmux_options_with_backend(&opts, true);
    for event in DesktopNotificationEvent::all() {
        assert!(!settings.event_enabled(event));
    }
}

#[test]
fn events_unknown_tokens_are_ignored() {
    let mut opts = TextMap::new();
    opts.insert(
        SIDEBAR_NOTIFICATIONS_EVENTS.into(),
        "stop,bogus, task_completed".into(),
    );
    let settings = DesktopNotificationSettings::from_tmux_options_with_backend(&opts, true);
    assert!(settings.event_enabled(DesktopNotificationEvent::Stop));
    assert!(settings.event_enabled(DesktopNotificationEvent::TaskCompleted));
    assert!(!settings.event_enabled(DesktopNotificationEvent::Notification));
}

#[test]
fn has_run_scoped_stamp_returns_false_without_stamp() {
    let options = PaneOptions::new();
    let pane = "%PANE_NO_STAMP";
    assert!(!has_run_scoped_stamp(
        &options,
        pane,
        DesktopNotificationKind::TaskCompleted,
        Some(1_700_000_000_000),
    ));
}

#[test]
fn has_run_scoped_stamp_matches_current_run() {
    let mut options = PaneOptions::new();
    let pane = "%PANE_CURRENT_RUN";
    let run_id = 1_700_000_000_000_u64;
    let stamp = encode_stamp(42, &format!("{run_id}:task-xyz"));
    set_pane_option(
        &mut options,
        pane,
        stamp_option_key(DesktopNotificationKind::TaskCompleted),
        &stamp,
    );
    assert!(has_run_scoped_stamp(
        &options,
        pane,
        DesktopNotificationKind::TaskCompleted,
        Some(run_id),
    ));
}

#[test]
fn has_run_scoped_stamp_rejects_stale_run() {
    let mut options = PaneOptions::new();
    let pane = "%PANE_STALE_RUN";
    let old_run = 1_600_000_000_000_u64;
    let new_run = 1_700_000_000_000_u64;
    let stamp = encode_stamp(42, &format!("{old_run}:task-xyz"));
    set_pane_option(
        &mut options,
        pane,
        stamp_option_key(DesktopNotificationKind::TaskCompleted),
        &stamp,
    );
    assert!(!has_run_scoped_stamp(
        &options,
        pane,
        DesktopNotificationKind::TaskCompleted,
        Some(new_run),
    ));
}

#[test]
fn has_run_scoped_stamp_requires_run_id() {
    let mut options = PaneOptions::new();
    let pane = "%PANE_NO_RUN_ID";
    let stamp = encode_stamp(42, "1700000000000:task-xyz");
    set_pane_option(
        &mut options,
        pane,
        stamp_option_key(DesktopNotificationKind::TaskCompleted),
        &stamp,
    );
    assert!(!has_run_scoped_stamp(
        &options,
        pane,
        DesktopNotificationKind::TaskCompleted,
        None,
    ));
}

fn settings() -> DesktopNotificationSettings {
    DesktopNotificationSettings::default()
}

fn notify(options: &mut PaneOptions, now: u64, result: Result<(), String>) -> bool {
    notify_if_allowed(
        &settings(),
        options,
        "%1",
        DesktopNotificationKind::TaskCompleted,
        DesktopNotificationEvent::Stop,
        "a|b",
        "title",
        "body",
        now,
        |title: &str, body: &str| {
            assert_eq!((title, body), ("title", "body"));
            result
        },
    )
}

#[test]
fn a_notification_is_sent_once_until_it_cools_down() {
    let mut options = PaneOptions::new();
    assert!(notify(&mut options, 1000, Ok(())));
    let key = stamp_option_key(DesktopNotificationKind::TaskCompleted);
    assert_eq!(get_pane_option_value(&options, "%1", key), "1000|a b");
    assert!(!notify(
        &mut options,
        1000 + DESKTOP_NOTIFICATION_COOLDOWN_SECS - 1,
        Ok(())
    ));
    assert!(notify(
        &mut options,
        1000 + DESKTOP_NOTIFICATION_COOLDOWN_SECS,
        Ok(())
    ));
}

#[test]
fn a_notification_that_failed_leaves_no_stamp() {
    let mut options = PaneOptions::new();
    assert!(!notify(&mut options, 1000, Err("no bus".to_string())));
    assert!(options.writes.is_empty());
}

#[test]
fn a_notification_needs_leave_and_a_pane() {
    let options = PaneOptions::new();
    let kind = DesktopNotificationKind::TaskFailed;
    let stop = DesktopNotificationEvent::Stop;
    assert!(notification_due(&settings(), &options, "%1", kind, stop, "f", 0));
    assert!(!notification_due(&settings(), &options, "", kind, stop, "f", 0));
    assert!(!notification_due(
        &settings(),
        &options,
        "%1",
        kind,
        DesktopNotificationEvent::TaskCompleted,
        "f",
        0
    ));
    let off = DesktopNotificationSettings {
        enabled: false,
        ..settings()
    };
    assert!(!notification_due(&off, &options, "%1", kind, stop, "f", 0));
}

#[test]
fn a_stamp_belongs_to_one_run() {
    let mut options = PaneOptions::new();
    let fingerprint = run_scoped_fingerprint(Some(17), "x");
    assert_eq!(fingerprint, "17:x");
    assert_eq!(run_scoped_fingerprint(None, "x"), "x");
    let kind = DesktopNotificationKind::PermissionRequired;
    set_pane_option(
        &mut options,
        "%1",
        stamp_option_key(kind),
        &encode_stamp(5, &fingerprint),
    );
    assert!(has_run_scoped_stamp(&options, "%1", kind, Some(17)));
    assert!(!has_run_scoped_stamp(&options, "%1", kind, Some(1)));
    assert!(!has_run_scoped_stamp(&options, "%1", kind, Some(175)));
}

#[test]
fn stamps_that_are_none_are_refused() {
    assert!(parse_stamp("no bar").is_none());
    assert!(parse_stamp("x|y").is_none());
    assert_eq!(parse_stamp("7|a|b").unwrap().fingerprint, "a|b");
}

#[test]
fn event_names_read_back() {
    for event in DesktopNotificationEvent::all() {
        assert_eq!(DesktopNotificationEvent::from_token(event.as_str()), Some(event));
    }
    assert_eq!(
        DesktopNotificationEvent::from_token(" STOP "),
        Some(DesktopNotificationEvent::Stop)
    );
    assert_eq!(DesktopNotificationEvent::from_token("halt"), None);
    assert_eq!(parse_events("  "), EventSet::empty());
}

#[test]
fn settings_come_from_tmux() {
    let settings = DesktopNotificationSettings::from_tmux(
        Some("@sidebar_notifications_events \"stop\"\n@sidebar_notifications on\n"),
        &Ok(()),
    );
    assert!(settings.enabled);
    assert!(settings.event_enabled(DesktopNotificationEvent::Stop));
    assert!(!settings.event_enabled(DesktopNotificationEvent::Notification));
    let missing = DesktopNotificationSettings::from_tmux(None, &Err("not found".to_string()));
    assert!(!missing.enabled);
    assert!(missing.event_enabled(DesktopNotificationEvent::Notification));
}

#[test]
fn senders_are_called_with_quoted_texts() {
    assert_eq!(
        notify_send_args("t", "b"),
        ["--app-name=tmux-agent-sidebar", "--urgency=normal", "t", "b"]
    );
    assert_eq!(escape_applescript("a\n\"b\\"), "a \\\"b\\\\");
    assert_eq!(
        notification_script("t", "say \"x\""),
        "display notification \"say \\\"x\\\"\" with title \"t\""
    );
}

#[test]
fn senders_are_waited_for() {
    assert!(matches!(
        run_notification_command("n", SenderState::Succeeded, 9_000, 3),
        SenderStep::Done(Ok(()))
    ));
    match run_notification_command("n", SenderState::Failed("exit status: 1".to_string()), 0, 3) {
        SenderStep::Done(Err(message)) => {
            assert_eq!(message, "n exited with status exit status: 1")
        }
        _ => panic!("a failure is an error"),
    }
    match run_notification_command("n", SenderState::Lost("gone".to_string()), 0, 3) {
        SenderStep::Done(Err(message)) => assert_eq!(message, "failed to wait on n: gone"),
        _ => panic!("a lost sender is an error"),
    }
    match run_notification_command("n", SenderState::Running, 3_000, 3) {
        SenderStep::GiveUp(message) => assert_eq!(message, "n timed out after 3s"),
        _ => panic!("a slow sender is given up"),
    }
    assert!(matches!(
        run_notification_command("n", SenderState::Running, 2_999, 3),
        SenderStep::Sleep
    ));
}
