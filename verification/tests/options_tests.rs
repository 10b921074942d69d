use tmux_agent_sidebar::tmux::commands::{
    capture, display_message, display_message_args, kill_window, new_window, new_window_args,
    pane_session_name, run_tmux, run_tmux_capture, select_pane, send_command, set_window_option,
    SendStep, Sent,
};
use tmux_agent_sidebar::tmux::options::{
    get_all_global_options, get_option, get_pane_option_value, set_pane_option, unset_pane_option,
    PaneOptions, PANE_STATUS,
};

#[test]
fn mock_install_round_trips_pane_option() {
    let mut options = PaneOptions::new();
    set_pane_option(&mut options, "%1", PANE_STATUS, "running");
    assert_eq!(get_pane_option_value(&options, "%1", PANE_STATUS), "running");
    assert!(options.contains("%1", PANE_STATUS));
    unset_pane_option(&mut options, "%1", PANE_STATUS);
    assert!(!options.contains("%1", PANE_STATUS));
    // A missing key reads as the empty string.
    assert!(get_pane_option_value(&options, "%1", PANE_STATUS).is_empty());
}

#[test]
fn mock_helpers_get_and_contains_when_installed() {
    let mut options = PaneOptions::new();
    set_pane_option(&mut options, "%9", "@foo", "bar");
    assert_eq!(options.get("%9", "@foo").as_deref(), Some("bar"));
    assert_eq!(get_pane_option_value(&options, "%9", "@missing"), "");
}

#[test]
fn mock_guard_uninstalls_on_drop() {
    {
        let mut options = PaneOptions::new();
        set_pane_option(&mut options, "%7", "@x", "y");
        assert!(options.contains("%7", "@x"));
    }
    // A new log knows nothing of an earlier one.
    assert!(!PaneOptions::new().contains("%7", "@x"));
}

#[test]
fn options_of_other_panes_are_untouched() {
    let mut options = PaneOptions::new();
    set_pane_option(&mut options, "%1", "@k", "a");
    set_pane_option(&mut options, "%2", "@k", "b");
    unset_pane_option(&mut options, "%2", "@k");
    assert_eq!(get_pane_option_value(&options, "%1", "@k"), "a");
}

#[test]
fn options_are_read_from_answers() {
    assert_eq!(get_option(Some(" on\n")).as_deref(), Some("on"));
    assert_eq!(get_option(Some(" \n")), None);
    assert_eq!(get_option(None), None);
    let all = get_all_global_options(Some("@a \"b c\"\nstatus on\nlonely\n"));
    assert_eq!(all.get("@a").map(|value| value.as_str()), Some("b c"));
    assert_eq!(all.get("status").map(|value| value.as_str()), Some("on"));
    assert!(all.get("lonely").is_none());
}

#[test]
fn tmux_answers_are_told_from_complaints() {
    assert_eq!(run_tmux(true, b"a\xff\n").as_deref(), Some("a\u{fffd}\n"));
    assert_eq!(run_tmux(false, b"a"), None);
    assert_eq!(
        run_tmux_capture(true, "", b" a \n", b""),
        Ok("a".to_string())
    );
    assert_eq!(
        run_tmux_capture(false, "exit status: 1", b"", b" no server \n"),
        Err("no server".to_string())
    );
    assert_eq!(
        capture(false, "exit status: 1", "x", " "),
        Err("tmux exited with status exit status: 1".to_string())
    );
}

#[test]
fn messages_are_trimmed() {
    assert_eq!(
        display_message_args("%1", "#{session_name}"),
        ["display-message", "-t", "%1", "-p", "#{session_name}"]
    );
    assert_eq!(display_message(Some(" main\n")), "main");
    assert_eq!(display_message(None), "");
    assert_eq!(pane_session_name(Some("main\n")).as_deref(), Some("main"));
    assert_eq!(pane_session_name(Some("\n")), None);
    assert_eq!(pane_session_name(None), None);
}

#[test]
fn new_windows_tell_their_ids() {
    assert_eq!(
        new_window_args("s", "/d", "n"),
        [
            "new-window",
            "-t",
            "s",
            "-c",
            "/d",
            "-n",
            "n",
            "-P",
            "-F",
            "#{pane_id} #{window_id}"
        ]
    );
    assert_eq!(
        new_window(Ok("%5 @7".to_string())),
        Ok(("%5".to_string(), "@7".to_string()))
    );
    assert_eq!(
        new_window(Ok(String::new())),
        Err("new-window returned no pane id".to_string())
    );
    assert_eq!(
        new_window(Ok("%5".to_string())),
        Err("new-window returned no window id".to_string())
    );
    assert_eq!(
        new_window(Err("no session".to_string())),
        Err("no session".to_string())
    );
}

#[test]
fn commands_have_targets() {
    assert_eq!(
        set_window_option("@1", "@k", "v"),
        ["set", "-w", "-t", "@1", "@k", "v"]
    );
    assert_eq!(kill_window("@1"), ["kill-window", "-t", "@1"]);
    assert_eq!(
        select_pane("%1", "$2", "@3"),
        vec![
            vec!["switch-client", "-t", "$2"],
            vec!["select-window", "-t", "@3"],
            vec!["select-pane", "-t", "%1"]
        ]
    );
    assert_eq!(
        select_pane("%1", "", ""),
        vec![vec!["select-pane", "-t", "%1"]]
    );
}

#[test]
fn enter_is_sent_behind_a_text_that_arrived() {
    match send_command("%1", "Tab", Sent::Nothing) {
        SendStep::Type(args) => assert_eq!(args, ["send-keys", "-t", "%1", "-l", "Tab"]),
        step => panic!("{step:?}"),
    }
    match send_command("%1", "Tab", Sent::Typed(Ok(String::new()))) {
        SendStep::Press(args) => assert_eq!(args, ["send-keys", "-t", "%1", "Enter"]),
        step => panic!("{step:?}"),
    }
    match send_command("%1", "Tab", Sent::Pressed(Ok(String::new()))) {
        SendStep::Done(outcome) => assert_eq!(outcome, Ok(())),
        step => panic!("{step:?}"),
    }
}

#[test]
fn the_first_complaint_ends_a_command_line() {
    let failed = || Err("no such pane".to_string());
    for sent in [Sent::Typed(failed()), Sent::Pressed(failed())] {
        match send_command("%1", "Tab", sent) {
            SendStep::Done(outcome) => assert_eq!(outcome, Err("no such pane".to_string())),
            step => panic!("{step:?}"),
        }
    }
}
