use tmux_agent_sidebar::diff_viewer::{
    cmd_view_patch, configured_viewer, kind_of_target, names_place, open_popup,
    parse_viewer_command, popup_for_viewer, resolve_executable, shell_quote, target_kind,
    viewer_command, ViewOutcome,
};
use tmux_agent_sidebar::git::VcsKind;
use tmux_agent_sidebar::json::Json;

#[test]
fn parses_hunk_argv() {
    assert_eq!(
        parse_viewer_command(r#"["hunk","patch","-"]"#).unwrap(),
        ["hunk", "patch", "-"]
    );
}

#[test]
fn rejects_shell_string() {
    assert!(parse_viewer_command("hunk patch -").is_err());
}

#[test]
fn quotes_single_quote_for_posix_shell() {
    assert_eq!(shell_quote("a'b"), "'a'\"'\"'b'");
}

#[test]
fn a_viewer_is_a_list_of_texts_with_a_program() {
    assert_eq!(
        parse_viewer_command("[]"),
        Err("@sidebar_diff_viewer_command must name an executable".to_string())
    );
    assert_eq!(
        parse_viewer_command(r#"["","x"]"#),
        Err("@sidebar_diff_viewer_command must name an executable".to_string())
    );
    assert_eq!(
        parse_viewer_command(r#"["less",1]"#),
        Err("@sidebar_diff_viewer_command must be a JSON argv array".to_string())
    );
    assert_eq!(
        viewer_command(Some(&Json::List(vec![Json::Text("less".to_string())]))),
        Ok(vec!["less".to_string()])
    );
    assert_eq!(
        configured_viewer(None),
        Err("@sidebar_diff_viewer_command is not configured".to_string())
    );
}

#[test]
fn a_missing_program_is_named() {
    assert!(names_place("./less"));
    assert!(!names_place("less"));
    assert_eq!(resolve_executable("less", true), Ok(()));
    assert_eq!(
        resolve_executable("less", false),
        Err("diff viewer not found in PATH: less".to_string())
    );
    assert_eq!(
        resolve_executable("/bin/less", false),
        Err("diff viewer not found: /bin/less".to_string())
    );
}

#[test]
fn a_popup_carries_its_target() {
    let args = open_popup(Some(r#"["less"]"#), true, "/bin/side bar", r#"{"root":"/r"}"#).unwrap();
    assert_eq!(
        args,
        [
            "display-popup",
            "-E",
            "-w",
            "100%",
            "-h",
            "100%",
            "'/bin/side bar' view-patch '{\"root\":\"/r\"}'"
        ]
    );
    assert_eq!(
        open_popup(Some(r#"["less"]"#), false, "x", "y"),
        Err("diff viewer not found in PATH: less".to_string())
    );
    assert_eq!(
        open_popup(None, true, "x", "y"),
        Err("@sidebar_diff_viewer_command is not configured".to_string())
    );
    assert_eq!(
        popup_for_viewer(Err("no".to_string()), true, "x", "y"),
        Err("no".to_string())
    );
}

#[test]
fn target_kinds_read_back() {
    for kind in [VcsKind::Git, VcsKind::Arc] {
        assert_eq!(kind_of_target(&target_kind(kind)), Some(kind));
    }
    assert_eq!(kind_of_target("Git"), None);
}

#[test]
fn view_ends_have_codes() {
    assert_eq!(
        cmd_view_patch(ViewOutcome::NoTarget),
        (2, Some("No diff target selected".to_string()))
    );
    assert_eq!(
        cmd_view_patch(ViewOutcome::InvalidTarget),
        (2, Some("Invalid diff target".to_string()))
    );
    assert_eq!(
        cmd_view_patch(ViewOutcome::NoViewer("e".to_string())),
        (2, Some("e".to_string()))
    );
    assert_eq!(
        cmd_view_patch(ViewOutcome::NoPatch("e".to_string())),
        (2, Some("Cannot create patch: e".to_string()))
    );
    assert_eq!(
        cmd_view_patch(ViewOutcome::NotStarted("e".to_string())),
        (127, Some("Cannot launch diff viewer: e".to_string()))
    );
    assert_eq!(cmd_view_patch(ViewOutcome::NotTaken), (1, None));
    assert_eq!(cmd_view_patch(ViewOutcome::Ended(Some(3))), (3, None));
    assert_eq!(cmd_view_patch(ViewOutcome::Ended(None)), (1, None));
    assert_eq!(cmd_view_patch(ViewOutcome::Lost), (1, None));
}
