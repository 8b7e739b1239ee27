use snaglord::tmux::{
    capture_pane_args, captured_text, clipboard_commands, pane_target, previous_pane_args,
    previous_pane_id, PaneTarget, Platform, TmuxError,
};

#[test]
fn no_pane_is_the_current_pane() {
    assert!(matches!(pane_target(None), PaneTarget::Current));
}

#[test]
fn previous_is_the_previous_pane() {
    assert!(matches!(pane_target(Some("previous")), PaneTarget::Previous));
}

#[test]
fn other_names_are_kept() {
    match pane_target(Some("%3")) {
        PaneTarget::Named(n) => assert_eq!(n, "%3"),
        other => panic!("unexpected {:?}", other),
    }
    match pane_target(Some("Previous")) {
        PaneTarget::Named(n) => assert_eq!(n, "Previous"),
        other => panic!("unexpected {:?}", other),
    }
}

#[test]
fn list_panes_arguments() {
    assert_eq!(
        previous_pane_args(),
        vec!["list-panes", "-f", "#{pane_last}", "-F", "#{pane_id}"]
    );
}

#[test]
fn capture_arguments_without_target() {
    assert_eq!(
        capture_pane_args(None),
        vec!["capture-pane", "-e", "-J", "-p", "-S", "-"]
    );
}

#[test]
fn capture_arguments_with_target() {
    assert_eq!(
        capture_pane_args(Some("%1")),
        vec!["capture-pane", "-e", "-J", "-p", "-S", "-", "-t", "%1"]
    );
}

#[test]
fn previous_pane_id_is_trimmed() {
    assert_eq!(previous_pane_id(b"  %12\n".to_vec()), Ok("%12".to_string()));
}

#[test]
fn blank_answer_means_no_previous_pane() {
    assert_eq!(previous_pane_id(b" \n\t".to_vec()), Err(TmuxError::NoPreviousPane));
    assert_eq!(previous_pane_id(Vec::new()), Err(TmuxError::NoPreviousPane));
}

#[test]
fn invalid_utf8_is_refused() {
    assert_eq!(previous_pane_id(vec![0xff, 0x25]), Err(TmuxError::InvalidUtf8));
    assert_eq!(captured_text(vec![b'a', 0xc3]), Err(TmuxError::InvalidUtf8));
}

#[test]
fn captured_text_is_decoded() {
    assert_eq!(captured_text("héllo\n".as_bytes().to_vec()), Ok("héllo\n".to_string()));
}

#[test]
fn clipboard_commands_per_platform() {
    assert_eq!(clipboard_commands(Platform::MacOs), vec![vec!["pbcopy"]]);
    assert_eq!(clipboard_commands(Platform::Wayland), vec![vec!["wl-copy"]]);
    assert_eq!(
        clipboard_commands(Platform::X11),
        vec![vec!["xclip", "-selection", "clipboard"], vec!["xsel", "--clipboard", "--input"]]
    );
    assert_eq!(clipboard_commands(Platform::Windows), vec![vec!["clip"]]);
}
