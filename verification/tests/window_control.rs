use trace::window_control::{
    close_window, close_window_arg, focus_workspace, move_window_arg, move_window_to_workspace, not_hyprland,
    windows_parse_error, windows_unsupported, workspace_arg,
};

#[test]
fn dispatch_arguments() {
    assert_eq!(move_window_arg("0x55aa", 3), "3,address:0x55aa");
    assert_eq!(move_window_arg("0x1", -1), "-1,address:0x1");
    assert_eq!(workspace_arg(-98), "-98");
    assert_eq!(close_window_arg("0x1"), "address:0x1");
}

#[test]
fn window_messages() {
    assert_eq!(move_window_to_workspace("0x1", 2, Ok(String::new())).message, "Moved window 0x1 to workspace 2");
    assert_eq!(move_window_to_workspace("0x1", 2, Err("e".to_string())).message, "Failed to move window: e");
    assert_eq!(focus_workspace(4, Ok(String::new())).message, "Switched to workspace 4");
    assert_eq!(focus_workspace(4, Err("e".to_string())).message, "Failed to switch workspace: e");
    assert_eq!(close_window("0x1", Ok(String::new())).message, "Closed window 0x1");
    assert_eq!(close_window("0x1", Err("e".to_string())).message, "Failed to close window: e");
    let r = not_hyprland();
    assert!(!r.ok);
    assert_eq!(r.message, "Not running under Hyprland");
    assert_eq!(windows_unsupported(), "Not running under Hyprland (only compositor supported so far)");
    assert_eq!(windows_parse_error("EOF"), "Failed to parse hyprctl output: EOF");
}
