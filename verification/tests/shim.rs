use zm_mux::cli::{pane_flag, parse};
use zm_mux::ipc::{socket_name, Command};
use zm_mux::shim::{
    cmd_kill_pane, cmd_select_pane, cmd_send_keys, display_format, env_pane, flag_value, has_flag,
    list_line, print_format, split_request, subcommand, ShimCommand,
};

fn args(v: &[&str]) -> Vec<String> {
    v.iter().map(|s| s.to_string()).collect()
}

#[test]
fn flags() {
    let a = args(&["-t", "%1", "-P"]);
    assert_eq!(flag_value(&a, "-t"), Some("%1".to_string()));
    assert_eq!(flag_value(&a, "-P"), None);
    assert_eq!(flag_value(&a, "-F"), None);
    assert!(has_flag(&a, "-P"));
    assert!(!has_flag(&a, "-h"));
}

#[test]
fn send_keys_translates_unless_literal() {
    match cmd_send_keys(&args(&["-t", "%4", "ls", "Enter"])) {
        Command::SendKeys { pane, data } => {
            assert_eq!(pane, Some(4));
            assert_eq!(data, "ls\r");
        }
        _ => panic!("expected send-keys"),
    }
    match cmd_send_keys(&args(&["-l", "Enter", "-N", "3", "x"])) {
        Command::SendKeys { pane, data } => {
            assert_eq!(pane, None);
            assert_eq!(data, "Enterx");
        }
        _ => panic!("expected send-keys"),
    }
}

#[test]
fn select_and_kill() {
    assert!(matches!(cmd_select_pane(&args(&["-L"])), Some(Command::Focus { dir }) if dir == "left"));
    assert!(matches!(cmd_select_pane(&args(&["-t", "%2"])), Some(Command::SelectPane { id: 2 })));
    assert!(cmd_select_pane(&args(&[])).is_none());
    assert!(matches!(cmd_kill_pane(&args(&["-t", "%9"])), Some(Command::KillPane { id: 9 })));
    assert!(cmd_kill_pane(&args(&["-t", "bogus"])).is_none());
}

#[test]
fn split_print_and_display() {
    assert_eq!(split_request(&args(&["-h", "-t", "%3"])), (Some(3), true));
    assert_eq!(split_request(&args(&["-v"])), (None, false));
    assert_eq!(print_format(&args(&["-P"])), Some("#{pane_id}".to_string()));
    assert_eq!(print_format(&args(&["-P", "-F", "#D"])), Some("#D".to_string()));
    assert_eq!(print_format(&args(&[])), None);
    assert_eq!(display_format(&args(&["-p", "#{pane_index}"])), Some("#{pane_index}".to_string()));
    assert_eq!(display_format(&args(&["-p"])), Some("#{pane_id}".to_string()));
    assert_eq!(display_format(&args(&["x"])), None);
    assert_eq!(env_pane(Some("%%7")), 7);
    assert_eq!(env_pane(None), 0);
    assert_eq!(env_pane(Some("junk")), 0);
}

#[test]
fn list_lines() {
    assert_eq!(list_line(None, 3, true, 80, 24), "%3: [80x24] (active)");
    assert_eq!(list_line(None, 1, false, 10, 5), "%1: [10x5]");
    assert_eq!(
        list_line(Some("#{pane_id} #{pane_active} #{pane_width}x#{pane_height}"), 2, false, 80, 24),
        "%2 0 80x24"
    );
}

#[test]
fn subcommands() {
    assert_eq!(subcommand("splitw"), ShimCommand::Split);
    assert_eq!(subcommand("-V"), ShimCommand::Version);
    assert_eq!(subcommand("display"), ShimCommand::Display);
    assert_eq!(subcommand("set-option"), ShimCommand::Ignore);
    assert_eq!(subcommand(""), ShimCommand::Ignore);
}

#[test]
fn cli_parse() {
    assert!(matches!(parse(&args(&["list-panes"])), Some(Command::ListPanes)));
    assert!(matches!(parse(&args(&["split"])), Some(Command::Split { vertical: true })));
    assert!(matches!(parse(&args(&["split", "-h"])), Some(Command::Split { vertical: false })));
    assert!(matches!(parse(&args(&["select-pane", "4"])), Some(Command::SelectPane { id: 4 })));
    assert!(parse(&args(&["select-pane", "x"])).is_none());
    assert!(parse(&args(&["focus"])).is_none());
    assert!(parse(&args(&["bogus"])).is_none());
    assert!(parse(&args(&[])).is_none());
    match parse(&args(&["send-keys", "echo", "--pane", "2", "hi"])) {
        Some(Command::SendKeys { pane, data }) => {
            assert_eq!(pane, Some(2));
            assert_eq!(data, "echo hi");
        }
        _ => panic!("expected send-keys"),
    }
    assert_eq!(pane_flag(&args(&["--pane"])), None);
    assert_eq!(pane_flag(&args(&["--pane", "+5"])), Some(5));
    assert_eq!(socket_name(1234), "zm-mux-1234.sock");
}
