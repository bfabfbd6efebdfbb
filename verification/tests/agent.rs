use zm_mux::agent::{
    format_pane, git_command_result, git_root_result, parse_target, short_id, tmux_env,
    translate_key, worktree_branch, worktree_dir_name, WorktreeError,
};

#[test]
fn targets() {
    assert_eq!(parse_target("%3"), Some(3));
    assert_eq!(parse_target("sess:1.2"), Some(2));
    assert_eq!(parse_target("7"), Some(7));
    assert_eq!(parse_target("x"), None);
}

#[test]
fn keys() {
    assert_eq!(translate_key("Enter"), "\r");
    assert_eq!(translate_key("C-c"), "\u{3}");
    assert_eq!(translate_key("Space"), " ");
    assert_eq!(translate_key("hello"), "hello");
}

#[test]
fn format() {
    assert_eq!(format_pane("#{pane_id}", 2), "%2");
    assert_eq!(format_pane("#{pane_index}", 2), "2");
}

#[test]
fn env_has_tmux() {
    let v = tmux_env(5, "sock", true, 4242);
    assert!(v.iter().any(|(k, val)| *k == "TMUX_PANE" && val == "%5"));
    assert!(v.iter().any(|(k, _)| *k == "CLAUDE_CODE_EXPERIMENTAL_AGENT_TEAMS"));
    assert!(v.iter().any(|(k, val)| *k == "TMUX" && val == "sock,4242,0"));
    assert_eq!(tmux_env(5, "sock", false, 1).len(), 3);
}

#[test]
fn more_targets_and_keys() {
    assert_eq!(parse_target("  %12  "), Some(12));
    assert_eq!(parse_target("main:0"), Some(0));
    assert_eq!(parse_target("a.b"), None);
    assert_eq!(parse_target(""), None);
    assert_eq!(translate_key("C-M"), "\r");
    assert_eq!(translate_key("C-1"), "C-1");
    assert_eq!(translate_key("Left"), "\x1b[D");
    assert_eq!(translate_key("BSpace"), "\x7f");
    assert_eq!(format_pane("x#Dy #{pane_id}", 9), "x%9y %9");
}

#[test]
fn worktree_names_and_outcomes() {
    assert_eq!(worktree_branch("sh", "0000abcd"), "zm/sh-0000abcd");
    assert_eq!(worktree_dir_name("sh", "0000abcd"), "sh-0000abcd");
    assert_eq!(short_id(0x1_2345_6789, 0), "23456789");
    assert_eq!(short_id(0xff, 0xff), "00000000");
    assert_eq!(short_id(10, 0), "0000000a");
    assert_eq!(git_root_result(true, " /repo\n").unwrap(), "/repo");
    assert!(matches!(git_root_result(false, "x"), Err(WorktreeError::NotGitRepo)));
    assert!(git_command_result(true, "").is_ok());
    match git_command_result(false, "fatal: bad\n") {
        Err(WorktreeError::GitCommandFailed(m)) => assert_eq!(m, "fatal: bad"),
        _ => panic!("expected a git failure"),
    }
}

#[test]
fn pane_targets_read_back() {
    for n in [0u64, 7, 42, 1234567, u64::MAX] {
        assert_eq!(parse_target(&format_pane("#{pane_id}", n)), Some(n));
        assert_eq!(parse_target(&n.to_string()), Some(n));
        assert_eq!(parse_target(&format!("sess:0.{n}")), Some(n));
        assert_eq!(parse_target(&format!("%main:3.{n}")), Some(n));
    }
}
