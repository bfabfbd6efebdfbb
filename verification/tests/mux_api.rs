use zm_mux::mux_api::MuxMethod;

#[test]
fn mux_method_str_roundtrip() {
    for m in [
        MuxMethod::ListPanes,
        MuxMethod::GetStatus,
        MuxMethod::SendKeys,
        MuxMethod::FocusPane,
        MuxMethod::SplitPane,
        MuxMethod::ClosePane,
        MuxMethod::CreateTab,
        MuxMethod::CloseTab,
        MuxMethod::SetAgentInfo,
    ] {
        let s = m.as_str();
        assert_eq!(MuxMethod::parse_method(s), Some(m));
    }
}

#[test]
fn is_mux_method_prefix() {
    assert!(MuxMethod::is_mux_method("mux.list_panes"));
    assert!(MuxMethod::is_mux_method("mux.get_status"));
    assert!(MuxMethod::is_mux_method("mux.unknown_future"));
    assert!(!MuxMethod::is_mux_method("initialize"));
    assert!(!MuxMethod::is_mux_method("spawn_agent"));
}

#[test]
fn unknown_method_returns_none() {
    assert_eq!(MuxMethod::parse_method("mux.nonexistent"), None);
    assert_eq!(MuxMethod::parse_method("initialize"), None);
}

#[test]
fn mux_method_names_exact() {
    assert_eq!(MuxMethod::SetAgentInfo.as_str(), "mux.set_agent_info");
    assert_eq!(MuxMethod::ListPanes.as_str(), "mux.list_panes");
    assert!(!MuxMethod::is_mux_method("mux"));
    assert!(MuxMethod::is_mux_method("mux."));
}
