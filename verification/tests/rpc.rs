use std::collections::HashMap;
use zm_mux::backend::{str_lt, ContextEntry, ContextRegistry, MinimalHandler};
use zm_mux::rpc::{
    CaptureParams, ContextId, ContextStatus, InitParams, KillParams, ListParams, Notification,
    RpcError, RpcMethod, SpawnAgentParams, WriteParams, CONTEXT_NOT_FOUND,
};

fn spawn(argv: Vec<&str>, name: Option<&str>) -> SpawnAgentParams {
    SpawnAgentParams {
        argv: argv.into_iter().map(|s| s.to_string()).collect(),
        env: HashMap::new(),
        cwd: None,
        name: name.map(|s| s.to_string()),
    }
}

#[test]
fn rpc_method_str() {
    assert_eq!(RpcMethod::Initialize.as_str(), "initialize");
    assert_eq!(RpcMethod::SpawnAgent.as_str(), "spawn_agent");
    assert_eq!(RpcMethod::Write.as_str(), "write");
    assert_eq!(RpcMethod::Capture.as_str(), "capture");
    assert_eq!(RpcMethod::Kill.as_str(), "kill");
    assert_eq!(RpcMethod::List.as_str(), "list");
}

#[test]
fn rpc_method_names_read_back() {
    for m in [
        RpcMethod::Initialize,
        RpcMethod::SpawnAgent,
        RpcMethod::Write,
        RpcMethod::Capture,
        RpcMethod::Kill,
        RpcMethod::List,
    ] {
        assert_eq!(RpcMethod::from_name(m.as_str()), Some(m));
    }
    assert_eq!(RpcMethod::from_name("nonsuch"), None);
}

#[test]
fn initialize_returns_self_id() {
    let mut h = MinimalHandler::with_self_id(ContextId::new("ctx-fixed"));
    let result = h
        .handle_initialize(InitParams { protocol_version: "1.0".to_string() })
        .unwrap();
    assert_eq!(result.self_context_id, ContextId::new("ctx-fixed"));
}

#[test]
fn spawn_agent_assigns_sequential_ids() {
    let mut h = MinimalHandler::new();
    let r1 = h.handle_spawn_agent(spawn(vec!["sh"], None)).unwrap();
    let r2 = h.handle_spawn_agent(spawn(vec!["sh"], None)).unwrap();
    assert_eq!(r1.context_id, ContextId::new("ctx-1"));
    assert_eq!(r2.context_id, ContextId::new("ctx-2"));
}

#[test]
fn spawn_agent_rejects_empty_argv() {
    let mut h = MinimalHandler::new();
    let err = h.handle_spawn_agent(spawn(vec![], None)).unwrap_err();
    assert_eq!(err.code, RpcError::INVALID_PARAMS);
    assert!(err.message.contains("argv"));
}

#[test]
fn list_reflects_registry_sorted() {
    let mut h = MinimalHandler::new();
    for a in ["a", "b", "c"] {
        h.handle_spawn_agent(spawn(vec![a], None)).unwrap();
    }
    let r = h.handle_list(ListParams::default()).unwrap();
    assert_eq!(r.contexts.len(), 3);
    assert_eq!(r.contexts[0].id, ContextId::new("ctx-1"));
    assert_eq!(r.contexts[1].id, ContextId::new("ctx-2"));
    assert_eq!(r.contexts[2].id, ContextId::new("ctx-3"));
    assert_eq!(r.contexts[0].name, "agent-ctx-1");
}

#[test]
fn write_then_capture_round_trips() {
    let mut h = MinimalHandler::new();
    let s = h.handle_spawn_agent(spawn(vec!["sh"], Some("test"))).unwrap();
    for line in ["aGVsbG8=", "d29ybGQ=", "IQ=="] {
        h.handle_write(WriteParams { context_id: s.context_id.clone(), data: line.to_string() })
            .unwrap();
    }
    let cap = h
        .handle_capture(CaptureParams { context_id: s.context_id.clone(), lines: 2 })
        .unwrap();
    assert_eq!(cap.data, "d29ybGQ=\nIQ==");
    let all = h
        .handle_capture(CaptureParams { context_id: s.context_id.clone(), lines: 10 })
        .unwrap();
    assert_eq!(all.data, "aGVsbG8=\nd29ybGQ=\nIQ==");
    let none = h.handle_capture(CaptureParams { context_id: s.context_id, lines: 0 }).unwrap();
    assert_eq!(none.data, "");
}

#[test]
fn kill_unknown_context_returns_context_not_found() {
    let mut h = MinimalHandler::new();
    let err = h.handle_kill(KillParams { context_id: ContextId::new("ctx-ghost") }).unwrap_err();
    assert_eq!(err.code, CONTEXT_NOT_FOUND);
    assert_eq!(err.message, "context not found: ctx-ghost");
}

#[test]
fn kill_then_list_excludes_killed() {
    let mut h = MinimalHandler::new();
    let s = h.handle_spawn_agent(spawn(vec!["sh"], None)).unwrap();
    h.handle_kill(KillParams { context_id: s.context_id.clone() }).unwrap();
    let r = h.handle_list(ListParams::default()).unwrap();
    assert!(r.contexts.is_empty());
}

#[test]
fn simulate_exit_emits_notification_and_marks_exited() {
    let mut h = MinimalHandler::new();
    let s = h.handle_spawn_agent(spawn(vec!["sh"], None)).unwrap();
    h.simulate_exit(&s.context_id, 0).unwrap();
    let notifs = h.drain_notifications();
    assert_eq!(notifs.len(), 1);
    assert_eq!(notifs[0].method, Notification::CONTEXT_EXITED);
    assert_eq!(notifs[0].params.exit_code, 0);
    assert!(h.drain_notifications().is_empty());
    let listed = h.handle_list(ListParams::default()).unwrap();
    assert_eq!(listed.contexts.len(), 1);
    assert_eq!(listed.contexts[0].status, ContextStatus::Exited);
}

#[test]
fn write_to_unknown_context_fails() {
    let mut h = MinimalHandler::new();
    let err = h
        .handle_write(WriteParams { context_id: ContextId::new("ctx-9"), data: "x".to_string() })
        .unwrap_err();
    assert_eq!(err.code, CONTEXT_NOT_FOUND);
    assert!(h.simulate_exit(&ContextId::new("ctx-9"), 1).is_err());
    assert!(h
        .handle_capture(CaptureParams { context_id: ContextId::new("ctx-9"), lines: 1 })
        .is_err());
}

fn entry(id: &str) -> ContextEntry {
    ContextEntry {
        id: ContextId::new(id),
        name: id.to_string(),
        status: ContextStatus::Running,
        argv: vec![],
        write_log: vec![],
    }
}

#[test]
fn registry_orders_ids_lexicographically() {
    let mut r = ContextRegistry::new();
    assert!(r.is_empty());
    for id in ["ctx-2", "ctx-10", "ctx-1", "ctx-2"] {
        r.insert(entry(id));
    }
    assert_eq!(r.len(), 3);
    let ids: Vec<String> = r.snapshot().into_iter().map(|c| c.id.0).collect();
    assert_eq!(ids, vec!["ctx-1", "ctx-10", "ctx-2"]);
    assert_eq!(r.get(&ContextId::new("ctx-10")).unwrap().name, "ctx-10");
    r.get_mut(&ContextId::new("ctx-1")).unwrap().status = ContextStatus::Failed;
    assert_eq!(r.get(&ContextId::new("ctx-1")).unwrap().status, ContextStatus::Failed);
    assert!(r.remove(&ContextId::new("ctx-1")).is_some());
    assert!(r.remove(&ContextId::new("ctx-1")).is_none());
    assert!(r.get(&ContextId::new("ctx-1")).is_none());
    assert_eq!(r.len(), 2);
}

#[test]
fn allocated_ids_count_up() {
    let mut r = ContextRegistry::new();
    assert_eq!(r.allocate_id(), ContextId::new("ctx-1"));
    assert_eq!(r.allocate_id(), ContextId::new("ctx-2"));
    assert!(str_lt("ctx-1", "ctx-2"));
    assert!(str_lt("ab", "abc"));
    assert!(!str_lt("b", "abc"));
    assert!(!str_lt("x", "x"));
}

#[test]
fn registry_size_follows_inserts_and_removals() {
    let mut r = ContextRegistry::new();
    r.insert(entry("ctx-1"));
    r.insert(entry("ctx-2"));
    assert_eq!(r.len(), 2);
    r.insert(entry("ctx-1"));
    assert_eq!(r.len(), 2);
    assert!(r.remove(&ContextId::new("ctx-9")).is_none());
    assert_eq!(r.len(), 2);
    assert!(r.remove(&ContextId::new("ctx-1")).is_some());
    assert_eq!(r.len(), 1);
}

#[test]
fn ids_count_up_across_failed_spawns() {
    let mut h = MinimalHandler::new();
    let mut got = Vec::new();
    for k in 0..6 {
        let argv = if k % 2 == 0 { vec!["sh"] } else { vec![] };
        if let Ok(r) = h.handle_spawn_agent(spawn(argv, None)) {
            got.push(r.context_id.0);
        }
    }
    assert_eq!(got, vec!["ctx-1".to_string(), "ctx-2".to_string(), "ctx-3".to_string()]);
    let mut reg = ContextRegistry::new();
    reg.insert(entry("ctx-x"));
    assert_eq!(reg.allocate_id().0, "ctx-1");
    reg.remove(&ContextId::new("ctx-x"));
    assert_eq!(reg.allocate_id().0, "ctx-2");
    assert_eq!(reg.len(), 0);
}
