use zm_mux::pane_tree::{PaneId, PaneNode, SplitDirection};
use zm_mux::session::{clone_node, sessions_dir, Platform, SessionSnapshot};
use zm_mux::tabs::TabSet;

#[test]
fn snapshot_multi_tab() {
    let (mut tabs, _) = TabSet::new();
    let _ = tabs.create_tab();
    let _ = tabs.create_tab();
    let snap = SessionSnapshot::from_tab_set(&tabs, "multi", 0);
    let restored = snap.to_tab_set().expect("a snapshot of a tab set restores");
    assert_eq!(restored.tab_count(), 3);
}

#[test]
fn snapshot_with_splits_restores_panes_and_counters() {
    let (mut tabs, initial) = TabSet::new();
    let new_id = tabs.alloc_pane_id();
    tabs.active_mut().tree.split(initial, SplitDirection::Horizontal, new_id);
    let snap = SessionSnapshot::from_tab_set(&tabs, "split-test", 1700000000);
    assert_eq!(snap.name, "split-test");
    assert_eq!(snap.timestamp, "1700000000");
    assert_eq!(snap.tabs.len(), 1);
    assert_eq!(snap.active_tab, 0);
    let restored = snap.to_tab_set().unwrap();
    assert_eq!(restored.active().tree.pane_count(), 2);
    assert_eq!(restored.next_pane_id(), tabs.next_pane_id());
    assert_eq!(restored.active().tree.pane_ids(), tabs.active().tree.pane_ids());
}

#[test]
fn snapshot_naming_no_tab_does_not_restore() {
    let (tabs, _) = TabSet::new();
    let mut snap = SessionSnapshot::from_tab_set(&tabs, "x", 5);
    snap.active_tab = 7;
    assert!(snap.to_tab_set().is_none());
    snap.tabs.clear();
    snap.active_tab = 0;
    assert!(snap.to_tab_set().is_none());
}

#[test]
fn clone_node_copies_structure() {
    let n = PaneNode::Split {
        direction: SplitDirection::Vertical,
        ratio: 7,
        first: Box::new(PaneNode::Leaf(PaneId(1))),
        second: Box::new(PaneNode::Leaf(PaneId(2))),
    };
    let c = clone_node(&n);
    match c {
        PaneNode::Split { direction, ratio, first, second } => {
            assert_eq!(direction, SplitDirection::Vertical);
            assert_eq!(ratio, 7);
            assert!(matches!(*first, PaneNode::Leaf(PaneId(1))));
            assert!(matches!(*second, PaneNode::Leaf(PaneId(2))));
        }
        PaneNode::Leaf(_) => panic!("expected a split"),
    }
}

#[test]
fn sessions_dir_by_platform_and_environment() {
    let s = |v: &str| Some(v.to_string());
    assert_eq!(
        sessions_dir(Platform::Windows, s("C:\\AppData"), s("/h"), None),
        vec!["C:\\AppData", "zm-mux", "sessions"]
    );
    assert_eq!(
        sessions_dir(Platform::MacOs, None, s("/Users/a"), s("/x")),
        vec!["/Users/a", "Library", "Application Support", "zm-mux", "sessions"]
    );
    assert_eq!(
        sessions_dir(Platform::Other, s("ignored"), s("/home/a"), s("/data")),
        vec!["/data", "zm-mux", "sessions"]
    );
    assert_eq!(
        sessions_dir(Platform::Other, None, s("/home/a"), None),
        vec!["/home/a", ".zm-mux", "sessions"]
    );
    assert_eq!(sessions_dir(Platform::Windows, None, None, None), vec![".zm-mux", "sessions"]);
}
