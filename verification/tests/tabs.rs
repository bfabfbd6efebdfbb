use zm_mux::pane_tree::{PaneId, SplitDirection};
use zm_mux::tabs::{TabId, TabSet};

#[test]
fn new_has_one_tab_with_initial_pane() {
    let (set, initial) = TabSet::new();
    assert_eq!(set.tab_count(), 1);
    assert_eq!(initial, PaneId(0));
    assert_eq!(set.active().focused_pane, PaneId(0));
    assert_eq!(set.active().tree.pane_count(), 1);
}

#[test]
fn alloc_pane_id_is_global_and_monotonic() {
    let (mut set, _) = TabSet::new();
    let a = set.alloc_pane_id();
    let b = set.alloc_pane_id();
    assert_ne!(a, b);
    assert_eq!(a.0 + 1, b.0);
}

#[test]
fn create_tab_auto_switches_and_uses_global_pane_id() {
    let (mut set, initial) = TabSet::new();
    assert_eq!(initial, PaneId(0));
    let (tab_id, new_pane) = set.create_tab();
    assert_eq!(set.tab_count(), 2);
    assert_eq!(set.active_id(), tab_id);
    assert_ne!(new_pane, PaneId(0));
}

#[test]
fn close_active_returns_panes_and_switches_focus() {
    let (mut set, _initial) = TabSet::new();
    let (tab1, _) = set.create_tab();
    let (tab2, _) = set.create_tab();
    let new_pane_id = set.alloc_pane_id();
    let focused = set.active().focused_pane;
    assert!(set
        .active_mut()
        .tree
        .split(focused, SplitDirection::Horizontal, new_pane_id));
    let killed = set.close_active();
    assert_eq!(killed.len(), 2);
    assert_eq!(set.tab_count(), 2);
    assert_ne!(set.active_id(), tab2);
    assert_eq!(set.active_id(), tab1);
}

#[test]
fn close_active_noop_when_one_tab() {
    let (mut set, _) = TabSet::new();
    assert_eq!(set.close_active(), Vec::<PaneId>::new());
    assert_eq!(set.tab_count(), 1);
}

#[test]
fn switch_next_prev_wraps() {
    let (mut set, _) = TabSet::new();
    let (t1, _) = set.create_tab();
    let (t2, _) = set.create_tab();
    assert!(set.switch_next());
    assert_eq!(set.active_id(), TabId(0));
    assert!(set.switch_prev());
    assert_eq!(set.active_id(), t2);
    assert!(set.switch_to(t1));
    assert_eq!(set.active_id(), t1);
}

#[test]
fn switch_to_index_bounds() {
    let (mut set, _) = TabSet::new();
    let _ = set.create_tab();
    let _ = set.create_tab();
    assert!(set.switch_to_index(0));
    assert_eq!(set.active_id(), TabId(0));
    assert!(set.switch_to_index(2));
    assert_eq!(set.active_id(), TabId(2));
    assert!(!set.switch_to_index(99));
}

#[test]
fn switch_unknown_tab_returns_false() {
    let (mut set, _) = TabSet::new();
    assert!(!set.switch_to(TabId(99)));
}

#[test]
fn split_reports_unknown_target_and_keeps_order() {
    let (mut set, p0) = TabSet::new();
    let p1 = set.alloc_pane_id();
    assert!(!set.active_mut().tree.split(PaneId(42), SplitDirection::Vertical, p1));
    assert!(set.active_mut().tree.split(p0, SplitDirection::Vertical, p1));
    let p2 = set.alloc_pane_id();
    assert!(set.active_mut().tree.split(p0, SplitDirection::Horizontal, p2));
    assert_eq!(set.active().tree.pane_ids(), vec![p0, p2, p1]);
}

#[test]
fn single_tab_does_not_switch() {
    let (mut set, _) = TabSet::new();
    assert!(!set.switch_next());
    assert!(!set.switch_prev());
    assert_eq!(set.active_id(), TabId(0));
    assert_eq!(set.active_index(), 0);
}

#[test]
fn new_tabs_get_unused_ids() {
    let (mut set, first) = TabSet::new();
    let (t1, p1) = set.create_tab();
    let (t2, p2) = set.create_tab();
    assert_ne!(t1, TabId(0));
    assert_ne!(t1, t2);
    assert_ne!(p1, first);
    assert_ne!(p1, p2);
    let ids: Vec<TabId> = set.tabs().iter().map(|t| t.id).collect();
    assert_eq!(ids, vec![TabId(0), t1, t2]);
}
