use zm_mux::mux::{CloseResult, Mux, Orientation};

#[test]
fn new_has_one_pane() {
    let (mux, first) = Mux::new();
    assert_eq!(first, 1);
    assert_eq!(mux.active_pane(), 1);
    assert_eq!(mux.active_tab_panes(), vec![1]);
}

#[test]
fn close_collapses_split() {
    let (mut mux, _) = Mux::new();
    mux.split_active(Orientation::TopBottom);
    let r = mux.close_active();
    assert_eq!(r, CloseResult::Pane(2));
    assert_eq!(mux.active_pane(), 1);
    assert_eq!(mux.active_tab_panes(), vec![1]);
}

#[test]
fn close_last_pane_signals_exit() {
    let (mut mux, _) = Mux::new();
    let r = mux.close_active();
    assert_eq!(r, CloseResult::LastPane(1));
}

#[test]
fn tabs_and_focus() {
    let (mut mux, _) = Mux::new();
    mux.split_active(Orientation::LeftRight);
    let p3 = mux.new_tab();
    assert_eq!(p3, 3);
    assert_eq!(mux.tab_count(), 2);
    assert_eq!(mux.active_pane(), 3);
    mux.prev_tab();
    assert_eq!(mux.active_tab_index(), 0);
    assert_eq!(mux.active_pane(), 2);
    mux.focus_next();
    assert_eq!(mux.active_pane(), 1);
    mux.focus_next();
    assert_eq!(mux.active_pane(), 2);
    let mut all = mux.all_panes();
    all.sort();
    assert_eq!(all, vec![1, 2, 3]);
}

#[test]
fn split_focuses_new_pane_in_order() {
    let (mut mux, _) = Mux::new();
    let p2 = mux.split_active(Orientation::LeftRight);
    assert_eq!(p2, 2);
    assert_eq!(mux.active_pane(), 2);
    assert_eq!(mux.active_tab_panes(), vec![1, 2]);
}

#[test]
fn zoom_toggles_back() {
    let (mut mux, _) = Mux::new();
    mux.split_active(Orientation::LeftRight);
    mux.toggle_zoom();
    assert!(mux.is_zoomed());
    assert_eq!(mux.zoomed_pane(), Some(2));
    mux.toggle_zoom();
    assert!(!mux.is_zoomed());
}

#[test]
fn closing_only_pane_of_a_tab_closes_the_tab() {
    let (mut mux, _) = Mux::new();
    let p2 = mux.new_tab();
    assert_eq!(mux.close_pane(p2), CloseResult::Tab(p2));
    assert_eq!(mux.tab_count(), 1);
    assert_eq!(mux.active_pane(), 1);
}

#[test]
fn next_then_prev_tab_returns() {
    let (mut mux, _) = Mux::new();
    mux.new_tab();
    mux.new_tab();
    let before = mux.active_tab_index();
    mux.next_tab();
    assert_eq!(mux.active_tab_index(), 0);
    mux.prev_tab();
    assert_eq!(mux.active_tab_index(), before);
}
