use zm_mux::pane_tree::PaneId;
use zm_mux::selection::{CellCoord, SelectionState};

#[test]
fn start_and_extend() {
    let mut sel = SelectionState::default();
    assert!(!sel.is_active());
    sel.start(PaneId(0), CellCoord { row: 0, col: 5 });
    assert!(sel.is_active());
    assert!(sel.dragging);
    sel.extend(CellCoord { row: 2, col: 10 });
    sel.finalize();
    assert!(!sel.dragging);
    let (start, end) = sel.ordered();
    assert_eq!(start, CellCoord { row: 0, col: 5 });
    assert_eq!(end, CellCoord { row: 2, col: 10 });
}

#[test]
fn reverse_selection_normalizes() {
    let mut sel = SelectionState::default();
    sel.start(PaneId(0), CellCoord { row: 5, col: 10 });
    sel.extend(CellCoord { row: 2, col: 3 });
    let (start, end) = sel.ordered();
    assert_eq!(start, CellCoord { row: 2, col: 3 });
    assert_eq!(end, CellCoord { row: 5, col: 10 });
}

#[test]
fn to_highlights_single_row() {
    let mut sel = SelectionState::default();
    sel.start(PaneId(0), CellCoord { row: 3, col: 2 });
    sel.extend(CellCoord { row: 3, col: 8 });
    let hl = sel.to_highlights(80);
    assert_eq!(hl.len(), 1);
    assert_eq!(hl[0].row, 3);
    assert_eq!(hl[0].col, 2);
    assert_eq!(hl[0].len, 7);
}

#[test]
fn to_highlights_multi_row() {
    let mut sel = SelectionState::default();
    sel.start(PaneId(0), CellCoord { row: 1, col: 5 });
    sel.extend(CellCoord { row: 3, col: 10 });
    let hl = sel.to_highlights(80);
    assert_eq!(hl.len(), 3);
    assert_eq!(hl[0].col, 5);
    assert_eq!(hl[1].col, 0);
    assert_eq!(hl[2].col, 0);
    assert_eq!(hl[2].len, 11);
}

#[test]
fn clear_deactivates() {
    let mut sel = SelectionState::default();
    sel.start(PaneId(0), CellCoord { row: 0, col: 0 });
    sel.clear();
    assert!(!sel.is_active());
}

#[test]
fn select_word_finds_boundaries() {
    let mut sel = SelectionState::default();
    let text = "hello world test";
    let chars: Vec<char> = text.chars().collect();
    sel.select_word(
        PaneId(0),
        CellCoord { row: 0, col: 7 },
        text.len(),
        |_, c| chars.get(c).copied().unwrap_or(' '),
    );
    let (start, end) = sel.ordered();
    assert_eq!(start.col, 6);
    assert_eq!(end.col, 10);
}

#[test]
fn select_line_full_width() {
    let mut sel = SelectionState::default();
    sel.select_line(PaneId(0), 5, 80);
    let (start, end) = sel.ordered();
    assert_eq!(start, CellCoord { row: 5, col: 0 });
    assert_eq!(end, CellCoord { row: 5, col: 79 });
}

#[test]
fn select_word_on_space_selects_one_cell() {
    let mut sel = SelectionState::default();
    let chars: Vec<char> = "ab cd".chars().collect();
    sel.select_word(PaneId(1), CellCoord { row: 2, col: 2 }, 5, |_, c| {
        chars.get(c).copied().unwrap_or('\0')
    });
    assert_eq!(sel.ordered(), (CellCoord { row: 2, col: 2 }, CellCoord { row: 2, col: 2 }));
    assert!(!sel.dragging);
    assert_eq!(sel.pane, Some(PaneId(1)));
}

#[test]
fn extend_without_drag_is_ignored_and_inactive_has_no_highlights() {
    let mut sel = SelectionState::default();
    sel.extend(CellCoord { row: 4, col: 4 });
    assert_eq!(sel.extent, CellCoord { row: 0, col: 0 });
    assert!(sel.to_highlights(80).is_empty());
    sel.select_line(PaneId(0), 1, 0);
    let hl = sel.to_highlights(0);
    assert_eq!(hl.len(), 1);
    assert_eq!((hl[0].row, hl[0].col, hl[0].len), (1, 0, 1));
}
