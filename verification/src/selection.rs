//! Mouse text selection over a pane's cell grid: an anchor and an extent,
//! word and line selection, and the highlighted runs to draw.

use vstd::prelude::*;
use crate::pane_tree::PaneId;
use crate::text::{is_ws, is_whitespace};

verus! {

/// A cell position in a pane's grid.
#[derive(Debug, Clone, Copy, PartialEq, Eq, Structural)]
pub struct CellCoord {
    pub row: usize,
    pub col: usize,
}

/// A highlighted run of `len` cells starting at (`row`, `col`).
#[derive(Debug, Clone, Copy, PartialEq, Eq, Structural)]
pub struct HighlightCell {
    pub row: usize,
    pub col: usize,
    pub len: usize,
}

/// Selection state: active when `pane` is set; `dragging` while the mouse
/// button is held.
pub struct SelectionState {
    pub pane: Option<PaneId>,
    pub anchor: CellCoord,
    pub extent: CellCoord,
    pub dragging: bool,
}

/// `a` comes no later than `b` in reading order (row, then column).
pub open spec fn coord_le(a: CellCoord, b: CellCoord) -> bool {
    a.row < b.row || (a.row == b.row && a.col <= b.col)
}

/// `total_cols - 1`, or `0` for an empty row.
pub open spec fn last_col(total_cols: usize) -> int {
    if total_cols == 0 {
        0
    } else {
        total_cols - 1
    }
}

/// The run highlighted on `row` between `s` and `e` (none when the run is
/// empty).
pub open spec fn row_run(s: CellCoord, e: CellCoord, total_cols: usize, row: int) -> Seq<
    HighlightCell,
> {
    let cs: int = if row == s.row {
        s.col as int
    } else {
        0
    };
    let ce: int = if row == e.row {
        e.col as int
    } else {
        last_col(total_cols)
    };
    if ce >= cs {
        seq![HighlightCell { row: row as usize, col: cs as usize, len: (ce - cs + 1) as usize }]
    } else {
        seq![]
    }
}

/// The runs of rows `s.row .. n`, top to bottom.
pub open spec fn runs_upto(s: CellCoord, e: CellCoord, total_cols: usize, n: int) -> Seq<
    HighlightCell,
>
    decreases n - s.row,
{
    if n <= s.row {
        seq![]
    } else {
        runs_upto(s, e, total_cols, n - 1) + row_run(s, e, total_cols, n - 1)
    }
}

/// A cell that ends a word: white space or the empty cell `'\0'`.
pub open spec fn is_word_break(c: char) -> bool {
    is_ws(c) || c == '\0'
}

/// Some call of `char_at` at (`row`, `col`) gave a word break.
pub open spec fn breaks_at<F: Fn(usize, usize) -> char>(char_at: F, row: usize, col: usize) -> bool {
    exists|c: char| #[trigger] call_ensures(char_at, (row, col), c) && is_word_break(c)
}

/// Some call of `char_at` at (`row`, `col`) gave a word character.
pub open spec fn word_at<F: Fn(usize, usize) -> char>(char_at: F, row: usize, col: usize) -> bool {
    exists|c: char| #[trigger] call_ensures(char_at, (row, col), c) && !is_word_break(c)
}

impl Default for SelectionState {
    fn default() -> (r: Self)
        ensures
            r.pane is None,
            r.anchor == (CellCoord { row: 0, col: 0 }),
            r.extent == (CellCoord { row: 0, col: 0 }),
            !r.dragging,
    {
        SelectionState {
            pane: None,
            anchor: CellCoord { row: 0, col: 0 },
            extent: CellCoord { row: 0, col: 0 },
            dragging: false,
        }
    }
}

impl SelectionState {
    /// The selection's endpoints in reading order.
    pub open spec fn ordered_spec(&self) -> (CellCoord, CellCoord) {
        if coord_le(self.anchor, self.extent) {
            (self.anchor, self.extent)
        } else {
            (self.extent, self.anchor)
        }
    }

    /// The highlighted runs: none when inactive, else one per row from the
    /// start row to the end row, each non-empty.
    pub open spec fn highlights_spec(&self, total_cols: usize) -> Seq<HighlightCell> {
        if self.pane is None {
            seq![]
        } else {
            let (s, e) = self.ordered_spec();
            runs_upto(s, e, total_cols, e.row + 1)
        }
    }

    /// A run length fits in `usize`: the only run that could not is one
    /// that starts at column 0 of the end row and ends at column `usize::MAX`.
    pub open spec fn runs_fit(&self) -> bool {
        let (s, e) = self.ordered_spec();
        !(e.col == usize::MAX && (s.row < e.row || s.col == 0))
    }

    /// Whether a selection is shown.
    pub fn is_active(&self) -> (r: bool)
        ensures
            r == self.pane is Some,
    {
        self.pane.is_some()
    }

    /// Drops the selection.
    pub fn clear(&mut self)
        ensures
            final(self).pane is None,
            !final(self).dragging,
            final(self).anchor == old(self).anchor,
            final(self).extent == old(self).extent,
    {
        self.pane = None;
        self.dragging = false;
    }

    /// The endpoints in reading order.
    pub fn ordered(&self) -> (r: (CellCoord, CellCoord))
        ensures
            r == self.ordered_spec(),
            coord_le(r.0, r.1),
    {
        if self.anchor.row < self.extent.row || (self.anchor.row == self.extent.row
            && self.anchor.col <= self.extent.col) {
            (self.anchor, self.extent)
        } else {
            (self.extent, self.anchor)
        }
    }

    /// The runs to highlight for a grid `total_cols` wide.
    pub fn to_highlights(&self, total_cols: usize) -> (r: Vec<HighlightCell>)
        requires
            self.runs_fit(),
        ensures
            r@ == self.highlights_spec(total_cols),
    {
        if !self.is_active() {
            return Vec::new();
        }
        let (start, end) = self.ordered();
        let last: usize = if total_cols == 0 {
            0
        } else {
            total_cols - 1
        };
        let mut out: Vec<HighlightCell> = Vec::new();
        let mut row: usize = start.row;
        loop
            invariant_except_break
                start.row <= row <= end.row,
                coord_le(start, end),
                !(end.col == usize::MAX && (start.row < end.row || start.col == 0)),
                last == last_col(total_cols),
                out@ == runs_upto(start, end, total_cols, row as int),
            ensures
                out@ == runs_upto(start, end, total_cols, end.row + 1),
            decreases end.row - row,
        {
            let col_start: usize = if row == start.row {
                start.col
            } else {
                0
            };
            let col_end: usize = if row == end.row {
                end.col
            } else {
                last
            };
            if col_end >= col_start {
                out.push(HighlightCell { row, col: col_start, len: col_end - col_start + 1 });
            }
            proof {
                assert(out@ =~= runs_upto(start, end, total_cols, row + 1));
            }
            if row == end.row {
                break;
            }
            row = row + 1;
        }
        out
    }

    /// Starts a drag selection at `coord` in `pane`.
    pub fn start(&mut self, pane: PaneId, coord: CellCoord)
        ensures
            final(self).pane == Some(pane),
            final(self).anchor == coord,
            final(self).extent == coord,
            final(self).dragging,
    {
        self.pane = Some(pane);
        self.anchor = coord;
        self.extent = coord;
        self.dragging = true;
    }

    /// Moves the extent to `coord` while dragging; otherwise does nothing.
    pub fn extend(&mut self, coord: CellCoord)
        ensures
            old(self).dragging ==> final(self).extent == coord,
            !old(self).dragging ==> final(self).extent == old(self).extent,
            final(self).pane == old(self).pane,
            final(self).anchor == old(self).anchor,
            final(self).dragging == old(self).dragging,
    {
        if self.dragging {
            self.extent = coord;
        }
    }

    /// Ends the drag, keeping the selection.
    pub fn finalize(&mut self)
        ensures
            !final(self).dragging,
            final(self).pane == old(self).pane,
            final(self).anchor == old(self).anchor,
            final(self).extent == old(self).extent,
    {
        self.dragging = false;
    }

    /// Selects the word under `coord` on its row, reading cells through
    /// `char_at(row, col)`: the widest run of word characters around
    /// `coord` within `0 .. total_cols`. On a word break only that cell is
    /// selected.
    pub fn select_word<F>(&mut self, pane: PaneId, coord: CellCoord, total_cols: usize, char_at: F)
        where
            F: Fn(usize, usize) -> char,
        requires
            // only cells of the clicked row are read
            forall|c: usize| call_requires(char_at, (coord.row, c)),
            // a word character in the last addressable column has no right neighbour
            coord.col == usize::MAX ==> forall|c: char|
                call_ensures(char_at, (coord.row, coord.col), c) ==> is_word_break(c),
        ensures
            final(self).pane == Some(pane),
            !final(self).dragging,
            final(self).anchor.row == coord.row,
            final(self).extent.row == coord.row,
            // a break under the cursor selects that cell alone
            breaks_at(char_at, coord.row, coord.col) && final(self).anchor == coord
                && final(self).extent == coord || ({
                let (left, right) = (final(self).anchor.col, final(self).extent.col);
                &&& word_at(char_at, coord.row, coord.col)
                &&& left <= coord.col <= right
                &&& right == coord.col || right < total_cols
                &&& forall|k: usize| left <= k <= right ==> #[trigger] word_at(char_at, coord.row, k)
                &&& left == 0 || breaks_at(char_at, coord.row, (left - 1) as usize)
                &&& right + 1 >= total_cols || breaks_at(char_at, coord.row, (right + 1) as usize)
            }),
    {
        let row = coord.row;
        let c = char_at(row, coord.col);
        if is_whitespace(c) || c == '\0' {
            self.pane = Some(pane);
            self.anchor = coord;
            self.extent = coord;
            self.dragging = false;
            return;
        }
        assert(word_at(char_at, row, coord.col));
        let mut left: usize = coord.col;
        loop
            invariant_except_break
                left <= coord.col,
                forall|k: usize| left <= k <= coord.col ==> #[trigger] word_at(char_at, row, k),
                forall|c: usize| call_requires(char_at, (row, c)),
            ensures
                left <= coord.col,
                forall|k: usize| left <= k <= coord.col ==> #[trigger] word_at(char_at, row, k),
                left == 0 || breaks_at(char_at, row, (left - 1) as usize),
            decreases left,
        {
            if left == 0 {
                break;
            }
            let prev = char_at(row, left - 1);
            if is_whitespace(prev) || prev == '\0' {
                assert(breaks_at(char_at, row, (left - 1) as usize));
                break;
            }
            assert(word_at(char_at, row, (left - 1) as usize));
            left = left - 1;
        }
        let mut right: usize = coord.col;
        loop
            invariant_except_break
                coord.col <= right < usize::MAX,
                right == coord.col || right < total_cols,
                forall|k: usize| coord.col <= k <= right ==> #[trigger] word_at(char_at, row, k),
                forall|c: usize| call_requires(char_at, (row, c)),
            ensures
                coord.col <= right,
                right == coord.col || right < total_cols,
                forall|k: usize| coord.col <= k <= right ==> #[trigger] word_at(char_at, row, k),
                right + 1 >= total_cols || breaks_at(char_at, row, (right + 1) as usize),
            decreases total_cols - right,
        {
            if right + 1 >= total_cols {
                break;
            }
            let next = char_at(row, right + 1);
            if is_whitespace(next) || next == '\0' {
                assert(breaks_at(char_at, row, (right + 1) as usize));
                break;
            }
            assert(word_at(char_at, row, (right + 1) as usize));
            right = right + 1;
        }
        self.pane = Some(pane);
        self.anchor = CellCoord { row, col: left };
        self.extent = CellCoord { row, col: right };
        self.dragging = false;
    }

    /// Selects the whole of `row`.
    pub fn select_line(&mut self, pane: PaneId, row: usize, total_cols: usize)
        ensures
            final(self).pane == Some(pane),
            final(self).anchor == (CellCoord { row, col: 0 }),
            final(self).extent == (CellCoord { row, col: last_col(total_cols) as usize }),
            !final(self).dragging,
    {
        self.pane = Some(pane);
        self.anchor = CellCoord { row, col: 0 };
        self.extent = CellCoord { row, col: total_cols.saturating_sub(1) };
        self.dragging = false;
    }
}

} // verus!
