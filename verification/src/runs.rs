//! How a row of cells is drawn in few pieces: the text of a row in spans of
//! one style (foreground, bold, italic), and the backgrounds that differ
//! from the pane's in runs of one colour.

use vstd::prelude::*;
use crate::types::{RenderCell, Rgba};

verus! {

/// Two cells whose text is drawn alike.
pub open spec fn same_style(a: RenderCell, b: RenderCell) -> bool {
    a.fg == b.fg && a.bold == b.bold && a.italic == b.italic
}

/// `spans` cut `0 .. cells.len()` into consecutive non-empty pieces, each
/// of one style, and no two neighbours of the same style.
pub open spec fn style_spans(cells: Seq<RenderCell>, spans: Seq<(usize, usize)>) -> bool {
    &&& (cells.len() == 0 <==> spans.len() == 0)
    &&& spans.len() > 0 ==> spans[0].0 == 0 && spans.last().1 == cells.len()
    &&& forall|i: int| 0 <= i < spans.len() ==> #[trigger] spans[i].0 < spans[i].1
    &&& forall|i: int| 0 <= i < spans.len() - 1 ==> #[trigger] spans[i].1 == spans[i + 1].0
    &&& forall|i: int, k: int|
        0 <= i < spans.len() && spans[i].0 <= k < spans[i].1 ==> same_style(
            #[trigger] cells[k],
            #[trigger] cells[spans[i].0 as int],
        )
    &&& forall|i: int| 0 <= i < spans.len() - 1 ==> !same_style(
        cells[#[trigger] spans[i].1 - 1],
        cells[spans[i].1 as int],
    )
}

/// The spans of one style in a row of cells.
pub fn text_spans(cells: &[RenderCell]) -> (r: Vec<(usize, usize)>)
    ensures
        style_spans(cells@, r@),
{
    let mut r: Vec<(usize, usize)> = Vec::new();
    let n = cells.len();
    let mut i: usize = 0;
    while i < n
        invariant
            i <= n == cells@.len(),
            i == 0 <==> r@.len() == 0,
            r@.len() > 0 ==> r@[0].0 == 0 && r@.last().1 == i,
            forall|j: int| 0 <= j < r@.len() ==> #[trigger] r@[j].0 < r@[j].1,
            forall|j: int| 0 <= j < r@.len() - 1 ==> #[trigger] r@[j].1 == r@[j + 1].0,
            forall|j: int, k: int|
                0 <= j < r@.len() && r@[j].0 <= k < r@[j].1 ==> same_style(
                    #[trigger] cells@[k],
                    #[trigger] cells@[r@[j].0 as int],
                ),
            forall|j: int| 0 <= j < r@.len() - 1 ==> !same_style(
                cells@[#[trigger] r@[j].1 - 1],
                cells@[r@[j].1 as int],
            ),
            i < n && r@.len() > 0 ==> !same_style(cells@[i - 1], cells@[i as int]),
        decreases n - i,
    {
        let start = i;
        let c0 = cells[start];
        let mut e = start + 1;
        while e < n && cells[e].fg == c0.fg && cells[e].bold == c0.bold && cells[e].italic == c0.italic
            invariant
                start < e <= n == cells@.len(),
                c0 == cells@[start as int],
                forall|k: int| start <= k < e ==> same_style(#[trigger] cells@[k], c0),
            decreases n - e,
        {
            e = e + 1;
        }
        let ghost old_r = r@;
        r.push((start, e));
        proof {
            assert(r@.last() == (start, e));
            assert forall|j: int| 0 <= j < r@.len() - 1 implies #[trigger] r@[j].1 == r@[j + 1].0 by {
                if j < old_r.len() - 1 {
                    assert(r@[j] == old_r[j] && r@[j + 1] == old_r[j + 1]);
                } else {
                    assert(r@[j] == old_r.last());
                }
            }
            assert forall|j: int, k: int|
                0 <= j < r@.len() && r@[j].0 <= k < r@[j].1 implies same_style(
                    #[trigger] cells@[k],
                    #[trigger] cells@[r@[j].0 as int],
                ) by {
                if j < old_r.len() {
                    assert(r@[j] == old_r[j]);
                }
            }
            assert forall|j: int| 0 <= j < r@.len() - 1 implies !same_style(
                cells@[#[trigger] r@[j].1 - 1],
                cells@[r@[j].1 as int],
            ) by {
                if j < old_r.len() - 1 {
                    assert(r@[j] == old_r[j]);
                } else {
                    assert(r@[j] == old_r.last());
                }
            }
            if e < n {
                assert(same_style(cells@[e - 1], c0));
            }
        }
        i = e;
    }
    r
}

/// `runs` are the runs of one background colour other than `base` in a row
/// of cells, left to right: every such cell lies in one, and each run is as
/// long as its colour lasts.
pub open spec fn bg_runs_of(cells: Seq<RenderCell>, base: Rgba, runs: Seq<(usize, usize)>) -> bool {
    &&& forall|i: int| 0 <= i < runs.len() ==> (#[trigger] runs[i]).0 < runs[i].1 <= cells.len()
    &&& forall|i: int| 0 <= i < runs.len() - 1 ==> #[trigger] runs[i].1 <= runs[i + 1].0
    &&& forall|i: int| 0 <= i < runs.len() ==> cells[(#[trigger] runs[i]).0 as int].bg != base
    &&& forall|i: int, k: int|
        0 <= i < runs.len() && runs[i].0 <= k < runs[i].1 ==> (#[trigger] cells[k]).bg == cells[(
        #[trigger] runs[i]).0 as int].bg
    &&& forall|i: int|
        0 <= i < runs.len() ==> (#[trigger] runs[i]).0 == 0 || cells[runs[i].0 - 1].bg != cells[runs[i].0 as int].bg
    &&& forall|i: int|
        0 <= i < runs.len() ==> (#[trigger] runs[i]).1 == cells.len() || cells[runs[i].1 as int].bg
            != cells[runs[i].0 as int].bg
    &&& forall|k: int|
        0 <= k < cells.len() && (#[trigger] cells[k]).bg != base ==> exists|i: int|
            0 <= i < runs.len() && (#[trigger] runs[i]).0 <= k < runs[i].1
}

/// The background runs to draw over a pane of background `base`.
pub fn background_runs(cells: &[RenderCell], base: Rgba) -> (r: Vec<(usize, usize)>)
    ensures
        bg_runs_of(cells@, base, r@),
{
    let mut r: Vec<(usize, usize)> = Vec::new();
    let n = cells.len();
    let mut i: usize = 0;
    while i < n
        invariant
            i <= n == cells@.len(),
            forall|j: int| 0 <= j < r@.len() ==> (#[trigger] r@[j]).0 < r@[j].1 <= i,
            forall|j: int| 0 <= j < r@.len() - 1 ==> #[trigger] r@[j].1 <= r@[j + 1].0,
            forall|j: int| 0 <= j < r@.len() ==> cells@[(#[trigger] r@[j]).0 as int].bg != base,
            forall|j: int, k: int|
                0 <= j < r@.len() && r@[j].0 <= k < r@[j].1 ==> (#[trigger] cells@[k]).bg == cells@[(
                #[trigger] r@[j]).0 as int].bg,
            forall|j: int|
                0 <= j < r@.len() ==> (#[trigger] r@[j]).0 == 0 || cells@[r@[j].0 - 1].bg
                    != cells@[r@[j].0 as int].bg,
            forall|j: int|
                0 <= j < r@.len() ==> (#[trigger] r@[j]).1 == n || cells@[r@[j].1 as int].bg
                    != cells@[r@[j].0 as int].bg,
            forall|k: int|
                0 <= k < i && (#[trigger] cells@[k]).bg != base ==> exists|j: int|
                    0 <= j < r@.len() && (#[trigger] r@[j]).0 <= k < r@[j].1,
            // a run never stops in the middle of its colour
            0 < i < n && cells@[i as int].bg != base ==> cells@[i - 1].bg != cells@[i as int].bg,
        decreases n - i,
    {
        let bg = cells[i].bg;
        if bg == base {
            proof {
                if i + 1 < n && cells@[i + 1].bg != base {
                    assert(cells@[i as int].bg != cells@[i + 1].bg);
                }
            }
            i = i + 1;
        } else {
            let start = i;
            let mut e = start + 1;
            while e < n && cells[e].bg == bg
                invariant
                    start < e <= n == cells@.len(),
                    bg == cells@[start as int].bg,
                    forall|k: int| start <= k < e ==> (#[trigger] cells@[k]).bg == bg,
                decreases n - e,
            {
                e = e + 1;
            }
            let ghost old_r = r@;
            r.push((start, e));
            proof {
                let nr = r@;
                assert(nr.last() == (start, e));
                assert forall|j: int| 0 <= j < nr.len() implies (#[trigger] nr[j]).0 < nr[j].1 <= e by {
                    if j < old_r.len() {
                        assert(nr[j] == old_r[j]);
                    }
                }
                assert forall|j: int| 0 <= j < nr.len() - 1 implies #[trigger] nr[j].1 <= nr[j + 1].0 by {
                    if j < old_r.len() - 1 {
                        assert(nr[j] == old_r[j] && nr[j + 1] == old_r[j + 1]);
                    } else {
                        assert(nr[j] == old_r[j]);
                    }
                }
                assert forall|j: int| 0 <= j < nr.len() implies cells@[(#[trigger] nr[j]).0 as int].bg != base by {
                    if j < old_r.len() {
                        assert(nr[j] == old_r[j]);
                    }
                }
                assert forall|j: int, k: int|
                    0 <= j < nr.len() && nr[j].0 <= k < nr[j].1 implies (#[trigger] cells@[k]).bg == cells@[(
                    #[trigger] nr[j]).0 as int].bg by {
                    if j < old_r.len() {
                        assert(nr[j] == old_r[j]);
                    }
                }
                assert forall|j: int|
                    0 <= j < nr.len() implies (#[trigger] nr[j]).0 == 0 || cells@[nr[j].0 - 1].bg
                        != cells@[nr[j].0 as int].bg by {
                    if j < old_r.len() {
                        assert(nr[j] == old_r[j]);
                    }
                }
                assert forall|j: int|
                    0 <= j < nr.len() implies (#[trigger] nr[j]).1 == n || cells@[nr[j].1 as int].bg
                        != cells@[nr[j].0 as int].bg by {
                    if j < old_r.len() {
                        assert(nr[j] == old_r[j]);
                    }
                }
                assert forall|k: int|
                    0 <= k < e && (#[trigger] cells@[k]).bg != base implies exists|j: int|
                        0 <= j < nr.len() && (#[trigger] nr[j]).0 <= k < nr[j].1 by {
                    if k < start {
                        let j = choose|j: int| 0 <= j < old_r.len() && (#[trigger] old_r[j]).0 <= k < old_r[j].1;
                        assert(nr[j] == old_r[j]);
                    } else {
                        assert(nr[nr.len() - 1].0 <= k < nr[nr.len() - 1].1);
                    }
                }
                if e < n && cells@[e as int].bg != base {
                    assert(cells@[e - 1].bg == bg);
                }
            }
            i = e;
        }
    }
    r
}

} // verus!
