//! What a pane's terminal model hands back besides the grid: the bytes it
//! answers to the program (cursor position reports and the like) and the
//! window title it was given; and the screen as plain text.

use vstd::prelude::*;
use vstd::string::StringSliceAdditionalSpecFns;
use vstd::utf8::encode_utf8;
use crate::text::{join_from, join_with, string_from_chars, string_views, trim_end_chars, trim_end_seq};

verus! {

/// An event of the terminal model.
#[derive(Debug, Clone)]
pub enum TermEvent {
    /// Bytes to write back to the program.
    PtyWrite(String),
    /// The window title was set.
    Title(String),
    /// The window title was reset.
    ResetTitle,
    /// Anything else (bell, clipboard, ...), ignored.
    Other,
}

/// Collects the answers the terminal model writes back and the title it
/// was given.
#[derive(Debug, Clone)]
pub struct WriteCollector {
    writes: Vec<u8>,
    title: Option<String>,
}

impl WriteCollector {
    /// The bytes not yet taken.
    pub closed spec fn writes_spec(&self) -> Seq<u8> {
        self.writes@
    }

    /// The current title.
    pub closed spec fn title_spec(&self) -> Option<Seq<char>> {
        match self.title {
            Some(t) => Some(t@),
            None => None,
        }
    }

    /// Nothing collected, no title.
    pub fn new() -> (r: Self)
        ensures
            r.writes_spec().len() == 0,
            r.title_spec() is None,
    {
        WriteCollector { writes: Vec::new(), title: None }
    }

    /// Records an event: written answers are appended (as UTF-8), the title
    /// is set or reset, other events are ignored.
    pub fn send_event(&mut self, event: TermEvent)
        ensures
            match event {
                TermEvent::PtyWrite(t) => final(self).writes_spec() == old(self).writes_spec()
                    + encode_utf8(t@) && final(self).title_spec() == old(self).title_spec(),
                TermEvent::Title(t) => final(self).title_spec() == Some(t@) && final(self).writes_spec()
                    == old(self).writes_spec(),
                TermEvent::ResetTitle => final(self).title_spec() is None && final(self).writes_spec()
                    == old(self).writes_spec(),
                TermEvent::Other => *final(self) == *old(self),
            },
    {
        match event {
            TermEvent::PtyWrite(text) => {
                let bytes = text.as_str().as_bytes();
                let ghost before = self.writes@;
                let mut i: usize = 0;
                while i < bytes.len()
                    invariant
                        i <= bytes@.len(),
                        self.writes@ == before + bytes@.take(i as int),
                        self.title == old(self).title,
                    decreases bytes@.len() - i,
                {
                    self.writes.push(bytes[i]);
                    proof {
                        assert(bytes@.take(i + 1) == bytes@.take(i as int).push(bytes@[i as int]));
                    }
                    i = i + 1;
                }
                proof {
                    assert(bytes@.take(i as int) =~= bytes@);
                }
            },
            TermEvent::Title(t) => {
                self.title = Some(t);
            },
            TermEvent::ResetTitle => {
                self.title = None;
            },
            TermEvent::Other => {},
        }
    }

    /// Hands out the collected bytes and empties the collection.
    pub fn take(&mut self) -> (r: Vec<u8>)
        ensures
            r@ == old(self).writes_spec(),
            final(self).writes_spec().len() == 0,
            final(self).title_spec() == old(self).title_spec(),
    {
        let mut out: Vec<u8> = Vec::new();
        std::mem::swap(&mut out, &mut self.writes);
        out
    }

    /// The current title.
    pub fn title(&self) -> (r: Option<String>)
        ensures
            match r {
                Some(t) => self.title_spec() == Some(t@),
                None => self.title_spec() is None,
            },
    {
        match &self.title {
            Some(t) => Some(t.clone()),
            None => None,
        }
    }
}

/// The character shown at (`row`, `col`) once the cells are placed in
/// order: the last one placed there (an empty cell shows as a space), or a
/// space.
pub open spec fn shown_at(cells: Seq<(i32, usize, char)>, row: int, col: int) -> char
    decreases cells.len(),
{
    if cells.len() == 0 {
        ' '
    } else {
        let (l, k, ch) = cells.last();
        if l == row && k == col {
            if ch == '\0' {
                ' '
            } else {
                ch
            }
        } else {
            shown_at(cells.drop_last(), row, col)
        }
    }
}

/// Row `row` of the screen, `cols` wide.
pub open spec fn screen_row(cells: Seq<(i32, usize, char)>, cols: nat, row: int) -> Seq<char> {
    Seq::new(cols, |c: int| shown_at(cells, row, c))
}

/// The screen as text: each of its `rows` rows without trailing white
/// space, joined by newlines.
pub open spec fn capture_spec(cells: Seq<(i32, usize, char)>, cols: nat, rows: nat) -> Seq<char> {
    join_with(Seq::new(rows, |r: int| trim_end_seq(screen_row(cells, cols, r))), "\n"@)
}

/// The screen as text, from the cells of the terminal model given as
/// (screen row, column, character); cells off the `cols` x `rows` screen
/// are left out.
pub fn capture_text(cells: &[(i32, usize, char)], cols: usize, rows: usize) -> (r: String)
    ensures
        r@ == capture_spec(cells@, cols as nat, rows as nat),
{
    let mut grid: Vec<Vec<char>> = Vec::new();
    let mut r: usize = 0;
    while r < rows
        invariant
            r <= rows,
            grid@.len() == r,
            forall|j: int| 0 <= j < r ==> (#[trigger] grid@[j])@ == Seq::new(cols as nat, |c: int| ' '),
        decreases rows - r,
    {
        grid.push(crate::text::repeat_char(' ', cols));
        r = r + 1;
    }
    let mut i: usize = 0;
    proof {
        assert forall|j: int| 0 <= j < rows implies (#[trigger] grid@[j])@ == screen_row(
            cells@.take(0),
            cols as nat,
            j,
        ) by {
            assert(grid@[j]@ =~= screen_row(cells@.take(0), cols as nat, j));
        }
    }
    while i < cells.len()
        invariant
            i <= cells@.len(),
            grid@.len() == rows,
            forall|j: int| 0 <= j < rows ==> (#[trigger] grid@[j])@ == screen_row(
                cells@.take(i as int),
                cols as nat,
                j,
            ),
        decreases cells@.len() - i,
    {
        let (line, col, c) = cells[i];
        let ghost t = cells@.take(i + 1);
        proof {
            assert(t.drop_last() =~= cells@.take(i as int));
            assert(t.last() == cells@[i as int]);
        }
        if line >= 0 && (line as usize) < rows && col < cols {
            let l = line as usize;
            let shown = if c == '\0' {
                ' '
            } else {
                c
            };
            let mut row: Vec<char> = Vec::new();
            std::mem::swap(&mut row, &mut grid[l]);
            row.set(col, shown);
            let ghost g0 = grid@;
            grid.set(l, row);
            proof {
                assert forall|j: int| 0 <= j < rows implies (#[trigger] grid@[j])@ == screen_row(
                    t,
                    cols as nat,
                    j,
                ) by {
                    assert(grid@[j]@ =~= screen_row(t, cols as nat, j));
                }
            }
        } else {
            proof {
                assert forall|j: int| 0 <= j < rows implies (#[trigger] grid@[j])@ == screen_row(
                    t,
                    cols as nat,
                    j,
                ) by {
                    assert(grid@[j]@ =~= screen_row(t, cols as nat, j));
                }
            }
        }
        i = i + 1;
    }
    proof {
        assert(cells@.take(i as int) =~= cells@);
    }
    let mut lines: Vec<String> = Vec::new();
    let mut k: usize = 0;
    while k < rows
        invariant
            k <= rows,
            grid@.len() == rows,
            forall|j: int| 0 <= j < rows ==> (#[trigger] grid@[j])@ == screen_row(cells@, cols as nat, j),
            string_views(lines@) == Seq::new(k as nat, |j: int| trim_end_seq(screen_row(cells@, cols as nat, j))),
        decreases rows - k,
    {
        assert(grid@[k as int]@ == screen_row(cells@, cols as nat, k as int));
        let ghost before = string_views(lines@);
        let t = trim_end_chars(grid[k].as_slice());
        let s = string_from_chars(t.as_slice());
        lines.push(s);
        proof {
            assert(string_views(lines@) =~= before.push(s@));
            assert(string_views(lines@) =~= Seq::new((k + 1) as nat, |j: int| trim_end_seq(screen_row(cells@, cols as nat, j))));
        }
        k = k + 1;
    }
    proof {
        assert(string_views(lines@).skip(0) =~= string_views(lines@));
    }
    join_from(lines.as_slice(), 0, "\n")
}

} // verus!
