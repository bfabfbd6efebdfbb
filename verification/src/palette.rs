//! The terminal's colours: the 256-colour table (16 ANSI colours close to
//! the Campbell scheme, a 6x6x6 cube, a 24-step grey ramp), the configured
//! foreground, background and cursor colours, and how a cell's colours,
//! attributes and the cursor become a rendered frame.

use vstd::prelude::*;
use crate::types::{
    CellSnapshot, ColorConfig, CursorKind, CursorSnapshot, GridSize, RenderCell, Rgba, color_or,
    hex_body, hex_slice_panics,
};

verus! {

/// The named colours of the terminal model.
#[derive(Debug, Clone, Copy, PartialEq, Eq, Structural)]
pub enum NamedColor {
    Black,
    Red,
    Green,
    Yellow,
    Blue,
    Magenta,
    Cyan,
    White,
    BrightBlack,
    BrightRed,
    BrightGreen,
    BrightYellow,
    BrightBlue,
    BrightMagenta,
    BrightCyan,
    BrightWhite,
    Foreground,
    Background,
    Cursor,
    DimBlack,
    DimRed,
    DimGreen,
    DimYellow,
    DimBlue,
    DimMagenta,
    DimCyan,
    DimWhite,
    BrightForeground,
    DimForeground,
}

/// A cell colour as the terminal model gives it.
#[derive(Debug, Clone, Copy, PartialEq, Eq, Structural)]
pub enum TermColor {
    /// A direct colour.
    Spec(u8, u8, u8),
    /// An entry of the 256-colour table.
    Indexed(u8),
    /// A named colour.
    Named(NamedColor),
}

/// The 16 ANSI colours.
pub open spec fn ansi_color(i: int) -> Rgba {
    let (r, g, b): (u8, u8, u8) = if i == 0 {
        (0x0C, 0x0C, 0x0C)
    } else if i == 1 {
        (0xC5, 0x0F, 0x1F)
    } else if i == 2 {
        (0x13, 0xA1, 0x0E)
    } else if i == 3 {
        (0xC1, 0x9C, 0x00)
    } else if i == 4 {
        (0x00, 0x37, 0xDA)
    } else if i == 5 {
        (0x88, 0x17, 0x98)
    } else if i == 6 {
        (0x3A, 0x96, 0xDD)
    } else if i == 7 {
        (0xCC, 0xCC, 0xCC)
    } else if i == 8 {
        (0x76, 0x76, 0x76)
    } else if i == 9 {
        (0xE7, 0x48, 0x56)
    } else if i == 10 {
        (0x16, 0xC6, 0x0C)
    } else if i == 11 {
        (0xF9, 0xF1, 0xA5)
    } else if i == 12 {
        (0x3B, 0x78, 0xFF)
    } else if i == 13 {
        (0xB4, 0x00, 0x9E)
    } else if i == 14 {
        (0x61, 0xD6, 0xD6)
    } else {
        (0xF2, 0xF2, 0xF2)
    };
    Rgba { r, g, b, a: 255 }
}

/// The intensities of the colour cube's six steps.
pub open spec fn cube_step(k: int) -> u8 {
    if k == 0 {
        0
    } else if k == 1 {
        95
    } else if k == 2 {
        135
    } else if k == 3 {
        175
    } else if k == 4 {
        215
    } else {
        255
    }
}

/// Entry `i` of the 256-colour table.
pub open spec fn table_color(i: int) -> Rgba {
    if i < 16 {
        ansi_color(i)
    } else if i < 232 {
        let j = i - 16;
        Rgba { r: cube_step(j / 36), g: cube_step((j / 6) % 6), b: cube_step(j % 6), a: 255 }
    } else {
        let v = (8 + 10 * (i - 232)) as u8;
        Rgba { r: v, g: v, b: v, a: 255 }
    }
}

/// The terminal's palette.
#[derive(Debug, Clone)]
pub struct Palette {
    /// The 256-colour table.
    pub table: Vec<Rgba>,
    pub fg: Rgba,
    pub bg: Rgba,
    pub cursor: Rgba,
}

fn ansi(i: usize) -> (c: Rgba)
    requires
        i < 16,
    ensures
        c == ansi_color(i as int),
{
    let (r, g, b): (u8, u8, u8) = if i == 0 {
        (0x0C, 0x0C, 0x0C)
    } else if i == 1 {
        (0xC5, 0x0F, 0x1F)
    } else if i == 2 {
        (0x13, 0xA1, 0x0E)
    } else if i == 3 {
        (0xC1, 0x9C, 0x00)
    } else if i == 4 {
        (0x00, 0x37, 0xDA)
    } else if i == 5 {
        (0x88, 0x17, 0x98)
    } else if i == 6 {
        (0x3A, 0x96, 0xDD)
    } else if i == 7 {
        (0xCC, 0xCC, 0xCC)
    } else if i == 8 {
        (0x76, 0x76, 0x76)
    } else if i == 9 {
        (0xE7, 0x48, 0x56)
    } else if i == 10 {
        (0x16, 0xC6, 0x0C)
    } else if i == 11 {
        (0xF9, 0xF1, 0xA5)
    } else if i == 12 {
        (0x3B, 0x78, 0xFF)
    } else if i == 13 {
        (0xB4, 0x00, 0x9E)
    } else if i == 14 {
        (0x61, 0xD6, 0xD6)
    } else {
        (0xF2, 0xF2, 0xF2)
    };
    Rgba::rgb(r, g, b)
}

fn step(k: usize) -> (v: u8)
    requires
        k < 6,
    ensures
        v == cube_step(k as int),
{
    if k == 0 {
        0
    } else if k == 1 {
        95
    } else if k == 2 {
        135
    } else if k == 3 {
        175
    } else if k == 4 {
        215
    } else {
        255
    }
}

/// What the palette gives a named colour.
pub open spec fn named_spec(p: Palette, n: NamedColor) -> Rgba {
    match n {
        NamedColor::Black | NamedColor::DimBlack => table_color(0),
        NamedColor::Red | NamedColor::DimRed => table_color(1),
        NamedColor::Green | NamedColor::DimGreen => table_color(2),
        NamedColor::Yellow | NamedColor::DimYellow => table_color(3),
        NamedColor::Blue | NamedColor::DimBlue => table_color(4),
        NamedColor::Magenta | NamedColor::DimMagenta => table_color(5),
        NamedColor::Cyan | NamedColor::DimCyan => table_color(6),
        NamedColor::White | NamedColor::DimWhite => table_color(7),
        NamedColor::BrightBlack => table_color(8),
        NamedColor::BrightRed => table_color(9),
        NamedColor::BrightGreen => table_color(10),
        NamedColor::BrightYellow => table_color(11),
        NamedColor::BrightBlue => table_color(12),
        NamedColor::BrightMagenta => table_color(13),
        NamedColor::BrightCyan => table_color(14),
        NamedColor::BrightWhite => table_color(15),
        NamedColor::Foreground | NamedColor::BrightForeground | NamedColor::DimForeground => p.fg,
        NamedColor::Background => p.bg,
        NamedColor::Cursor => p.cursor,
    }
}

/// The colour a cell colour resolves to, `ov` being the terminal's own
/// setting for that table entry or name, which wins when present.
pub open spec fn resolve_spec(p: Palette, color: TermColor, ov: Option<Rgba>) -> Rgba {
    match color {
        TermColor::Spec(r, g, b) => Rgba { r, g, b, a: 255 },
        TermColor::Indexed(i) => match ov {
            Some(c) => Rgba { r: c.r, g: c.g, b: c.b, a: 255 },
            None => table_color(i as int),
        },
        TermColor::Named(n) => match ov {
            Some(c) => Rgba { r: c.r, g: c.g, b: c.b, a: 255 },
            None => named_spec(p, n),
        },
    }
}

/// Attributes of a cell of the terminal model.
#[derive(Debug, Clone, Copy, PartialEq, Eq, Structural)]
pub struct CellFlags {
    pub bold: bool,
    pub italic: bool,
    pub inverse: bool,
    pub hidden: bool,
    /// The right half of a wide character (drawn by its left half).
    pub wide_spacer: bool,
    /// The padding before a wide character wrapped to the next line.
    pub leading_wide_spacer: bool,
}

/// How a cell is drawn: nothing for the spacers of wide characters; else
/// its colours, swapped when inverse, the foreground made the background
/// when hidden.
pub open spec fn render_spec(c: char, fg: Rgba, bg: Rgba, flags: CellFlags) -> Option<RenderCell> {
    if flags.wide_spacer || flags.leading_wide_spacer {
        None
    } else {
        let (f, b) = if flags.inverse {
            (bg, fg)
        } else {
            (fg, bg)
        };
        let f2 = if flags.hidden {
            b
        } else {
            f
        };
        Some(RenderCell { c, fg: f2, bg: b, bold: flags.bold, italic: flags.italic, inverse: false })
    }
}

/// Cursor shapes of the terminal model.
#[derive(Debug, Clone, Copy, PartialEq, Eq, Structural)]
pub enum CursorShape {
    Block,
    Underline,
    Beam,
    HollowBlock,
    Hidden,
}

/// The cursor of a frame of `size`, for a cursor at screen row `row` (grid
/// line plus scroll offset) and column `col`: visible when not hidden and
/// on screen; a hidden cursor is reported as a block; the position is
/// clamped to `u16`.
pub open spec fn cursor_spec(p: Palette, shape: CursorShape, row: i32, col: usize, size: GridSize) -> CursorSnapshot {
    CursorSnapshot {
        col: if col > u16::MAX {
            u16::MAX
        } else {
            col as u16
        },
        row: if row < 0 {
            0
        } else if row > u16::MAX {
            u16::MAX
        } else {
            row as u16
        },
        kind: match shape {
            CursorShape::Block | CursorShape::Hidden => CursorKind::Block,
            CursorShape::Underline => CursorKind::Underline,
            CursorShape::Beam => CursorKind::Beam,
            CursorShape::HollowBlock => CursorKind::Hollow,
        },
        visible: shape != CursorShape::Hidden && row >= 0 && row < size.rows && col < size.cols,
        color: p.cursor,
    }
}

/// A frame's cells match its size.
pub open spec fn frame_wf(s: CellSnapshot) -> bool {
    s.cells@.len() == s.size.cols * s.size.rows
}

/// The blank cell of a palette: a space in its colours.
pub open spec fn palette_blank(p: Palette) -> RenderCell {
    RenderCell { c: ' ', fg: p.fg, bg: p.bg, bold: false, italic: false, inverse: false }
}

/// `after` is `before` cleared to `size` blank cells of palette `p`.
pub open spec fn cleared_frame(p: Palette, size: GridSize, before: CellSnapshot, after: CellSnapshot) -> bool {
    &&& after.size == size
    &&& frame_wf(after)
    &&& after.cells@ == Seq::new((size.cols * size.rows) as nat, |i: int| palette_blank(p))
    &&& after.default_fg == p.fg
    &&& after.default_bg == p.bg
    &&& after.cursor == before.cursor
}

/// One cell of terminal content to lay into a frame.
#[derive(Debug, Clone, Copy)]
pub struct CellPlacement {
    pub line: i32,
    pub col: usize,
    pub c: char,
    pub fg: Rgba,
    pub bg: Rgba,
    pub flags: CellFlags,
}

/// `after` is `before` with placement `q` laid in (see `Palette::place_cell`).
pub open spec fn placed_cell(before: CellSnapshot, after: CellSnapshot, q: CellPlacement) -> bool {
    &&& frame_wf(after)
    &&& after.size == before.size
    &&& after.cursor == before.cursor
    &&& after.default_fg == before.default_fg
    &&& after.default_bg == before.default_bg
    &&& ({
        let on_screen = 0 <= q.line < before.size.rows && q.col < before.size.cols;
        match render_spec(q.c, q.fg, q.bg, q.flags) {
            Some(cell) if on_screen => after.cells@ == before.cells@.update(
                q.line * before.size.cols + q.col,
                cell,
            ),
            _ => after.cells@ == before.cells@,
        }
    })
}

/// `after` is `before` with `cursor` set, a block cursor baked into its cell
/// with palette `p` (see `Palette::set_cursor`).
pub open spec fn cursor_baked(p: Palette, before: CellSnapshot, after: CellSnapshot, cursor: CursorSnapshot) -> bool {
    &&& frame_wf(after)
    &&& after.cursor == cursor
    &&& after.size == before.size
    &&& after.default_fg == before.default_fg
    &&& after.default_bg == before.default_bg
    &&& ({
        let s = before.size;
        let baked = cursor.visible && (cursor.kind == CursorKind::Block || cursor.kind
            == CursorKind::Hollow) && cursor.col < s.cols && cursor.row < s.rows;
        let i = cursor.row * s.cols + cursor.col;
        if baked {
            after.cells@ == before.cells@.update(
                i,
                RenderCell { bg: p.cursor, fg: before.cells@[i].bg, ..before.cells@[i] },
            )
        } else {
            after.cells@ == before.cells@
        }
    })
}

/// Each frame `frames[k + 1]` is `frames[k]` with `qs[k]` laid in.
pub open spec fn placed_all(frames: Seq<CellSnapshot>, qs: Seq<CellPlacement>) -> bool {
    &&& frames.len() == qs.len() + 1
    &&& forall|k: int| 0 <= k < qs.len() ==> placed_cell(#[trigger] frames[k], frames[k + 1], qs[k])
}

/// Two frames with the same size, cells and default colours.
pub open spec fn same_content(a: CellSnapshot, b: CellSnapshot) -> bool {
    &&& a.size == b.size
    &&& a.cells@ == b.cells@
    &&& a.default_fg == b.default_fg
    &&& a.default_bg == b.default_bg
}

proof fn lemma_placed_same(fa: Seq<CellSnapshot>, fb: Seq<CellSnapshot>, qs: Seq<CellPlacement>, k: int)
    requires
        placed_all(fa, qs),
        placed_all(fb, qs),
        same_content(fa[0], fb[0]),
        0 <= k <= qs.len(),
    ensures
        same_content(fa[k], fb[k]),
    decreases k,
{
    if k > 0 {
        lemma_placed_same(fa, fb, qs, k - 1);
        assert(placed_cell(fa[k - 1], fa[k], qs[k - 1]));
        assert(placed_cell(fb[k - 1], fb[k], qs[k - 1]));
    }
}

proof fn lemma_placed_keeps(fa: Seq<CellSnapshot>, qs: Seq<CellPlacement>, k: int)
    requires
        placed_all(fa, qs),
        frame_wf(fa[0]),
        0 <= k <= qs.len(),
    ensures
        frame_wf(fa[k]),
        fa[k].size == fa[0].size,
        fa[k].default_fg == fa[0].default_fg,
        fa[k].default_bg == fa[0].default_bg,
    decreases k,
{
    if k > 0 {
        lemma_placed_keeps(fa, qs, k - 1);
        assert(placed_cell(fa[k - 1], fa[k], qs[k - 1]));
    }
}

/// A frame is made the same whatever it held before: clear it to `size`,
/// lay in the same cells in the same order and set the same cursor, and two
/// frames that started out different end equal, of `size` with
/// `size.cols * size.rows` cells and the palette's default colours.
pub proof fn law_frame_deterministic(
    p: Palette,
    size: GridSize,
    a0: CellSnapshot,
    b0: CellSnapshot,
    fa: Seq<CellSnapshot>,
    fb: Seq<CellSnapshot>,
    qs: Seq<CellPlacement>,
    cursor: CursorSnapshot,
    a_end: CellSnapshot,
    b_end: CellSnapshot,
)
    requires
        cleared_frame(p, size, a0, fa[0]),
        cleared_frame(p, size, b0, fb[0]),
        placed_all(fa, qs),
        placed_all(fb, qs),
        cursor_baked(p, fa.last(), a_end, cursor),
        cursor_baked(p, fb.last(), b_end, cursor),
    ensures
        same_content(a_end, b_end),
        a_end.cursor == b_end.cursor,
        a_end.size == size,
        a_end.cells@.len() == size.cols * size.rows,
        a_end.default_fg == p.fg,
        a_end.default_bg == p.bg,
{
    lemma_placed_same(fa, fb, qs, qs.len() as int);
    lemma_placed_keeps(fa, qs, qs.len() as int);
    assert(fa.last() == fa[qs.len() as int]);
    assert(fb.last() == fb[qs.len() as int]);
}

impl Palette {
    /// The table holds the 256 built-in colours.
    pub open spec fn wf(&self) -> bool {
        self.table@.len() == 256 && forall|i: int| 0 <= i < 256 ==> self.table@[i] == table_color(i)
    }

    /// The built-in table with the given foreground, background and cursor
    /// colours.
    pub fn with_colors(fg: Rgba, bg: Rgba, cursor: Rgba) -> (p: Self)
        ensures
            p.wf(),
            p.fg == fg,
            p.bg == bg,
            p.cursor == cursor,
    {
        let mut table: Vec<Rgba> = Vec::new();
        let mut i: usize = 0;
        while i < 16
            invariant
                i <= 16,
                table@.len() == i,
                forall|j: int| 0 <= j < i ==> table@[j] == table_color(j),
            decreases 16 - i,
        {
            table.push(ansi(i));
            i = i + 1;
        }
        let mut r: usize = 0;
        while r < 6
            invariant
                r <= 6,
                table@.len() == 16 + 36 * r,
                forall|j: int| 0 <= j < table@.len() ==> table@[j] == table_color(j),
            decreases 6 - r,
        {
            let mut g: usize = 0;
            while g < 6
                invariant
                    r < 6,
                    g <= 6,
                    table@.len() == 16 + 36 * r + 6 * g,
                    forall|j: int| 0 <= j < table@.len() ==> table@[j] == table_color(j),
                decreases 6 - g,
            {
                let mut b: usize = 0;
                while b < 6
                    invariant
                        r < 6,
                        g < 6,
                        b <= 6,
                        table@.len() == 16 + 36 * r + 6 * g + b,
                        forall|j: int| 0 <= j < table@.len() ==> table@[j] == table_color(j),
                    decreases 6 - b,
                {
                    let ghost j = 36 * r + 6 * g + b;
                    proof {
                        assert(j / 36 == r && (j / 6) % 6 == g && j % 6 == b) by (nonlinear_arith)
                            requires
                                j == 36 * r + 6 * g + b,
                                r < 6,
                                g < 6,
                                b < 6,
                        ;
                    }
                    table.push(Rgba::rgb(step(r), step(g), step(b)));
                    b = b + 1;
                }
                g = g + 1;
            }
            r = r + 1;
        }
        let mut k: usize = 0;
        while k < 24
            invariant
                k <= 24,
                table@.len() == 232 + k,
                forall|j: int| 0 <= j < table@.len() ==> table@[j] == table_color(j),
            decreases 24 - k,
        {
            let v: u8 = 8 + 10 * (k as u8);
            table.push(Rgba::rgb(v, v, v));
            k = k + 1;
        }
        Palette { table, fg, bg, cursor }
    }

    /// The built-in palette: grey on near-black, grey cursor.
    pub fn builtin() -> (p: Self)
        ensures
            p.wf(),
            p.fg == (Rgba { r: 0xCC, g: 0xCC, b: 0xCC, a: 255 }),
            p.bg == (Rgba { r: 0x0C, g: 0x0C, b: 0x0C, a: 255 }),
            p.cursor == (Rgba { r: 0xCC, g: 0xCC, b: 0xCC, a: 255 }),
    {
        Self::with_colors(Rgba::rgb(0xCC, 0xCC, 0xCC), Rgba::rgb(0x0C, 0x0C, 0x0C), Rgba::rgb(0xCC, 0xCC, 0xCC))
    }

    /// The built-in table with the configured foreground, background and
    /// cursor colours.
    pub fn from_config(cfg: &ColorConfig) -> (p: Self)
        requires
            !hex_slice_panics(hex_body(cfg.foreground@)),
            !hex_slice_panics(hex_body(cfg.background@)),
            !hex_slice_panics(hex_body(cfg.cursor@)),
        ensures
            p.wf(),
            p.fg == color_or(cfg.foreground@, Rgba { r: 0xcc, g: 0xcc, b: 0xcc, a: 255 }),
            p.bg == color_or(cfg.background@, Rgba { r: 0x0c, g: 0x0c, b: 0x0c, a: 255 }),
            p.cursor == color_or(
                cfg.cursor@,
                color_or(cfg.foreground@, Rgba { r: 0xcc, g: 0xcc, b: 0xcc, a: 255 }),
            ),
    {
        Self::with_colors(cfg.fg(), cfg.bg(), cfg.cursor_color())
    }

    /// Entry `i` of the table.
    pub fn entry(&self, i: u8) -> (c: Rgba)
        requires
            self.wf(),
        ensures
            c == table_color(i as int),
    {
        self.table[i as usize]
    }

    /// What the palette gives a named colour.
    pub fn named_default(&self, n: NamedColor) -> (c: Rgba)
        requires
            self.wf(),
        ensures
            c == named_spec(*self, n),
    {
        match n {
            NamedColor::Black | NamedColor::DimBlack => self.table[0],
            NamedColor::Red | NamedColor::DimRed => self.table[1],
            NamedColor::Green | NamedColor::DimGreen => self.table[2],
            NamedColor::Yellow | NamedColor::DimYellow => self.table[3],
            NamedColor::Blue | NamedColor::DimBlue => self.table[4],
            NamedColor::Magenta | NamedColor::DimMagenta => self.table[5],
            NamedColor::Cyan | NamedColor::DimCyan => self.table[6],
            NamedColor::White | NamedColor::DimWhite => self.table[7],
            NamedColor::BrightBlack => self.table[8],
            NamedColor::BrightRed => self.table[9],
            NamedColor::BrightGreen => self.table[10],
            NamedColor::BrightYellow => self.table[11],
            NamedColor::BrightBlue => self.table[12],
            NamedColor::BrightMagenta => self.table[13],
            NamedColor::BrightCyan => self.table[14],
            NamedColor::BrightWhite => self.table[15],
            NamedColor::Foreground | NamedColor::BrightForeground | NamedColor::DimForeground => self.fg,
            NamedColor::Background => self.bg,
            NamedColor::Cursor => self.cursor,
        }
    }

    /// The colour `color` resolves to; `ov` is the terminal's own setting
    /// for that table entry or name and wins when present.
    pub fn resolve(&self, color: TermColor, ov: Option<Rgba>) -> (c: Rgba)
        requires
            self.wf(),
        ensures
            c == resolve_spec(*self, color, ov),
    {
        match color {
            TermColor::Spec(r, g, b) => Rgba::rgb(r, g, b),
            TermColor::Indexed(i) => match ov {
                Some(o) => Rgba::rgb(o.r, o.g, o.b),
                None => self.entry(i),
            },
            TermColor::Named(n) => match ov {
                Some(o) => Rgba::rgb(o.r, o.g, o.b),
                None => self.named_default(n),
            },
        }
    }

    /// Resizes the frame when needed, sets its default colours and clears
    /// it to the palette's blank cell.
    pub fn clear_frame(&self, out: &mut CellSnapshot, size: GridSize)
        ensures
            final(out).size == size,
            frame_wf(*final(out)),
            final(out).cells@ == Seq::new((size.cols * size.rows) as nat, |i: int| palette_blank(*self)),
            final(out).default_fg == self.fg,
            final(out).default_bg == self.bg,
            final(out).cursor == old(out).cursor,
            cleared_frame(*self, size, *old(out), *final(out)),
    {
        if out.size != size {
            out.resize(size);
        }
        out.default_fg = self.fg;
        out.default_bg = self.bg;
        let n = size.cell_count();
        out.cells = crate::types::cells_of(
            n,
            RenderCell { c: ' ', fg: self.fg, bg: self.bg, bold: false, italic: false, inverse: false },
        );
    }

    /// Draws a cell of the terminal model at screen row `line` (grid line
    /// plus scroll offset), column `col`: nothing off screen or for the
    /// spacers of wide characters.
    pub fn place_cell(
        &self,
        out: &mut CellSnapshot,
        line: i32,
        col: usize,
        c: char,
        fg: Rgba,
        bg: Rgba,
        flags: CellFlags,
    )
        requires
            frame_wf(*old(out)),
        ensures
            frame_wf(*final(out)),
            final(out).size == old(out).size,
            final(out).cursor == old(out).cursor,
            final(out).default_fg == old(out).default_fg,
            final(out).default_bg == old(out).default_bg,
            ({
                let on_screen = 0 <= line < old(out).size.rows && col < old(out).size.cols;
                match render_spec(c, fg, bg, flags) {
                    Some(cell) if on_screen => final(out).cells@ == old(out).cells@.update(
                        line * old(out).size.cols + col,
                        cell,
                    ),
                    _ => final(out).cells@ == old(out).cells@,
                }
            }),
            placed_cell(*old(out), *final(out), (CellPlacement { line, col, c, fg, bg, flags })),
    {
        if line < 0 || line as usize >= out.size.rows as usize || col >= out.size.cols as usize {
            return;
        }
        if flags.wide_spacer || flags.leading_wide_spacer {
            return;
        }
        let (mut f, mut b) = if flags.inverse {
            (bg, fg)
        } else {
            (fg, bg)
        };
        if flags.hidden {
            f = b;
        }
        let cell = RenderCell { c, fg: f, bg: b, bold: flags.bold, italic: flags.italic, inverse: false };
        let r = line as u16;
        let k = col as u16;
        assert(r == line && k == col);
        match out.index(k, r) {
            Some(idx) => {
                assert(idx == line * out.size.cols + col);
                assert(render_spec(c, fg, bg, flags) == Some(cell));
                out.cells.set(idx, cell);
            },
            None => {},
        }
    }

    /// The frame's cursor for a cursor of shape `shape` at screen row `row`
    /// and column `col`.
    pub fn cursor_for(&self, shape: CursorShape, row: i32, col: usize, size: GridSize) -> (c: CursorSnapshot)
        ensures
            c == cursor_spec(*self, shape, row, col, size),
    {
        let visible = shape != CursorShape::Hidden && row >= 0 && (row as usize) < size.rows as usize
            && col < size.cols as usize;
        let kind = match shape {
            CursorShape::Block | CursorShape::Hidden => CursorKind::Block,
            CursorShape::Underline => CursorKind::Underline,
            CursorShape::Beam => CursorKind::Beam,
            CursorShape::HollowBlock => CursorKind::Hollow,
        };
        let c: u16 = if col > 65535 {
            65535
        } else {
            col as u16
        };
        let r: u16 = if row < 0 {
            0
        } else if row > 65535 {
            65535
        } else {
            row as u16
        };
        CursorSnapshot { col: c, row: r, kind, visible, color: self.cursor }
    }

    /// Sets the frame's cursor; a visible block or hollow cursor is baked
    /// into its cell (background in the cursor colour, foreground in the
    /// cell's old background).
    pub fn set_cursor(&self, out: &mut CellSnapshot, cursor: CursorSnapshot)
        requires
            frame_wf(*old(out)),
        ensures
            frame_wf(*final(out)),
            final(out).cursor == cursor,
            final(out).size == old(out).size,
            final(out).default_fg == old(out).default_fg,
            final(out).default_bg == old(out).default_bg,
            ({
                let s = old(out).size;
                let baked = cursor.visible && (cursor.kind == CursorKind::Block || cursor.kind
                    == CursorKind::Hollow) && cursor.col < s.cols && cursor.row < s.rows;
                let i = cursor.row * s.cols + cursor.col;
                if baked {
                    final(out).cells@ == old(out).cells@.update(
                        i,
                        RenderCell { bg: self.cursor, fg: old(out).cells@[i].bg, ..old(out).cells@[i] },
                    )
                } else {
                    final(out).cells@ == old(out).cells@
                }
            }),
            cursor_baked(*self, *old(out), *final(out), cursor),
    {
        let block = match cursor.kind {
            CursorKind::Block | CursorKind::Hollow => true,
            _ => false,
        };
        if cursor.visible && block {
            match out.index(cursor.col, cursor.row) {
                Some(idx) => {
                    assert(idx == cursor.row * out.size.cols + cursor.col);
                    let old_cell = out.cells[idx];
                    let cell = RenderCell { bg: self.cursor, fg: old_cell.bg, ..old_cell };
                    out.cells.set(idx, cell);
                },
                None => {},
            }
        }
        out.cursor = cursor;
    }
}

/// One cell as the terminal model reports it: where it is (screen line,
/// scrollback already counted in, and column), its character, its colours
/// with the terminal's own setting for each where it has one, and its
/// attributes.
#[derive(Debug, Clone, Copy)]
pub struct TermCell {
    pub line: i32,
    pub col: usize,
    pub c: char,
    pub fg: TermColor,
    pub fg_override: Option<Rgba>,
    pub bg: TermColor,
    pub bg_override: Option<Rgba>,
    pub flags: CellFlags,
}

/// The placement a terminal cell becomes with palette `p`.
pub open spec fn placement_of(p: Palette, t: TermCell) -> CellPlacement {
    CellPlacement {
        line: t.line,
        col: t.col,
        c: t.c,
        fg: resolve_spec(p, t.fg, t.fg_override),
        bg: resolve_spec(p, t.bg, t.bg_override),
        flags: t.flags,
    }
}

/// `cells` of a `size` frame with placement `q` laid in.
pub open spec fn place_spec(cells: Seq<RenderCell>, size: GridSize, q: CellPlacement) -> Seq<RenderCell> {
    let on_screen = 0 <= q.line < size.rows && q.col < size.cols;
    match render_spec(q.c, q.fg, q.bg, q.flags) {
        Some(cell) if on_screen => cells.update(q.line * size.cols + q.col, cell),
        _ => cells,
    }
}

/// The cells of a `size` frame of palette `p` cleared and then given the
/// terminal cells `ts`, in order.
pub open spec fn laid_cells(p: Palette, size: GridSize, ts: Seq<TermCell>) -> Seq<RenderCell>
    decreases ts.len(),
{
    if ts.len() == 0 {
        Seq::new((size.cols * size.rows) as nat, |i: int| palette_blank(p))
    } else {
        place_spec(laid_cells(p, size, ts.drop_last()), size, placement_of(p, ts.last()))
    }
}

/// `cells` of a `size` frame with `cursor` baked in when it is a visible
/// block on screen.
pub open spec fn bake_spec(p: Palette, cells: Seq<RenderCell>, size: GridSize, cursor: CursorSnapshot) -> Seq<RenderCell> {
    let baked = cursor.visible && (cursor.kind == CursorKind::Block || cursor.kind == CursorKind::Hollow)
        && cursor.col < size.cols && cursor.row < size.rows;
    let i = cursor.row * size.cols + cursor.col;
    if baked {
        cells.update(i, RenderCell { bg: p.cursor, fg: cells[i].bg, ..cells[i] })
    } else {
        cells
    }
}

/// `out` is the frame of the terminal screen `ts` (size `size`, cursor of
/// `shape` at `cursor_line`, `cursor_col`) drawn with palette `p`.
pub open spec fn is_frame_of(
    p: Palette,
    size: GridSize,
    ts: Seq<TermCell>,
    shape: CursorShape,
    cursor_line: i32,
    cursor_col: usize,
    out: CellSnapshot,
) -> bool {
    let cursor = cursor_spec(p, shape, cursor_line, cursor_col, size);
    &&& out.size == size
    &&& frame_wf(out)
    &&& out.default_fg == p.fg
    &&& out.default_bg == p.bg
    &&& out.cursor == cursor
    &&& out.cells@ == bake_spec(p, laid_cells(p, size, ts), size, cursor)
}

impl Palette {
    /// Draws the terminal screen into `out`: clears it to `size`, lays in
    /// the cells `ts` in order (off-screen cells and wide-character spacers
    /// left out), then sets the cursor of `shape` at (`cursor_line`,
    /// `cursor_col`), a block cursor baked into its cell. Nothing of what
    /// `out` held before is left.
    pub fn render_frame(
        &self,
        out: &mut CellSnapshot,
        size: GridSize,
        ts: &[TermCell],
        shape: CursorShape,
        cursor_line: i32,
        cursor_col: usize,
    )
        requires
            self.wf(),
        ensures
            is_frame_of(*self, size, ts@, shape, cursor_line, cursor_col, *final(out)),
    {
        self.clear_frame(out, size);
        let mut i: usize = 0;
        while i < ts.len()
            invariant
                self.wf(),
                i <= ts@.len(),
                out.size == size,
                frame_wf(*out),
                out.default_fg == self.fg,
                out.default_bg == self.bg,
                out.cells@ == laid_cells(*self, size, ts@.take(i as int)),
            decreases ts@.len() - i,
        {
            let t = ts[i];
            let fg = self.resolve(t.fg, t.fg_override);
            let bg = self.resolve(t.bg, t.bg_override);
            self.place_cell(out, t.line, t.col, t.c, fg, bg, t.flags);
            proof {
                assert(ts@.take(i + 1).drop_last() =~= ts@.take(i as int));
                assert(ts@.take(i + 1).last() == t);
            }
            i = i + 1;
        }
        proof {
            assert(ts@.take(i as int) =~= ts@);
        }
        let cursor = self.cursor_for(shape, cursor_line, cursor_col, size);
        self.set_cursor(out, cursor);
    }
}

/// A snapshot does not depend on what the frame held before: two frames of
/// the same screen drawn with the same palette are alike in size, cells,
/// cursor and default colours, have `size.cols * size.rows` cells, and take
/// their default colours from the palette.
pub proof fn law_snapshot_independent(
    p: Palette,
    size: GridSize,
    ts: Seq<TermCell>,
    shape: CursorShape,
    cursor_line: i32,
    cursor_col: usize,
    a: CellSnapshot,
    b: CellSnapshot,
)
    requires
        is_frame_of(p, size, ts, shape, cursor_line, cursor_col, a),
        is_frame_of(p, size, ts, shape, cursor_line, cursor_col, b),
    ensures
        same_content(a, b),
        a.cursor == b.cursor,
        a.size == size,
        a.cells@.len() == size.cols * size.rows,
        a.default_fg == p.fg,
        a.default_bg == p.bg,
{
}

/// A named colour is the entry of the 16-colour table with its ANSI index
/// (SGR 30-37 and 90-97 give what SGR 38;5;0-15 give): black, red, green,
/// yellow, blue, magenta, cyan, white are entries 0 to 7, their bright forms
/// 8 to 15, their dim forms the same as the plain ones. The table's 16
/// entries are the Campbell colours, all different, so no named colour is
/// drawn as another. Foreground, background and cursor are the palette's;
/// the terminal's own setting for a colour always wins.
pub proof fn law_named_colors(p: Palette)
    ensures
        resolve_spec(p, TermColor::Named(NamedColor::Black), None) == resolve_spec(p, TermColor::Indexed(0u8), None),
        resolve_spec(p, TermColor::Named(NamedColor::DimBlack), None) == resolve_spec(p, TermColor::Indexed(0u8), None),
        resolve_spec(p, TermColor::Named(NamedColor::BrightBlack), None) == resolve_spec(p, TermColor::Indexed(8u8), None),
        resolve_spec(p, TermColor::Named(NamedColor::Red), None) == resolve_spec(p, TermColor::Indexed(1u8), None),
        resolve_spec(p, TermColor::Named(NamedColor::DimRed), None) == resolve_spec(p, TermColor::Indexed(1u8), None),
        resolve_spec(p, TermColor::Named(NamedColor::BrightRed), None) == resolve_spec(p, TermColor::Indexed(9u8), None),
        resolve_spec(p, TermColor::Named(NamedColor::Green), None) == resolve_spec(p, TermColor::Indexed(2u8), None),
        resolve_spec(p, TermColor::Named(NamedColor::DimGreen), None) == resolve_spec(p, TermColor::Indexed(2u8), None),
        resolve_spec(p, TermColor::Named(NamedColor::BrightGreen), None) == resolve_spec(p, TermColor::Indexed(10u8), None),
        resolve_spec(p, TermColor::Named(NamedColor::Yellow), None) == resolve_spec(p, TermColor::Indexed(3u8), None),
        resolve_spec(p, TermColor::Named(NamedColor::DimYellow), None) == resolve_spec(p, TermColor::Indexed(3u8), None),
        resolve_spec(p, TermColor::Named(NamedColor::BrightYellow), None) == resolve_spec(p, TermColor::Indexed(11u8), None),
        resolve_spec(p, TermColor::Named(NamedColor::Blue), None) == resolve_spec(p, TermColor::Indexed(4u8), None),
        resolve_spec(p, TermColor::Named(NamedColor::DimBlue), None) == resolve_spec(p, TermColor::Indexed(4u8), None),
        resolve_spec(p, TermColor::Named(NamedColor::BrightBlue), None) == resolve_spec(p, TermColor::Indexed(12u8), None),
        resolve_spec(p, TermColor::Named(NamedColor::Magenta), None) == resolve_spec(p, TermColor::Indexed(5u8), None),
        resolve_spec(p, TermColor::Named(NamedColor::DimMagenta), None) == resolve_spec(p, TermColor::Indexed(5u8), None),
        resolve_spec(p, TermColor::Named(NamedColor::BrightMagenta), None) == resolve_spec(p, TermColor::Indexed(13u8), None),
        resolve_spec(p, TermColor::Named(NamedColor::Cyan), None) == resolve_spec(p, TermColor::Indexed(6u8), None),
        resolve_spec(p, TermColor::Named(NamedColor::DimCyan), None) == resolve_spec(p, TermColor::Indexed(6u8), None),
        resolve_spec(p, TermColor::Named(NamedColor::BrightCyan), None) == resolve_spec(p, TermColor::Indexed(14u8), None),
        resolve_spec(p, TermColor::Named(NamedColor::White), None) == resolve_spec(p, TermColor::Indexed(7u8), None),
        resolve_spec(p, TermColor::Named(NamedColor::DimWhite), None) == resolve_spec(p, TermColor::Indexed(7u8), None),
        resolve_spec(p, TermColor::Named(NamedColor::BrightWhite), None) == resolve_spec(p, TermColor::Indexed(15u8), None),
        resolve_spec(p, TermColor::Indexed(0u8), None) == (Rgba { r: 0x0c, g: 0x0c, b: 0x0c, a: 255 }),
        resolve_spec(p, TermColor::Indexed(1u8), None) == (Rgba { r: 0xc5, g: 0x0f, b: 0x1f, a: 255 }),
        resolve_spec(p, TermColor::Indexed(2u8), None) == (Rgba { r: 0x13, g: 0xa1, b: 0x0e, a: 255 }),
        resolve_spec(p, TermColor::Indexed(3u8), None) == (Rgba { r: 0xc1, g: 0x9c, b: 0x00, a: 255 }),
        resolve_spec(p, TermColor::Indexed(4u8), None) == (Rgba { r: 0x00, g: 0x37, b: 0xda, a: 255 }),
        resolve_spec(p, TermColor::Indexed(5u8), None) == (Rgba { r: 0x88, g: 0x17, b: 0x98, a: 255 }),
        resolve_spec(p, TermColor::Indexed(6u8), None) == (Rgba { r: 0x3a, g: 0x96, b: 0xdd, a: 255 }),
        resolve_spec(p, TermColor::Indexed(7u8), None) == (Rgba { r: 0xcc, g: 0xcc, b: 0xcc, a: 255 }),
        resolve_spec(p, TermColor::Indexed(8u8), None) == (Rgba { r: 0x76, g: 0x76, b: 0x76, a: 255 }),
        resolve_spec(p, TermColor::Indexed(9u8), None) == (Rgba { r: 0xe7, g: 0x48, b: 0x56, a: 255 }),
        resolve_spec(p, TermColor::Indexed(10u8), None) == (Rgba { r: 0x16, g: 0xc6, b: 0x0c, a: 255 }),
        resolve_spec(p, TermColor::Indexed(11u8), None) == (Rgba { r: 0xf9, g: 0xf1, b: 0xa5, a: 255 }),
        resolve_spec(p, TermColor::Indexed(12u8), None) == (Rgba { r: 0x3b, g: 0x78, b: 0xff, a: 255 }),
        resolve_spec(p, TermColor::Indexed(13u8), None) == (Rgba { r: 0xb4, g: 0x00, b: 0x9e, a: 255 }),
        resolve_spec(p, TermColor::Indexed(14u8), None) == (Rgba { r: 0x61, g: 0xd6, b: 0xd6, a: 255 }),
        resolve_spec(p, TermColor::Indexed(15u8), None) == (Rgba { r: 0xf2, g: 0xf2, b: 0xf2, a: 255 }),
        resolve_spec(p, TermColor::Named(NamedColor::Foreground), None) == p.fg,
        resolve_spec(p, TermColor::Named(NamedColor::BrightForeground), None) == p.fg,
        resolve_spec(p, TermColor::Named(NamedColor::DimForeground), None) == p.fg,
        resolve_spec(p, TermColor::Named(NamedColor::Background), None) == p.bg,
        resolve_spec(p, TermColor::Named(NamedColor::Cursor), None) == p.cursor,
        forall|n: NamedColor, c: Rgba| resolve_spec(p, TermColor::Named(n), Some(c)) == (Rgba { r: c.r, g: c.g, b: c.b, a: 255 }),
        forall|i: u8, j: u8| i < 16 && j < 16 && i != j ==> resolve_spec(p, TermColor::Indexed(i), None) != resolve_spec(p, TermColor::Indexed(j), None),
{
}

} // verus!
