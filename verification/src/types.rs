//! Shared, OS-independent types: grid sizes, colours, render cells, frame
//! snapshots, errors and the settings sections of the user configuration.

use vstd::prelude::*;
use crate::text::{
    chars_of, trim_chars, trim_seq, utf8_len, utf8_len_is, utf8_width, hex_value, hex_digit,
    decimal, decimal_chars, string_from_chars, push_char, owned, lead_ws, trim_bounds,
    slice_to_vec,
};

verus! {

/// Terminal grid size in columns and rows.
#[derive(Debug, Clone, Copy, PartialEq, Eq, Structural)]
pub struct GridSize {
    pub cols: u16,
    pub rows: u16,
}

impl GridSize {
    /// A grid size; each dimension is at least one.
    pub fn new(cols: u16, rows: u16) -> (g: Self)
        ensures
            g.cols == (if cols == 0 { 1 } else { cols }),
            g.rows == (if rows == 0 { 1 } else { rows }),
    {
        GridSize {
            cols: if cols < 1 { 1 } else { cols },
            rows: if rows < 1 { 1 } else { rows },
        }
    }

    /// Number of cells, `cols * rows`.
    pub fn cell_count(self) -> (n: usize)
        ensures
            n == self.cols * self.rows,
    {
        assert(self.cols * self.rows <= 65535 * 65535) by (nonlinear_arith)
            requires
                self.cols <= 65535,
                self.rows <= 65535,
        ;
        self.cols as usize * self.rows as usize
    }

    /// The size as `"{cols}x{rows}"` (what `Display` writes).
    pub fn to_text(&self) -> (s: String)
        ensures
            s@ == decimal(self.cols as nat) + seq!['x'] + decimal(self.rows as nat),
    {
        let mut v = decimal_chars(self.cols as u64);
        v.push('x');
        let w = decimal_chars(self.rows as u64);
        let mut i: usize = 0;
        let ghost v0 = v@;
        while i < w.len()
            invariant
                i <= w@.len(),
                v@ == v0 + w@.take(i as int),
            decreases w@.len() - i,
        {
            v.push(w[i]);
            proof {
                assert(w@.take(i + 1) == w@.take(i as int).push(w@[i as int]));
            }
            i = i + 1;
        }
        proof {
            assert(w@.take(w@.len() as int) == w@);
        }
        string_from_chars(v.as_slice())
    }
}

/// An 8-bit-per-channel RGBA colour, already resolved from the palette.
#[derive(Debug, Clone, Copy, PartialEq, Eq, Structural)]
pub struct Rgba {
    pub r: u8,
    pub g: u8,
    pub b: u8,
    pub a: u8,
}

impl Rgba {
    /// An opaque colour.
    pub fn rgb(r: u8, g: u8, b: u8) -> (c: Self)
        ensures
            c == (Rgba { r, g, b, a: 255 }),
    {
        Rgba { r, g, b, a: 255 }
    }

    /// Opaque black.
    pub fn black() -> (c: Self)
        ensures
            c == (Rgba { r: 0, g: 0, b: 0, a: 255 }),
    {
        Rgba::rgb(0, 0, 0)
    }

    /// Opaque white.
    pub fn white() -> (c: Self)
        ensures
            c == (Rgba { r: 255, g: 255, b: 255, a: 255 }),
    {
        Rgba::rgb(255, 255, 255)
    }
}

/// Render information of one cell.
#[derive(Debug, Clone, Copy, PartialEq, Eq, Structural)]
pub struct RenderCell {
    pub c: char,
    pub fg: Rgba,
    pub bg: Rgba,
    pub bold: bool,
    pub italic: bool,
    pub inverse: bool,
}

/// A blank cell: a space, white on black, no attributes.
pub open spec fn blank_cell() -> RenderCell {
    RenderCell {
        c: ' ',
        fg: Rgba { r: 255, g: 255, b: 255, a: 255 },
        bg: Rgba { r: 0, g: 0, b: 0, a: 255 },
        bold: false,
        italic: false,
        inverse: false,
    }
}

impl Default for RenderCell {
    fn default() -> (c: Self)
        ensures
            c == blank_cell(),
    {
        RenderCell {
            c: ' ',
            fg: Rgba::white(),
            bg: Rgba::black(),
            bold: false,
            italic: false,
            inverse: false,
        }
    }
}

/// Cursor shape.
#[derive(Debug, Clone, Copy, PartialEq, Eq, Structural)]
pub enum CursorKind {
    Block,
    Underline,
    Beam,
    Hollow,
}

/// Cursor state, in grid coordinates.
#[derive(Debug, Clone, Copy, PartialEq, Eq, Structural)]
pub struct CursorSnapshot {
    pub col: u16,
    pub row: u16,
    pub kind: CursorKind,
    pub visible: bool,
    pub color: Rgba,
}

/// The cursor at the origin: a visible white block.
pub open spec fn default_cursor() -> CursorSnapshot {
    CursorSnapshot {
        col: 0,
        row: 0,
        kind: CursorKind::Block,
        visible: true,
        color: Rgba { r: 255, g: 255, b: 255, a: 255 },
    }
}

impl Default for CursorSnapshot {
    fn default() -> (c: Self)
        ensures
            c == default_cursor(),
    {
        CursorSnapshot { col: 0, row: 0, kind: CursorKind::Block, visible: true, color: Rgba::white() }
    }
}

/// One frame of render state, owned. `cells` is row-major with
/// `cols * rows` entries.
#[derive(Debug, Clone)]
pub struct CellSnapshot {
    pub size: GridSize,
    pub cells: Vec<RenderCell>,
    pub cursor: CursorSnapshot,
    pub default_fg: Rgba,
    pub default_bg: Rgba,
}

/// `n` copies of a cell.
pub fn cells_of(n: usize, c: RenderCell) -> (v: Vec<RenderCell>)
    ensures
        v@ == Seq::new(n as nat, |i: int| c),
{
    let mut v: Vec<RenderCell> = Vec::new();
    let mut i: usize = 0;
    while i < n
        invariant
            i <= n,
            v@ == Seq::new(i as nat, |k: int| c),
        decreases n - i,
    {
        v.push(c);
        i = i + 1;
        proof {
            assert(v@ =~= Seq::new(i as nat, |k: int| c));
        }
    }
    v
}

impl CellSnapshot {
    /// A blank frame of the given size: blank cells, default cursor, white
    /// on black.
    pub fn new(size: GridSize) -> (s: Self)
        ensures
            s.size == size,
            s.cells@ == Seq::new((size.cols * size.rows) as nat, |i: int| blank_cell()),
            s.cursor == default_cursor(),
            s.default_fg == (Rgba { r: 255, g: 255, b: 255, a: 255 }),
            s.default_bg == (Rgba { r: 0, g: 0, b: 0, a: 255 }),
    {
        let n = size.cell_count();
        CellSnapshot {
            size,
            cells: cells_of(n, RenderCell::default()),
            cursor: CursorSnapshot::default(),
            default_fg: Rgba::white(),
            default_bg: Rgba::black(),
        }
    }

    /// Index of `(col, row)` in `cells`; `None` outside the grid.
    pub fn index(&self, col: u16, row: u16) -> (r: Option<usize>)
        ensures
            r == (if col >= self.size.cols || row >= self.size.rows {
                None
            } else {
                Some((row * self.size.cols + col) as usize)
            }),
            r matches Some(i) ==> i < self.size.cols * self.size.rows && i == row * self.size.cols
                + col,
    {
        if col >= self.size.cols || row >= self.size.rows {
            return None;
        }
        proof {
            assert(row * self.size.cols + col < self.size.cols * self.size.rows) by (nonlinear_arith)
                requires
                    col < self.size.cols,
                    row < self.size.rows,
            ;
            assert(self.size.cols * self.size.rows <= 65535 * 65535) by (nonlinear_arith)
                requires
                    self.size.cols <= 65535,
                    self.size.rows <= 65535,
            ;
        }
        Some(row as usize * self.size.cols as usize + col as usize)
    }

    /// Sets a new size and clears the frame to blank cells.
    pub fn resize(&mut self, size: GridSize)
        ensures
            final(self).size == size,
            final(self).cells@ == Seq::new((size.cols * size.rows) as nat, |i: int| blank_cell()),
            final(self).cursor == old(self).cursor,
            final(self).default_fg == old(self).default_fg,
            final(self).default_bg == old(self).default_bg,
    {
        self.size = size;
        self.cells = cells_of(size.cell_count(), RenderCell::default());
    }
}

/// A desktop notification (from OSC 9 / OSC 777).
#[derive(Debug, Clone, PartialEq, Eq)]
pub struct Notification {
    pub title: String,
    pub body: String,
}

#[verifier::external_type_specification]
#[verifier::external_body]
pub struct ExIoError(std::io::Error);

/// Errors of the multiplexer.
#[derive(Debug)]
pub enum ZmError {
    Pty(String),
    Render(String),
    Io(std::io::Error),
}

impl ZmError {
    /// The message `Display` shows: `"pty error: …"`, `"render error: …"`
    /// or `"io error: …"` (the last one written by the caller, who can
    /// format the `io::Error`).
    pub fn message_prefix(&self) -> (s: &'static str)
        ensures
            s@ == (match self {
                ZmError::Pty(_) => "pty error: "@,
                ZmError::Render(_) => "render error: "@,
                ZmError::Io(_) => "io error: "@,
            }),
    {
        match self {
            ZmError::Pty(_) => "pty error: ",
            ZmError::Render(_) => "render error: ",
            ZmError::Io(_) => "io error: ",
        }
    }
}

/// Value of a byte written as exactly two hexadecimal digits (`rr`, `gg`,
/// `bb` of a colour); anything else, a sign included, is no byte.
pub open spec fn hex_byte(p: Seq<char>) -> Option<u8> {
    if p.len() == 2 && hex_value(p[0]) is Some && hex_value(p[1]) is Some {
        Some((hex_value(p[0])->0 * 16 + hex_value(p[1])->0) as u8)
    } else {
        None
    }
}

/// `str::len() == 6` text that slicing by bytes (`[0..2]`, then `[2..4]`
/// once the first piece is a byte) would cut inside a multi-byte
/// character, which panics: such text is outside what the parsers accept.
pub open spec fn hex_slice_panics(h: Seq<char>) -> bool {
    utf8_len(h) == 6 && ({
        let b2 = utf8_width(h[0]) == 2 || (utf8_width(h[0]) == 1 && utf8_width(h[1]) == 1);
        let b4 = utf8_width(h[2]) == 2 || (utf8_width(h[2]) == 1 && utf8_width(h[3]) == 1);
        !b2 || (utf8_width(h[0]) == 1 && hex_byte(h.take(2)) is Some && !b4)
    })
}

/// Six hexadecimal digits: the three bytes they write, two digits each.
pub open spec fn hex_triplet(h: Seq<char>) -> Option<(u8, u8, u8)> {
    if h.len() == 6 && utf8_len(h) == 6 {
        match (
            hex_byte(h.subrange(0, 2)),
            hex_byte(h.subrange(2, 4)),
            hex_byte(h.subrange(4, 6)),
        ) {
            (Some(r), Some(g), Some(b)) => Some((r, g, b)),
            _ => None,
        }
    } else {
        None
    }
}

fn hex_piece(a: char, b: char) -> (r: Option<u8>)
    ensures
        r == hex_byte(seq![a, b]),
{
    match (hex_digit(a), hex_digit(b)) {
        (Some(x), Some(y)) => Some(x * 16 + y),
        _ => None,
    }
}

/// Parses six hex characters into a colour triple.
pub fn parse_triplet(h: &[char]) -> (r: Option<(u8, u8, u8)>)
    ensures
        r == hex_triplet(h@),
{
    if h.len() != 6 || !utf8_len_is(h, 6) {
        return None;
    }
    let r = hex_piece(h[0], h[1]);
    let g = hex_piece(h[2], h[3]);
    let b = hex_piece(h[4], h[5]);
    proof {
        assert(h@.subrange(0, 2) =~= seq![h@[0], h@[1]]);
        assert(h@.subrange(2, 4) =~= seq![h@[2], h@[3]]);
        assert(h@.subrange(4, 6) =~= seq![h@[4], h@[5]]);
    }
    match (r, g, b) {
        (Some(r), Some(g), Some(b)) => Some((r, g, b)),
        _ => None,
    }
}

/// Leading `#` characters.
pub open spec fn lead_hash(s: Seq<char>) -> nat
    decreases s.len(),
{
    if s.len() > 0 && s[0] == '#' {
        1 + lead_hash(s.drop_first())
    } else {
        0
    }
}

/// `"#rrggbb"` or `"rrggbb"` after `trim()` and removing every leading `#`.
pub open spec fn hex_body(s: Seq<char>) -> Seq<char> {
    trim_seq(s).skip(lead_hash(trim_seq(s)) as int)
}

proof fn lemma_lead_hash(s: Seq<char>, i: int)
    requires
        0 <= i <= s.len(),
        forall|j: int| 0 <= j < i ==> s[j] == '#',
        i == s.len() || s[i] != '#',
    ensures
        lead_hash(s) == i,
    decreases i,
{
    if i > 0 {
        assert forall|j: int| 0 <= j < i - 1 implies s.drop_first()[j] == '#' by {
            assert(s.drop_first()[j] == s[j + 1]);
        }
        if i < s.len() {
            assert(s.drop_first()[i - 1] == s[i]);
        }
        lemma_lead_hash(s.drop_first(), i - 1);
    }
}

/// The characters of [`hex_body`].
fn hex_body_chars(s: &str) -> (h: Vec<char>)
    ensures
        h@ == hex_body(s@),
{
    let v = chars_of(s);
    let t = trim_chars(v.as_slice());
    let mut i: usize = 0;
    while i < t.len() && t[i] == '#'
        invariant
            i <= t@.len(),
            forall|j: int| 0 <= j < i ==> t@[j] == '#',
        decreases t@.len() - i,
    {
        i = i + 1;
    }
    proof {
        lemma_lead_hash(t@, i as int);
    }
    let h = slice_to_vec(t.as_slice(), i, t.len());
    proof {
        assert(h@ =~= hex_body(s@));
    }
    h
}

/// Bytes of a character in UTF-8.
fn utf8_width_of(c: char) -> (w: usize)
    ensures
        w == utf8_width(c),
{
    let u = c as u32;
    if u < 0x80 {
        1
    } else if u < 0x800 {
        2
    } else if u < 0x10000 {
        3
    } else {
        4
    }
}

proof fn lemma_utf8_len_bound(s: Seq<char>)
    ensures
        utf8_len(s) <= 4 * s.len(),
    decreases s.len(),
{
    if s.len() > 0 {
        lemma_utf8_len_bound(s.drop_last());
    }
}

/// Whether a colour setting is text on which the parsers stop (see
/// [`hex_slice_panics`]); callers test this before parsing a setting they
/// did not write.
pub fn hex_setting_panics(s: &str) -> (r: bool)
    ensures
        r == hex_slice_panics(hex_body(s@)),
{
    let h = hex_body_chars(s);
    let ghost g = h@;
    if !utf8_len_is(h.as_slice(), 6) {
        return false;
    }
    proof {
        lemma_utf8_len_bound(g);
        reveal_with_fuel(utf8_len, 4);
        if g.len() == 2 {
            assert(g.drop_last().drop_last().len() == 0);
        }
        if g.len() == 3 {
            assert(g.drop_last().drop_last().drop_last().len() == 0);
        }
    }
    let w0 = utf8_width_of(h[0]);
    let w1 = utf8_width_of(h[1]);
    let b2 = w0 == 2 || (w0 == 1 && w1 == 1);
    if !b2 {
        return true;
    }
    if w0 != 1 {
        return false;
    }
    proof {
        assert(g.take(2) =~= seq![g[0], g[1]]);
    }
    if hex_piece(h[0], h[1]).is_none() {
        return false;
    }
    let w2 = utf8_width_of(h[2]);
    let b4 = if w2 == 2 {
        true
    } else if w2 == 1 {
        utf8_width_of(h[3]) == 1
    } else {
        false
    };
    !b4
}

/// `"#rrggbb"` / `"rrggbb"` → colour: trims white space, drops leading
/// `#`s, then reads three hexadecimal byte pieces; `None` otherwise.
pub fn parse_hex(s: &str) -> (r: Option<Rgba>)
    requires
        !hex_slice_panics(hex_body(s@)),
    ensures
        r == (match hex_triplet(hex_body(s@)) {
            Some((r, g, b)) => Some(Rgba { r, g, b, a: 255 }),
            None => None,
        }),
{
    let h = hex_body_chars(s);
    match parse_triplet(h.as_slice()) {
        Some((r, g, b)) => Some(Rgba::rgb(r, g, b)),
        None => None,
    }
}

/// The agent integration settings.
#[derive(Debug, Clone)]
pub struct AgentConfig {
    /// Give panes the tmux shim environment (fake `TMUX`/`TMUX_PANE`, shim
    /// first on `PATH`, the agent-teams flag).
    pub tmux_shim: bool,
    /// Set `CLAUDE_CODE_EXPERIMENTAL_AGENT_TEAMS=1`.
    pub claude_agent_teams: bool,
}

impl Default for AgentConfig {
    fn default() -> (c: Self)
        ensures
            c.tmux_shim && c.claude_agent_teams,
    {
        AgentConfig { tmux_shim: true, claude_agent_teams: true }
    }
}

/// Colour settings: `#rrggbb` strings; an empty cursor colour means the
/// foreground colour.
#[derive(Debug, Clone)]
pub struct ColorConfig {
    pub background: String,
    pub foreground: String,
    pub cursor: String,
}

impl Default for ColorConfig {
    fn default() -> (c: Self)
        ensures
            c.background@ == "#0c0c0c"@,
            c.foreground@ == "#cccccc"@,
            c.cursor@ == Seq::<char>::empty(),
    {
        ColorConfig {
            background: owned("#0c0c0c"),
            foreground: owned("#cccccc"),
            cursor: String::new(),
        }
    }
}

/// The colour a setting names, or a fallback when it does not parse.
pub open spec fn color_or(setting: Seq<char>, fallback: Rgba) -> Rgba {
    match hex_triplet(hex_body(setting)) {
        Some((r, g, b)) => Rgba { r, g, b, a: 255 },
        None => fallback,
    }
}

impl ColorConfig {
    /// Whether every colour setting can be parsed (none of them is text on
    /// which the parsers stop), as `Palette::from_config` requires.
    pub fn parsable(&self) -> (r: bool)
        ensures
            r == (!hex_slice_panics(hex_body(self.foreground@)) && !hex_slice_panics(
                hex_body(self.background@),
            ) && !hex_slice_panics(hex_body(self.cursor@))),
    {
        !hex_setting_panics(self.foreground.as_str()) && !hex_setting_panics(self.background.as_str())
            && !hex_setting_panics(self.cursor.as_str())
    }

    /// Foreground colour; `#cccccc` when the setting does not parse.
    pub fn fg(&self) -> (c: Rgba)
        requires
            !hex_slice_panics(hex_body(self.foreground@)),
        ensures
            c == color_or(self.foreground@, Rgba { r: 0xcc, g: 0xcc, b: 0xcc, a: 255 }),
    {
        match parse_hex(self.foreground.as_str()) {
            Some(c) => c,
            None => Rgba::rgb(0xcc, 0xcc, 0xcc),
        }
    }

    /// Background colour; `#0c0c0c` when the setting does not parse.
    pub fn bg(&self) -> (c: Rgba)
        requires
            !hex_slice_panics(hex_body(self.background@)),
        ensures
            c == color_or(self.background@, Rgba { r: 0x0c, g: 0x0c, b: 0x0c, a: 255 }),
    {
        match parse_hex(self.background.as_str()) {
            Some(c) => c,
            None => Rgba::rgb(0x0c, 0x0c, 0x0c),
        }
    }

    /// Cursor colour; the foreground colour when the setting does not parse.
    pub fn cursor_color(&self) -> (c: Rgba)
        requires
            !hex_slice_panics(hex_body(self.cursor@)),
            !hex_slice_panics(hex_body(self.foreground@)),
        ensures
            c == color_or(
                self.cursor@,
                color_or(self.foreground@, Rgba { r: 0xcc, g: 0xcc, b: 0xcc, a: 255 }),
            ),
    {
        match parse_hex(self.cursor.as_str()) {
            Some(c) => c,
            None => self.fg(),
        }
    }
}

/// Scrollback settings.
#[derive(Debug, Clone)]
pub struct ScrollbackConfig {
    pub max_lines: usize,
}

impl Default for ScrollbackConfig {
    fn default() -> (c: Self)
        ensures
            c.max_lines == 10_000,
    {
        ScrollbackConfig { max_lines: 10_000 }
    }
}

/// Shell settings: the program (empty = the platform default shell) and its
/// arguments.
#[derive(Debug, Clone)]
pub struct ShellConfig {
    pub program: String,
    pub args: Vec<String>,
}

impl Default for ShellConfig {
    fn default() -> (c: Self)
        ensures
            c.program@ == Seq::<char>::empty(),
            c.args@.len() == 0,
    {
        ShellConfig { program: String::new(), args: Vec::new() }
    }
}

/// A trimmed setting, or `None` when it is blank.
pub open spec fn non_blank(s: Seq<char>) -> Option<Seq<char>> {
    if trim_seq(s).len() == 0 {
        None
    } else {
        Some(trim_seq(s))
    }
}

/// The trimmed setting, or `None` when it is blank (font family, shell
/// program).
pub fn non_blank_setting(s: &str) -> (r: Option<String>)
    ensures
        match r {
            Some(t) => non_blank(s@) == Some(t@),
            None => non_blank(s@) is None,
        },
{
    let v = chars_of(s);
    let t = trim_chars(v.as_slice());
    if t.len() == 0 {
        None
    } else {
        Some(string_from_chars(t.as_slice()))
    }
}

impl ShellConfig {
    /// The shell program, trimmed; `None` when blank (platform default).
    pub fn shell_program(&self) -> (r: Option<String>)
        ensures
            match r {
                Some(t) => non_blank(self.program@) == Some(t@),
                None => non_blank(self.program@) is None,
            },
    {
        non_blank_setting(self.program.as_str())
    }
}

/// Direct shortcuts, as strings such as `"Ctrl+Shift+D"` (no prefix key).
#[derive(Debug, Clone)]
pub struct KeybindingConfig {
    pub new_tab: String,
    pub close_tab: String,
    pub close_pane: String,
    pub split_horizontal: String,
    pub split_vertical: String,
    pub next_tab: String,
    pub prev_tab: String,
    pub focus_left: String,
    pub focus_right: String,
    pub focus_up: String,
    pub focus_down: String,
    pub zoom: String,
}

impl Default for KeybindingConfig {
    fn default() -> (c: Self)
        ensures
            c.new_tab@ == "Ctrl+T"@,
            c.close_tab@ == "Ctrl+Shift+W"@,
            c.close_pane@ == "Ctrl+Shift+P"@,
            c.split_horizontal@ == "Ctrl+Shift+D"@,
            c.split_vertical@ == "Ctrl+Shift+E"@,
            c.next_tab@ == "Ctrl+Tab"@,
            c.prev_tab@ == "Ctrl+Shift+Tab"@,
            c.focus_left@ == "Alt+Left"@,
            c.focus_right@ == "Alt+Right"@,
            c.focus_up@ == "Alt+Up"@,
            c.focus_down@ == "Alt+Down"@,
            c.zoom@ == "Ctrl+Shift+Z"@,
    {
        KeybindingConfig {
            new_tab: owned("Ctrl+T"),
            close_tab: owned("Ctrl+Shift+W"),
            close_pane: owned("Ctrl+Shift+P"),
            split_horizontal: owned("Ctrl+Shift+D"),
            split_vertical: owned("Ctrl+Shift+E"),
            next_tab: owned("Ctrl+Tab"),
            prev_tab: owned("Ctrl+Shift+Tab"),
            focus_left: owned("Alt+Left"),
            focus_right: owned("Alt+Right"),
            focus_up: owned("Alt+Up"),
            focus_down: owned("Alt+Down"),
            zoom: owned("Ctrl+Shift+Z"),
        }
    }
}

} // verus!
