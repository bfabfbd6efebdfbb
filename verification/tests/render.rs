use zm_mux::palette::{CellFlags, CursorShape, NamedColor, Palette, TermCell, TermColor};
use zm_mux::raster::{blend_rect, draw_cursor_outline, draw_pane_border, fill_rect, PixelRect};
use zm_mux::runs::{background_runs, text_spans};
use zm_mux::types::{CellSnapshot, ColorConfig, CursorKind, GridSize, RenderCell, Rgba};

#[test]
fn builtin_palette_entries() {
    let p = Palette::builtin();
    assert_eq!(p.entry(1), Rgba::rgb(0xC5, 0x0F, 0x1F));
    assert_eq!(p.entry(16), Rgba::rgb(0, 0, 0));
    assert_eq!(p.entry(17), Rgba::rgb(0, 0, 95));
    assert_eq!(p.entry(231), Rgba::rgb(255, 255, 255));
    assert_eq!(p.entry(232), Rgba::rgb(8, 8, 8));
    assert_eq!(p.entry(255), Rgba::rgb(238, 238, 238));
    assert_eq!(p.named_default(NamedColor::DimRed), p.entry(1));
    assert_eq!(p.named_default(NamedColor::BrightForeground), p.fg);
    assert_eq!(p.resolve(TermColor::Indexed(2), Some(Rgba { r: 1, g: 2, b: 3, a: 0 })), Rgba::rgb(1, 2, 3));
    assert_eq!(p.resolve(TermColor::Named(NamedColor::Cursor), None), p.cursor);
    assert_eq!(p.resolve(TermColor::Spec(9, 8, 7), None), Rgba::rgb(9, 8, 7));
}

#[test]
fn palette_from_config_and_frame() {
    let p = Palette::from_config(&ColorConfig::default());
    assert_eq!(p.bg, Rgba::rgb(0x0c, 0x0c, 0x0c));
    let mut snap = CellSnapshot::new(GridSize::new(3, 2));
    p.clear_frame(&mut snap, GridSize::new(4, 2));
    assert_eq!(snap.cells.len(), 8);
    let red = p.resolve(TermColor::Named(NamedColor::Red), None);
    let flags = CellFlags { bold: true, italic: false, inverse: true, hidden: false, wide_spacer: false, leading_wide_spacer: false };
    p.place_cell(&mut snap, 1, 2, 'R', red, p.bg, flags);
    let c = snap.cells[snap.index(2, 1).unwrap()];
    assert_eq!((c.c, c.fg, c.bg, c.bold), ('R', p.bg, red, true));
    p.place_cell(&mut snap, 5, 0, 'X', red, p.bg, flags);
    let cur = p.cursor_for(CursorShape::HollowBlock, 0, 1, snap.size);
    assert!(cur.visible);
    assert_eq!(cur.kind, CursorKind::Hollow);
    p.set_cursor(&mut snap, cur);
    assert_eq!(snap.cells[1].bg, p.cursor);
    assert!(!p.cursor_for(CursorShape::Hidden, 0, 0, snap.size).visible);
    assert_eq!(p.cursor_for(CursorShape::Beam, -3, 70000, snap.size).row, 0);
    assert_eq!(p.cursor_for(CursorShape::Beam, -3, 70000, snap.size).col, 65535);
}

#[test]
fn raster_shapes() {
    let mut buf = vec![0u32; 5 * 4];
    fill_rect(&mut buf, 5, 4, 3, 2, 4, 4, 7);
    assert_eq!(buf[2 * 5 + 3], 7);
    assert_eq!(buf[3 * 5 + 4], 7);
    assert_eq!(buf[2 * 5 + 2], 0);
    let mut buf = vec![0u32; 4 * 4];
    draw_cursor_outline(&mut buf, 4, 4, 0, 0, 3, 3, 1);
    assert_eq!(buf[1 * 4 + 1], 0);
    assert_eq!(buf[0], 1);
    assert_eq!(buf[2 * 4 + 2], 1);
    let mut buf = vec![0u32; 6 * 6];
    draw_pane_border(&mut buf, 6, 6, &PixelRect { x: 1, y: 1, width: 2, height: 2 }, 9);
    assert_eq!(buf[0 * 6 + 1], 9);
    assert_eq!(buf[3 * 6 + 2], 9);
    assert_eq!(buf[1 * 6 + 0], 9);
    assert_eq!(buf[2 * 6 + 3], 9);
    assert_eq!(buf[0], 0);
    assert_eq!(buf[1 * 6 + 1], 0);
    let mut buf = vec![0x00ff_ffffu32; 2 * 2];
    blend_rect(&mut buf, 2, 2, -1, 0, 2, 1, 0, 0, 0, 255);
    assert_eq!(buf[0], 0);
    assert_eq!(buf[1], 0x00ff_ffff);
    blend_rect(&mut buf, 2, 2, 1, 1, 1, 1, 0, 0, 0, 0);
    assert_eq!(buf[3], 0x00ff_ffff);
    blend_rect(&mut buf, 2, 2, 1, 1, 1, 1, 0, 0, 0, 128);
    assert_eq!(buf[3], 0x007f_7f7f);
}

#[test]
fn frames_do_not_depend_on_what_they_held() {
    let p = Palette::from_config(&ColorConfig::default());
    let mut a = CellSnapshot::new(GridSize::new(7, 5));
    let mut b = CellSnapshot::new(GridSize::new(2, 2));
    b.cells[0].c = 'Z';
    b.cursor.row = 1;
    let size = GridSize::new(4, 3);
    let flags = CellFlags { bold: false, italic: true, inverse: false, hidden: false, wide_spacer: false, leading_wide_spacer: false };
    for f in [&mut a, &mut b] {
        p.clear_frame(f, size);
        p.place_cell(f, 0, 1, 'h', p.fg, p.bg, flags);
        p.place_cell(f, 2, 3, 'i', p.fg, p.bg, flags);
        let cur = p.cursor_for(CursorShape::Block, 2, 3, size);
        p.set_cursor(f, cur);
    }
    assert_eq!(a.size, size);
    assert_eq!(a.cells.len(), 12);
    assert_eq!(a.cells, b.cells);
    assert_eq!(a.cursor, b.cursor);
    assert_eq!((a.default_fg, a.default_bg), (p.fg, p.bg));
}

#[test]
fn row_spans_and_background_runs() {
    let base = Rgba::rgb(0, 0, 0);
    let red = Rgba::rgb(200, 0, 0);
    let blue = Rgba::rgb(0, 0, 200);
    let cell = |fg: Rgba, bg: Rgba, bold: bool| RenderCell { c: 'x', fg, bg, bold, italic: false, inverse: false };
    let row = vec![
        cell(red, base, false),
        cell(red, red, false),
        cell(red, red, true),
        cell(blue, blue, true),
        cell(blue, base, true),
        cell(blue, blue, true),
    ];
    assert_eq!(text_spans(&row), vec![(0, 2), (2, 3), (3, 6)]);
    assert_eq!(background_runs(&row, base), vec![(1, 3), (3, 4), (5, 6)]);
    assert_eq!(text_spans(&[]), vec![]);
    assert_eq!(background_runs(&row[..1], base), vec![]);
}

#[test]
fn snapshots_do_not_depend_on_the_old_frame() {
    let p = Palette::from_config(&ColorConfig::default());
    let plain = CellFlags { bold: false, italic: false, inverse: false, hidden: false, wide_spacer: false, leading_wide_spacer: false };
    let screen = [
        TermCell { line: 0, col: 0, c: 'o', fg: TermColor::Indexed(1), fg_override: None, bg: TermColor::Named(NamedColor::Background), bg_override: None, flags: plain },
        TermCell { line: 1, col: 2, c: 'k', fg: TermColor::Spec(1, 2, 3), fg_override: None, bg: TermColor::Indexed(4), bg_override: Some(Rgba::rgb(9, 9, 9)), flags: plain },
        TermCell { line: 7, col: 0, c: 'x', fg: TermColor::Indexed(1), fg_override: None, bg: TermColor::Indexed(1), bg_override: None, flags: plain },
    ];
    let size = GridSize::new(3, 2);
    let mut a = CellSnapshot::new(GridSize::new(10, 10));
    let mut b = CellSnapshot::new(GridSize::new(1, 1));
    b.cells[0].c = 'Q';
    p.render_frame(&mut a, size, &screen, CursorShape::Block, 0, 1);
    p.render_frame(&mut b, size, &screen, CursorShape::Block, 0, 1);
    assert_eq!(a.size, size);
    assert_eq!(a.cells.len(), 6);
    assert_eq!(a.cells, b.cells);
    assert_eq!(a.cursor, b.cursor);
    assert_eq!(a.cells[0].c, 'o');
    assert_eq!(a.cells[0].fg, Rgba::rgb(0xC5, 0x0F, 0x1F));
    assert_eq!(a.cells[5].bg, Rgba::rgb(9, 9, 9));
    assert_eq!(a.cells[1].bg, p.cursor);
    assert_eq!((a.default_fg, a.default_bg), (p.fg, p.bg));
}
