use zm_mux::types::{hex_setting_panics, parse_hex, CellSnapshot, ColorConfig, GridSize, Rgba};

#[test]
fn grid_min_one() {
    let g = GridSize::new(0, 0);
    assert_eq!(g.cols, 1);
    assert_eq!(g.rows, 1);
}

#[test]
fn snapshot_index() {
    let s = CellSnapshot::new(GridSize::new(80, 24));
    assert_eq!(s.cells.len(), 80 * 24);
    assert_eq!(s.index(0, 0), Some(0));
    assert_eq!(s.index(79, 23), Some(23 * 80 + 79));
    assert_eq!(s.index(80, 0), None);
}

#[test]
fn cell_count_and_resize() {
    let g = GridSize::new(10, 3);
    assert_eq!(g.cell_count(), 30);
    let mut s = CellSnapshot::new(g);
    s.resize(GridSize::new(4, 5));
    assert_eq!(s.cells.len(), 20);
    assert_eq!(s.size, GridSize::new(4, 5));
}

#[test]
fn hex_colors() {
    assert_eq!(parse_hex("#0c0c0c"), Some(Rgba::rgb(0x0c, 0x0c, 0x0c)));
    assert_eq!(parse_hex("ffffff"), Some(Rgba::rgb(255, 255, 255)));
    assert_eq!(parse_hex("#12345"), None);
    assert_eq!(parse_hex("zzzzzz"), None);
    let c = ColorConfig::default();
    assert_eq!(c.bg(), Rgba::rgb(0x0c, 0x0c, 0x0c));
    assert_eq!(c.fg(), Rgba::rgb(0xcc, 0xcc, 0xcc));
    assert_eq!(c.cursor_color(), c.fg());
}

#[test]
fn hex_colours_take_digits_only() {
    assert_eq!(parse_hex("+1+2+3"), None);
    assert_eq!(parse_hex("#+1+2+3"), None);
    assert_eq!(parse_hex("-1a2b3"), None);
    assert_eq!(parse_hex(" #1a2B3c "), Some(Rgba::rgb(0x1a, 0x2b, 0x3c)));
}

#[test]
fn colour_settings_that_stop_the_parser() {
    assert!(hex_setting_panics("a\u{e9}123"));
    assert!(!hex_setting_panics("\u{e9}1234"));
    assert!(!hex_setting_panics("#1a2b3c"));
    assert!(!hex_setting_panics("zz"));
    assert!(ColorConfig::default().parsable());
    let bad = ColorConfig { cursor: "a\u{e9}123".to_string(), ..ColorConfig::default() };
    assert!(!bad.parsable());
}
