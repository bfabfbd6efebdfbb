use zm_mux::keys::{
    build_keymap, key_to_bytes, parse_chord, parse_dir, parse_key, Action, Chord, ChordKey, Dir,
    KeyInput, Mods, NamedKey,
};
use zm_mux::types::KeybindingConfig;

const NONE: Mods = Mods { ctrl: false, shift: false, alt: false };

#[test]
fn directions_and_keys() {
    assert_eq!(parse_dir(" Left "), Some(Dir::Left));
    assert_eq!(parse_dir("d"), Some(Dir::Down));
    assert_eq!(parse_dir("north"), None);
    assert_eq!(parse_key("PageUp"), Some(ChordKey::Named(NamedKey::PageUp)));
    assert_eq!(parse_key("T"), Some(ChordKey::Char('t')));
    assert_eq!(parse_key("tt"), None);
}

#[test]
fn chords() {
    let c = parse_chord("Ctrl+Shift+D").unwrap();
    assert_eq!(c, Chord { ctrl: true, shift: true, alt: false, key: ChordKey::Char('d') });
    assert_eq!(parse_chord("win+alt+left").unwrap().key, ChordKey::Named(NamedKey::ArrowLeft));
    assert!(parse_chord("   ").is_none());
    assert!(parse_chord("Ctrl+Shift").is_none());
    assert!(parse_chord("Ctrl+Nope").is_none());
    let m = Mods { ctrl: true, shift: true, alt: false };
    assert!(c.matches(&KeyInput::Character("D".to_string()), m));
    assert!(!c.matches(&KeyInput::Character("D".to_string()), NONE));
    assert!(!c.matches(&KeyInput::Named(NamedKey::Tab), m));
}

#[test]
fn default_keymap_has_every_shortcut() {
    let km = build_keymap(&KeybindingConfig::default());
    assert_eq!(km.len(), 12);
    assert_eq!(km[0].1, Action::NewTab);
    assert_eq!(km[11].1, Action::ZoomToggle);
    let mut kb = KeybindingConfig::default();
    kb.zoom = "Ctrl+Bogus".to_string();
    assert_eq!(build_keymap(&kb).len(), 11);
}

#[test]
fn key_bytes() {
    let ctrl = Mods { ctrl: true, shift: false, alt: false };
    let shift = Mods { ctrl: false, shift: true, alt: false };
    let alt = Mods { ctrl: false, shift: false, alt: true };
    assert_eq!(key_to_bytes(&KeyInput::Named(NamedKey::Enter), None, NONE, false), Some(b"\r".to_vec()));
    assert_eq!(key_to_bytes(&KeyInput::Named(NamedKey::Enter), None, shift, true), Some(b"\x1b[13;2u".to_vec()));
    assert_eq!(key_to_bytes(&KeyInput::Named(NamedKey::Space), None, ctrl, false), Some(vec![0]));
    assert_eq!(key_to_bytes(&KeyInput::Named(NamedKey::Other), None, NONE, false), None);
    assert_eq!(key_to_bytes(&KeyInput::Character("c".to_string()), Some("c"), ctrl, false), Some(vec![3]));
    assert_eq!(key_to_bytes(&KeyInput::Character("[".to_string()), None, ctrl, false), Some(vec![0x1b]));
    assert_eq!(key_to_bytes(&KeyInput::Character("x".to_string()), Some("x"), alt, false), Some(b"\x1bx".to_vec()));
    assert_eq!(key_to_bytes(&KeyInput::Character("é".to_string()), None, NONE, false), Some("é".as_bytes().to_vec()));
    assert_eq!(key_to_bytes(&KeyInput::Unidentified, None, NONE, false), None);
}
