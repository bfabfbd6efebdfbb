use zm_mux::keybinding::{KeyBinding, KeyDef, ModBits};

#[test]
fn parse_simple() {
    let kb: KeyBinding = "Ctrl+T".parse().unwrap();
    assert_eq!(kb.mods, ModBits::ctrl());
    assert_eq!(kb.key, KeyDef::Char('T'));
}

#[test]
fn parse_ctrl_shift() {
    let kb: KeyBinding = "Ctrl+Shift+D".parse().unwrap();
    assert_eq!(kb.mods, ModBits::ctrl() | ModBits::shift());
    assert_eq!(kb.key, KeyDef::Char('D'));
}

#[test]
fn parse_named_key() {
    let kb: KeyBinding = "Alt+Left".parse().unwrap();
    assert_eq!(kb.mods, ModBits::alt());
    assert_eq!(kb.key, KeyDef::ArrowLeft);
}

#[test]
fn parse_ctrl_tab() {
    let kb: KeyBinding = "Ctrl+Tab".parse().unwrap();
    assert_eq!(kb.mods, ModBits::ctrl());
    assert_eq!(kb.key, KeyDef::Tab);
}

#[test]
fn parse_aliases() {
    assert_eq!(
        "Control+Return".parse::<KeyBinding>().unwrap(),
        "Ctrl+Enter".parse::<KeyBinding>().unwrap()
    );
    assert_eq!(
        "Win+T".parse::<KeyBinding>().unwrap(),
        "Super+T".parse::<KeyBinding>().unwrap()
    );
}

#[test]
fn parse_rejects_empty() {
    assert!("".parse::<KeyBinding>().is_err());
    assert!("Ctrl++T".parse::<KeyBinding>().is_err());
    assert!("Ctrl+".parse::<KeyBinding>().is_err());
}

#[test]
fn parse_rejects_multiple_keys() {
    assert!("Ctrl+T+W".parse::<KeyBinding>().is_err());
}

#[test]
fn parse_rejects_only_modifiers() {
    assert!("Ctrl+Shift".parse::<KeyBinding>().is_err());
}

#[test]
fn matches_case_insensitive_char() {
    let kb: KeyBinding = "Ctrl+T".parse().unwrap();
    assert!(kb.matches(ModBits::ctrl(), &KeyDef::Char('t')));
    assert!(kb.matches(ModBits::ctrl(), &KeyDef::Char('T')));
    assert!(!kb.matches(ModBits::ctrl() | ModBits::shift(), &KeyDef::Char('T')));
}

#[test]
fn matches_named_exact() {
    let kb: KeyBinding = "Alt+Left".parse().unwrap();
    assert!(kb.matches(ModBits::alt(), &KeyDef::ArrowLeft));
    assert!(!kb.matches(ModBits::alt(), &KeyDef::ArrowRight));
    assert!(!kb.matches(ModBits::empty(), &KeyDef::ArrowLeft));
}

#[test]
fn modbits_contains() {
    let m = ModBits::ctrl() | ModBits::shift();
    assert!(m.contains(ModBits::ctrl()));
    assert!(m.contains(ModBits::shift()));
    assert!(!m.contains(ModBits::alt()));
}

#[test]
fn modbits_values_and_union() {
    assert_eq!(ModBits::empty().bits(), 0);
    assert_eq!(ModBits::ctrl().bits(), 1);
    assert_eq!(ModBits::shift().bits(), 2);
    assert_eq!(ModBits::alt().bits(), 4);
    assert_eq!(ModBits::super_key().bits(), 8);
    let mut m = ModBits::alt();
    m |= ModBits::super_key();
    assert_eq!(m.bits(), 12);
    assert_eq!(ModBits::ctrl().union(ModBits::alt()).bits(), 5);
}

#[test]
fn parse_error_messages_and_space_key() {
    let kb: KeyBinding = "  Ctrl + Space ".parse().unwrap();
    assert_eq!(kb.mods, ModBits::ctrl());
    assert_eq!(kb.key, KeyDef::Space);
    assert_eq!(KeyBinding::parse_str("ctrl+T").unwrap_err(), "unknown key token: \"ctrl\"");
    assert_eq!(KeyBinding::parse_str("Ctrl+T+W").unwrap_err(), "multiple keys in binding: \"Ctrl+T+W\"");
    assert_eq!(KeyBinding::parse_str("Ctrl").unwrap_err(), "no key in binding: \"Ctrl\"");
}
