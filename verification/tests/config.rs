use zm_mux::config::{config_dir, config_path, ColorsConfig, KeyBindingsConfig};
use zm_mux::session::Platform;
use zm_mux::keybinding::KeyBinding;

#[test]
fn default_keybindings_parse_clean() {
    let cfg = KeyBindingsConfig::default();
    let parsed = cfg.parse().expect("default keybindings must parse");
    assert_eq!(parsed.new_tab, "Ctrl+T".parse::<KeyBinding>().unwrap());
    assert_eq!(parsed.close_tab, "Ctrl+Shift+W".parse::<KeyBinding>().unwrap());
    assert_eq!(parsed.close_pane, "Ctrl+Shift+P".parse::<KeyBinding>().unwrap());
    assert_eq!(parsed.focus_left, "Alt+Left".parse::<KeyBinding>().unwrap());
}

#[test]
fn malformed_keybinding_reports_field_name() {
    let mut cfg = KeyBindingsConfig::default();
    cfg.new_tab = "NotAKey".to_string();
    let err = cfg.parse().unwrap_err();
    assert!(err.contains("new_tab"));
    assert!(err.contains("NotAKey"));
}

#[test]
fn colors_hex_round_trip() {
    let cfg = ColorsConfig::default();
    assert_eq!(cfg.background_rgb(), (0x1a, 0x1a, 0x2e));
    assert_eq!(cfg.foreground_rgb(), (0xe0, 0xe0, 0xe0));

    let custom = ColorsConfig {
        background: "#102030".to_string(),
        foreground: "abcdef".to_string(),
    };
    assert_eq!(custom.background_rgb(), (0x10, 0x20, 0x30));
    assert_eq!(custom.foreground_rgb(), (0xab, 0xcd, 0xef));

    let bad = ColorsConfig {
        background: "nope".to_string(),
        foreground: "#12".to_string(),
    };
    assert_eq!(bad.background_rgb(), (0x1a, 0x1a, 0x2e));
    assert_eq!(bad.foreground_rgb(), (0xe0, 0xe0, 0xe0));
}

#[test]
fn malformed_second_field_is_the_one_reported() {
    let mut cfg = KeyBindingsConfig::default();
    cfg.paste = "Ctrl+Shift".to_string();
    let err = cfg.parse().unwrap_err();
    assert!(err.contains("paste"));
}

#[test]
fn config_file_location() {
    let s = |v: &str| Some(v.to_string());
    assert_eq!(config_path(Platform::Other, s("/etc/zm.toml"), None, None, None), Some(vec!["/etc/zm.toml".to_string()]));
    assert_eq!(
        config_path(Platform::Windows, None, s("C:\\A"), s("/x"), None),
        Some(vec!["C:\\A".to_string(), "zm-mux".to_string(), "config.toml".to_string()])
    );
    assert_eq!(config_path(Platform::Windows, None, None, s("/x"), s("/h")), None);
    assert_eq!(
        config_path(Platform::MacOs, None, None, None, s("/h")),
        Some(vec!["/h".to_string(), ".config".to_string(), "zm-mux".to_string(), "config.toml".to_string()])
    );
    assert_eq!(config_path(Platform::Other, None, None, None, None), None);
}

#[test]
fn settings_directory() {
    let s = |v: &str| Some(v.to_string());
    assert_eq!(
        config_dir(Platform::MacOs, None, s("/x"), s("/h")),
        Some(vec!["/h".to_string(), "Library".to_string(), "Application Support".to_string(), "zm-mux".to_string()])
    );
    assert_eq!(config_dir(Platform::Windows, None, s("/x"), s("/h")), None);
    assert_eq!(
        config_dir(Platform::Other, None, s("/x"), s("/h")),
        Some(vec!["/x".to_string(), "zm-mux".to_string()])
    );
}

#[test]
fn hex_colour_settings_take_digits_only() {
    let signed = ColorsConfig { background: "+1+2+3".to_string(), foreground: "#+a+b+c".to_string() };
    assert_eq!(signed.background_rgb(), (0x1a, 0x1a, 0x2e));
    assert_eq!(signed.foreground_rgb(), (0xe0, 0xe0, 0xe0));
}
