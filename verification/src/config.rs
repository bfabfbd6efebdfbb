//! Settings sections of the configuration file: key bindings (as strings
//! and parsed), colours, shell and scrollback.

use vstd::prelude::*;
use crate::keybinding::{KeyBinding, binding_spec, result_view};
use crate::text::{
    chars_of, concat2, debug_quoted, debug_str, owned, trim_chars, trim_seq, slice_to_vec,
};
use crate::types::{hex_triplet, hex_slice_panics, parse_triplet};
use crate::session::{opt_view, Platform};
use crate::text::string_views;

pub use crate::types::{ShellConfig, ScrollbackConfig};

verus! {

/// Shortcut strings of the application (no prefix key).
#[derive(Debug, Clone)]
pub struct KeyBindingsConfig {
    pub new_tab: String,
    pub close_tab: String,
    pub close_pane: String,
    pub split_horizontal: String,
    pub split_vertical: String,
    pub next_tab: String,
    pub prev_tab: String,
    pub focus_left: String,
    pub focus_right: String,
    pub focus_up: String,
    pub focus_down: String,
    pub search: String,
    pub copy: String,
    pub paste: String,
    pub select_all: String,
}

impl Default for KeyBindingsConfig {
    fn default() -> (c: Self)
        ensures
            c.new_tab@ == "Ctrl+T"@,
            c.close_tab@ == "Ctrl+Shift+W"@,
            c.close_pane@ == "Ctrl+Shift+P"@,
            c.split_horizontal@ == "Ctrl+Shift+D"@,
            c.split_vertical@ == "Ctrl+Shift+E"@,
            c.next_tab@ == "Ctrl+Tab"@,
            c.prev_tab@ == "Ctrl+Shift+Tab"@,
            c.focus_left@ == "Alt+Left"@,
            c.focus_right@ == "Alt+Right"@,
            c.focus_up@ == "Alt+Up"@,
            c.focus_down@ == "Alt+Down"@,
            c.search@ == "Ctrl+Shift+F"@,
            c.copy@ == "Ctrl+Shift+C"@,
            c.paste@ == "Ctrl+Shift+V"@,
            c.select_all@ == "Ctrl+Shift+A"@,
    {
        KeyBindingsConfig {
            new_tab: owned("Ctrl+T"),
            close_tab: owned("Ctrl+Shift+W"),
            close_pane: owned("Ctrl+Shift+P"),
            split_horizontal: owned("Ctrl+Shift+D"),
            split_vertical: owned("Ctrl+Shift+E"),
            next_tab: owned("Ctrl+Tab"),
            prev_tab: owned("Ctrl+Shift+Tab"),
            focus_left: owned("Alt+Left"),
            focus_right: owned("Alt+Right"),
            focus_up: owned("Alt+Up"),
            focus_down: owned("Alt+Down"),
            search: owned("Ctrl+Shift+F"),
            copy: owned("Ctrl+Shift+C"),
            paste: owned("Ctrl+Shift+V"),
            select_all: owned("Ctrl+Shift+A"),
        }
    }
}

/// Every shortcut of [`KeyBindingsConfig`], parsed.
#[derive(Debug, Clone)]
pub struct ParsedKeyBindings {
    pub new_tab: KeyBinding,
    pub close_tab: KeyBinding,
    pub close_pane: KeyBinding,
    pub split_horizontal: KeyBinding,
    pub split_vertical: KeyBinding,
    pub next_tab: KeyBinding,
    pub prev_tab: KeyBinding,
    pub focus_left: KeyBinding,
    pub focus_right: KeyBinding,
    pub focus_up: KeyBinding,
    pub focus_down: KeyBinding,
    pub search: KeyBinding,
    pub copy: KeyBinding,
    pub paste: KeyBinding,
    pub select_all: KeyBinding,
}

impl ParsedKeyBindings {
    /// The bindings in field order.
    pub open spec fn as_seq(self) -> Seq<KeyBinding> {
        seq![
            self.new_tab,
            self.close_tab,
            self.close_pane,
            self.split_horizontal,
            self.split_vertical,
            self.next_tab,
            self.prev_tab,
            self.focus_left,
            self.focus_right,
            self.focus_up,
            self.focus_down,
            self.search,
            self.copy,
            self.paste,
            self.select_all,
        ]
    }
}

/// The message for a field that does not parse:
/// `keybindings.{name} = {value:?}: {error}`.
pub open spec fn field_error(name: Seq<char>, value: Seq<char>, e: Seq<char>) -> Seq<char> {
    "keybindings."@ + name + " = "@ + debug_str(value) + ": "@ + e
}

/// Parses `(name, value)` fields in order, stopping at the first error.
pub open spec fn parse_all(fields: Seq<(Seq<char>, Seq<char>)>) -> Result<Seq<KeyBinding>, Seq<char>>
    decreases fields.len(),
{
    if fields.len() == 0 {
        Ok(Seq::empty())
    } else {
        match binding_spec(fields[0].1) {
            Err(e) => Err(field_error(fields[0].0, fields[0].1, e)),
            Ok(k) => match parse_all(fields.drop_first()) {
                Ok(ks) => Ok(seq![k] + ks),
                Err(m) => Err(m),
            },
        }
    }
}

fn parse_field(name: &str, value: &str) -> (r: Result<KeyBinding, String>)
    ensures
        match binding_spec(value@) {
            Ok(k) => r == Ok::<KeyBinding, String>(k),
            Err(e) => r is Err && r->Err_0@ == field_error(name@, value@, e),
        },
{
    match KeyBinding::parse_str(value) {
        Ok(k) => Ok(k),
        Err(e) => {
            let d = debug_quoted(value);
            let m1 = concat2("keybindings.", name);
            let m2 = concat2(m1.as_str(), " = ");
            let m3 = concat2(m2.as_str(), d.as_str());
            let m4 = concat2(m3.as_str(), ": ");
            let m5 = concat2(m4.as_str(), e.as_str());
            Err(m5)
        },
    }
}

impl KeyBindingsConfig {
    /// The `(field name, binding string)` pairs in field order.
    pub open spec fn fields(self) -> Seq<(Seq<char>, Seq<char>)> {
        seq![
            ("new_tab"@, self.new_tab@),
            ("close_tab"@, self.close_tab@),
            ("close_pane"@, self.close_pane@),
            ("split_horizontal"@, self.split_horizontal@),
            ("split_vertical"@, self.split_vertical@),
            ("next_tab"@, self.next_tab@),
            ("prev_tab"@, self.prev_tab@),
            ("focus_left"@, self.focus_left@),
            ("focus_right"@, self.focus_right@),
            ("focus_up"@, self.focus_up@),
            ("focus_down"@, self.focus_down@),
            ("search"@, self.search@),
            ("copy"@, self.copy@),
            ("paste"@, self.paste@),
            ("select_all"@, self.select_all@),
        ]
    }
}


/// Views of `(name, value)` string pairs.
pub open spec fn pair_views(v: Seq<(&str, &str)>) -> Seq<(Seq<char>, Seq<char>)> {
    v.map_values(|p: (&str, &str)| (p.0@, p.1@))
}

impl KeyBindingsConfig {
    /// Parses every shortcut string, in field order; stops at the first one
    /// that does not parse and reports it as
    /// `keybindings.{field} = {value:?}: {error}`.
    pub fn parse(&self) -> (r: Result<ParsedKeyBindings, String>)
        ensures
            match parse_all(self.fields()) {
                Ok(ks) => r is Ok && r->Ok_0.as_seq() == ks,
                Err(m) => r is Err && r->Err_0@ == m,
            },
    {
        let mut fields: Vec<(&str, &str)> = Vec::new();
        fields.push(("new_tab", self.new_tab.as_str()));
        fields.push(("close_tab", self.close_tab.as_str()));
        fields.push(("close_pane", self.close_pane.as_str()));
        fields.push(("split_horizontal", self.split_horizontal.as_str()));
        fields.push(("split_vertical", self.split_vertical.as_str()));
        fields.push(("next_tab", self.next_tab.as_str()));
        fields.push(("prev_tab", self.prev_tab.as_str()));
        fields.push(("focus_left", self.focus_left.as_str()));
        fields.push(("focus_right", self.focus_right.as_str()));
        fields.push(("focus_up", self.focus_up.as_str()));
        fields.push(("focus_down", self.focus_down.as_str()));
        fields.push(("search", self.search.as_str()));
        fields.push(("copy", self.copy.as_str()));
        fields.push(("paste", self.paste.as_str()));
        fields.push(("select_all", self.select_all.as_str()));
        proof {
            assert(pair_views(fields@) =~= self.fields());
            assert(pair_views(fields@).skip(0) =~= pair_views(fields@));
        }
        let mut res: Vec<KeyBinding> = Vec::new();
        let mut i: usize = 0;
        while i < fields.len()
            invariant
                fields@.len() == 15,
                pair_views(fields@) == self.fields(),
                i <= 15,
                res@.len() == i,
                parse_all(self.fields()) == (match parse_all(pair_views(fields@).skip(i as int)) {
                    Ok(ks) => Ok(res@ + ks),
                    Err(m) => Err(m),
                }),
            decreases 15 - i,
        {
            let ghost rest = pair_views(fields@).skip(i as int);
            proof {
                assert(rest[0] == (fields@[i as int].0@, fields@[i as int].1@));
                assert(rest.drop_first() =~= pair_views(fields@).skip(i + 1));
            }
            let (name, value) = fields[i];
            match parse_field(name, value) {
                Ok(k) => {
                    proof {
                        let ghost r0 = res@;
                        match parse_all(rest.drop_first()) {
                            Ok(ks) => {
                                assert(r0 + (seq![k] + ks) =~= r0.push(k) + ks);
                            },
                            Err(m) => {},
                        }
                    }
                    res.push(k);
                },
                Err(e) => {
                    return Err(e);
                },
            }
            i = i + 1;
        }
        proof {
            assert(pair_views(fields@).skip(15) =~= Seq::<(Seq<char>, Seq<char>)>::empty());
            assert(res@ + Seq::<KeyBinding>::empty() =~= res@);
        }
        let p = ParsedKeyBindings {
            new_tab: res[0],
            close_tab: res[1],
            close_pane: res[2],
            split_horizontal: res[3],
            split_vertical: res[4],
            next_tab: res[5],
            prev_tab: res[6],
            focus_left: res[7],
            focus_right: res[8],
            focus_up: res[9],
            focus_down: res[10],
            search: res[11],
            copy: res[12],
            paste: res[13],
            select_all: res[14],
        };
        proof {
            assert(p.as_seq() =~= res@);
        }
        Ok(p)
    }
}

/// Colours of the configuration file: `#rrggbb` strings.
#[derive(Debug, Clone)]
pub struct ColorsConfig {
    pub background: String,
    pub foreground: String,
}

impl Default for ColorsConfig {
    fn default() -> (c: Self)
        ensures
            c.background@ == "#1a1a2e"@,
            c.foreground@ == "#e0e0e0"@,
    {
        ColorsConfig { background: owned("#1a1a2e"), foreground: owned("#e0e0e0") }
    }
}

/// `"#rrggbb"` or `"rrggbb"` after `trim()` and removing one leading `#`.
pub open spec fn hex_color_body(s: Seq<char>) -> Seq<char> {
    let t = trim_seq(s);
    if t.len() > 0 && t[0] == '#' {
        t.drop_first()
    } else {
        t
    }
}

/// Parses `"#rrggbb"` / `"rrggbb"` (white space trimmed, one `#` dropped)
/// into an RGB triple.
pub fn parse_hex_color(s: &str) -> (r: Option<(u8, u8, u8)>)
    requires
        !hex_slice_panics(hex_color_body(s@)),
    ensures
        r == hex_triplet(hex_color_body(s@)),
{
    let v = chars_of(s);
    let t = trim_chars(v.as_slice());
    let start: usize = if t.len() > 0 && t[0] == '#' { 1 } else { 0 };
    let h = slice_to_vec(t.as_slice(), start, t.len());
    proof {
        assert(h@ =~= hex_color_body(s@));
    }
    parse_triplet(h.as_slice())
}

/// The triple a colour setting names, or a fallback.
pub open spec fn triple_or(setting: Seq<char>, fallback: (u8, u8, u8)) -> (u8, u8, u8) {
    match hex_triplet(hex_color_body(setting)) {
        Some(t) => t,
        None => fallback,
    }
}

impl ColorsConfig {
    /// Background as RGB; `(0x1a, 0x1a, 0x2e)` when it does not parse.
    pub fn background_rgb(&self) -> (r: (u8, u8, u8))
        requires
            !hex_slice_panics(hex_color_body(self.background@)),
        ensures
            r == triple_or(self.background@, (0x1au8, 0x1au8, 0x2eu8)),
    {
        match parse_hex_color(self.background.as_str()) {
            Some(t) => t,
            None => (0x1a, 0x1a, 0x2e),
        }
    }

    /// Foreground as RGB; `(0xe0, 0xe0, 0xe0)` when it does not parse.
    pub fn foreground_rgb(&self) -> (r: (u8, u8, u8))
        requires
            !hex_slice_panics(hex_color_body(self.foreground@)),
        ensures
            r == triple_or(self.foreground@, (0xe0u8, 0xe0u8, 0xe0u8)),
    {
        match parse_hex_color(self.foreground.as_str()) {
            Some(t) => t,
            None => (0xe0, 0xe0, 0xe0),
        }
    }
}


/// The path components of the configuration file: `$ZM_MUX_CONFIG` when
/// set; on Windows `%APPDATA%\zm-mux\config.toml`; elsewhere
/// `$XDG_CONFIG_HOME/zm-mux/config.toml`, else
/// `$HOME/.config/zm-mux/config.toml`; `None` when the variables needed
/// are unset.
pub open spec fn config_path_spec(
    platform: Platform,
    zm_mux_config: Option<Seq<char>>,
    appdata: Option<Seq<char>>,
    xdg_config_home: Option<Seq<char>>,
    home: Option<Seq<char>>,
) -> Option<Seq<Seq<char>>> {
    if zm_mux_config is Some {
        Some(seq![zm_mux_config->0])
    } else if platform == Platform::Windows {
        match appdata {
            Some(a) => Some(seq![a, "zm-mux"@, "config.toml"@]),
            None => None,
        }
    } else if xdg_config_home is Some {
        Some(seq![xdg_config_home->0, "zm-mux"@, "config.toml"@])
    } else {
        match home {
            Some(h) => Some(seq![h, ".config"@, "zm-mux"@, "config.toml"@]),
            None => None,
        }
    }
}

/// The configuration file's path components (see [`config_path_spec`]);
/// the environment values are handed in by the caller.
pub fn config_path(
    platform: Platform,
    zm_mux_config: Option<String>,
    appdata: Option<String>,
    xdg_config_home: Option<String>,
    home: Option<String>,
) -> (r: Option<Vec<String>>)
    ensures
        match r {
            Some(v) => config_path_spec(
                platform,
                opt_view(zm_mux_config),
                opt_view(appdata),
                opt_view(xdg_config_home),
                opt_view(home),
            ) == Some(string_views(v@)),
            None => config_path_spec(
                platform,
                opt_view(zm_mux_config),
                opt_view(appdata),
                opt_view(xdg_config_home),
                opt_view(home),
            ) is None,
        },
{
    let mut v: Vec<String> = Vec::new();
    match zm_mux_config {
        Some(p) => {
            v.push(p);
            proof {
                assert(string_views(v@) =~= seq![opt_view(zm_mux_config)->0]);
            }
            return Some(v);
        },
        None => {},
    }
    let win = match platform {
        Platform::Windows => true,
        _ => false,
    };
    if win {
        match appdata {
            Some(a) => {
                let ghost av = a@;
                v.push(a);
                v.push(owned("zm-mux"));
                v.push(owned("config.toml"));
                proof {
                    assert(string_views(v@) =~= seq![av, "zm-mux"@, "config.toml"@]);
                }
                Some(v)
            },
            None => None,
        }
    } else {
        match xdg_config_home {
            Some(x) => {
                let ghost xv = x@;
                v.push(x);
                v.push(owned("zm-mux"));
                v.push(owned("config.toml"));
                proof {
                    assert(string_views(v@) =~= seq![xv, "zm-mux"@, "config.toml"@]);
                }
                Some(v)
            },
            None => match home {
                Some(h) => {
                    let ghost hv = h@;
                    v.push(h);
                    v.push(owned(".config"));
                    v.push(owned("zm-mux"));
                    v.push(owned("config.toml"));
                    proof {
                        assert(string_views(v@) =~= seq![hv, ".config"@, "zm-mux"@, "config.toml"@]);
                    }
                    Some(v)
                },
                None => None,
            },
        }
    }
}


/// The path components of the settings directory: `%APPDATA%\zm-mux` on
/// Windows, `$HOME/Library/Application Support/zm-mux` on macOS, else
/// `$XDG_CONFIG_HOME/zm-mux`, else `$HOME/.config/zm-mux`; `None` when the
/// variable needed is unset.
pub open spec fn config_dir_spec(
    platform: Platform,
    appdata: Option<Seq<char>>,
    xdg_config_home: Option<Seq<char>>,
    home: Option<Seq<char>>,
) -> Option<Seq<Seq<char>>> {
    if platform == Platform::Windows {
        match appdata {
            Some(a) => Some(seq![a, "zm-mux"@]),
            None => None,
        }
    } else if platform == Platform::MacOs {
        match home {
            Some(h) => Some(seq![h, "Library"@, "Application Support"@, "zm-mux"@]),
            None => None,
        }
    } else if xdg_config_home is Some {
        Some(seq![xdg_config_home->0, "zm-mux"@])
    } else {
        match home {
            Some(h) => Some(seq![h, ".config"@, "zm-mux"@]),
            None => None,
        }
    }
}

/// The settings directory's path components (see [`config_dir_spec`]);
/// the settings file is `config.toml` in it.
pub fn config_dir(
    platform: Platform,
    appdata: Option<String>,
    xdg_config_home: Option<String>,
    home: Option<String>,
) -> (r: Option<Vec<String>>)
    ensures
        match r {
            Some(v) => config_dir_spec(platform, opt_view(appdata), opt_view(xdg_config_home), opt_view(home))
                == Some(string_views(v@)),
            None => config_dir_spec(platform, opt_view(appdata), opt_view(xdg_config_home), opt_view(home))
                is None,
        },
{
    let mut v: Vec<String> = Vec::new();
    match platform {
        Platform::Windows => match appdata {
            Some(a) => {
                let ghost av = a@;
                v.push(a);
                v.push(owned("zm-mux"));
                proof {
                    assert(string_views(v@) =~= seq![av, "zm-mux"@]);
                }
                Some(v)
            },
            None => None,
        },
        Platform::MacOs => match home {
            Some(h) => {
                let ghost hv = h@;
                v.push(h);
                v.push(owned("Library"));
                v.push(owned("Application Support"));
                v.push(owned("zm-mux"));
                proof {
                    assert(string_views(v@) =~= seq![hv, "Library"@, "Application Support"@, "zm-mux"@]);
                }
                Some(v)
            },
            None => None,
        },
        Platform::Other => match xdg_config_home {
            Some(x) => {
                let ghost xv = x@;
                v.push(x);
                v.push(owned("zm-mux"));
                proof {
                    assert(string_views(v@) =~= seq![xv, "zm-mux"@]);
                }
                Some(v)
            },
            None => match home {
                Some(h) => {
                    let ghost hv = h@;
                    v.push(h);
                    v.push(owned(".config"));
                    v.push(owned("zm-mux"));
                    proof {
                        assert(string_views(v@) =~= seq![hv, ".config"@, "zm-mux"@]);
                    }
                    Some(v)
                },
                None => None,
            },
        },
    }
}

} // verus!
