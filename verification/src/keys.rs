//! Keyboard handling of the application window: the configured shortcut
//! chords (`ctrl+shift+d`, `alt+left`, ...), the actions they trigger, and
//! the bytes a key press sends to the active pane.

use vstd::prelude::*;
use vstd::utf8::encode_utf8;
use crate::text::{
    chars_of, chars_eq_str, is_ascii_alpha, lower_chars, lower_seq, split_chars, split_on,
    trim_chars, trim_seq, ascii_lower, to_ascii_lower, views,
};
use crate::types::KeybindingConfig;

verus! {

/// A focus direction.
#[derive(Debug, Clone, Copy, PartialEq, Eq, Structural)]
pub enum Dir {
    Left,
    Right,
    Up,
    Down,
}

/// The direction a word names (`left`/`l`, `right`/`r`, `up`/`u`,
/// `down`/`d`, in any case, surrounding white space ignored).
pub open spec fn dir_spec(s: Seq<char>) -> Option<Dir> {
    let w = lower_seq(trim_seq(s));
    if w == "left"@ || w == "l"@ {
        Some(Dir::Left)
    } else if w == "right"@ || w == "r"@ {
        Some(Dir::Right)
    } else if w == "up"@ || w == "u"@ {
        Some(Dir::Up)
    } else if w == "down"@ || w == "d"@ {
        Some(Dir::Down)
    } else {
        None
    }
}

/// The direction a word names.
pub fn parse_dir(s: &str) -> (r: Option<Dir>)
    ensures
        r == dir_spec(s@),
{
    let v = chars_of(s);
    let t = trim_chars(v.as_slice());
    let w = lower_chars(t.as_slice());
    let w = w.as_slice();
    if chars_eq_str(w, "left") || chars_eq_str(w, "l") {
        Some(Dir::Left)
    } else if chars_eq_str(w, "right") || chars_eq_str(w, "r") {
        Some(Dir::Right)
    } else if chars_eq_str(w, "up") || chars_eq_str(w, "u") {
        Some(Dir::Up)
    } else if chars_eq_str(w, "down") || chars_eq_str(w, "d") {
        Some(Dir::Down)
    } else {
        None
    }
}

/// What a shortcut does.
#[derive(Debug, Clone, Copy, PartialEq, Eq, Structural)]
pub enum Action {
    NewTab,
    CloseTab,
    ClosePane,
    /// Split with a horizontal divider (panes above each other).
    SplitHorizontal,
    /// Split with a vertical divider (panes side by side).
    SplitVertical,
    NextTab,
    PrevTab,
    Focus(Dir),
    ZoomToggle,
}

/// The named keys shortcuts and key translation know; `Other` stands for
/// every other named key.
#[derive(Debug, Clone, Copy, PartialEq, Eq, Structural)]
pub enum NamedKey {
    Tab,
    Enter,
    Space,
    Escape,
    ArrowLeft,
    ArrowRight,
    ArrowUp,
    ArrowDown,
    Backspace,
    Delete,
    Home,
    End,
    PageUp,
    PageDown,
    Other,
}

/// The logical key of a key press.
#[derive(Debug, Clone)]
pub enum KeyInput {
    Named(NamedKey),
    /// A key that produces text (the text of the key itself).
    Character(String),
    /// Anything else.
    Unidentified,
}

/// The modifier keys held.
#[derive(Debug, Clone, Copy, PartialEq, Eq, Structural)]
pub struct Mods {
    pub ctrl: bool,
    pub shift: bool,
    pub alt: bool,
}

/// The key of a shortcut.
#[derive(Debug, Clone, Copy, PartialEq, Eq, Structural)]
pub enum ChordKey {
    /// A character key, lower case.
    Char(char),
    Named(NamedKey),
}

/// A shortcut: modifiers and a key.
#[derive(Debug, Clone, Copy, PartialEq, Eq, Structural)]
pub struct Chord {
    pub ctrl: bool,
    pub shift: bool,
    pub alt: bool,
    pub key: ChordKey,
}

/// Whether a key press with modifiers `mods` is the shortcut `c`: the same
/// modifiers, and the named key, or a character key whose text starts
/// with the chord's character in either case.
pub open spec fn chord_matches(c: Chord, key: KeyInput, mods: Mods) -> bool {
    &&& mods.ctrl == c.ctrl && mods.shift == c.shift && mods.alt == c.alt
    &&& match c.key {
        ChordKey::Char(ch) => match key {
            KeyInput::Character(s) => s@.len() > 0 && ascii_lower(s@[0]) == ch,
            _ => false,
        },
        ChordKey::Named(n) => match key {
            KeyInput::Named(k) => k == n,
            _ => false,
        },
    }
}

impl Chord {
    /// Whether the key press is this shortcut.
    pub fn matches(&self, key: &KeyInput, mods: Mods) -> (r: bool)
        ensures
            r == chord_matches(*self, *key, mods),
    {
        if mods.ctrl != self.ctrl || mods.shift != self.shift || mods.alt != self.alt {
            return false;
        }
        match self.key {
            ChordKey::Char(c) => match key {
                KeyInput::Character(s) => {
                    let v = chars_of(s.as_str());
                    v.len() > 0 && to_ascii_lower(v[0]) == c
                },
                _ => false,
            },
            ChordKey::Named(n) => match key {
                KeyInput::Named(k) => *k == n,
                _ => false,
            },
        }
    }
}

/// The named key a lower-case word names.
pub open spec fn named_key_spec(w: Seq<char>) -> Option<NamedKey> {
    if w == "tab"@ {
        Some(NamedKey::Tab)
    } else if w == "enter"@ || w == "return"@ {
        Some(NamedKey::Enter)
    } else if w == "space"@ {
        Some(NamedKey::Space)
    } else if w == "esc"@ || w == "escape"@ {
        Some(NamedKey::Escape)
    } else if w == "left"@ {
        Some(NamedKey::ArrowLeft)
    } else if w == "right"@ {
        Some(NamedKey::ArrowRight)
    } else if w == "up"@ {
        Some(NamedKey::ArrowUp)
    } else if w == "down"@ {
        Some(NamedKey::ArrowDown)
    } else if w == "backspace"@ {
        Some(NamedKey::Backspace)
    } else if w == "delete"@ || w == "del"@ {
        Some(NamedKey::Delete)
    } else if w == "home"@ {
        Some(NamedKey::Home)
    } else if w == "end"@ {
        Some(NamedKey::End)
    } else if w == "pageup"@ {
        Some(NamedKey::PageUp)
    } else if w == "pagedown"@ {
        Some(NamedKey::PageDown)
    } else {
        None
    }
}

/// The key a word names: a named key, else a single character (lower
/// case).
pub open spec fn key_spec(s: Seq<char>) -> Option<ChordKey> {
    let w = lower_seq(s);
    match named_key_spec(w) {
        Some(n) => Some(ChordKey::Named(n)),
        None => if w.len() == 1 {
            Some(ChordKey::Char(w[0]))
        } else {
            None
        },
    }
}

fn named_key_of(w: &[char]) -> (r: Option<NamedKey>)
    ensures
        r == named_key_spec(w@),
{
    if chars_eq_str(w, "tab") {
        Some(NamedKey::Tab)
    } else if chars_eq_str(w, "enter") || chars_eq_str(w, "return") {
        Some(NamedKey::Enter)
    } else if chars_eq_str(w, "space") {
        Some(NamedKey::Space)
    } else if chars_eq_str(w, "esc") || chars_eq_str(w, "escape") {
        Some(NamedKey::Escape)
    } else if chars_eq_str(w, "left") {
        Some(NamedKey::ArrowLeft)
    } else if chars_eq_str(w, "right") {
        Some(NamedKey::ArrowRight)
    } else if chars_eq_str(w, "up") {
        Some(NamedKey::ArrowUp)
    } else if chars_eq_str(w, "down") {
        Some(NamedKey::ArrowDown)
    } else if chars_eq_str(w, "backspace") {
        Some(NamedKey::Backspace)
    } else if chars_eq_str(w, "delete") || chars_eq_str(w, "del") {
        Some(NamedKey::Delete)
    } else if chars_eq_str(w, "home") {
        Some(NamedKey::Home)
    } else if chars_eq_str(w, "end") {
        Some(NamedKey::End)
    } else if chars_eq_str(w, "pageup") {
        Some(NamedKey::PageUp)
    } else if chars_eq_str(w, "pagedown") {
        Some(NamedKey::PageDown)
    } else {
        None
    }
}

/// The key a word names.
pub fn parse_key(s: &str) -> (r: Option<ChordKey>)
    ensures
        r == key_spec(s@),
{
    let v = chars_of(s);
    let w = lower_chars(v.as_slice());
    proof {
        lemma_lower_idempotent(v@);
    }
    parse_key_chars(w.as_slice())
}

fn parse_key_chars(w: &[char]) -> (r: Option<ChordKey>)
    requires
        w@ == lower_seq(w@),
    ensures
        r == key_spec(w@),
{
    proof {
        lemma_lower_idempotent(w@);
    }
    match named_key_of(w) {
        Some(n) => Some(ChordKey::Named(n)),
        None => if w.len() == 1 {
            Some(ChordKey::Char(w[0]))
        } else {
            None
        },
    }
}

/// Lowering twice is lowering once.
pub proof fn lemma_lower_idempotent(s: Seq<char>)
    ensures
        lower_seq(lower_seq(s)) == lower_seq(s),
{
    assert(lower_seq(lower_seq(s)) =~= lower_seq(s));
}

/// Reading the `+`-separated words of a chord: the modifiers seen and the
/// last key named so far; `None` once a word names no key.
pub open spec fn chord_words(words: Seq<Seq<char>>, ctrl: bool, shift: bool, alt: bool, key: Option<ChordKey>) -> Option<
    (bool, bool, bool, Option<ChordKey>),
>
    decreases words.len(),
{
    if words.len() == 0 {
        Some((ctrl, shift, alt, key))
    } else {
        let w = lower_seq(trim_seq(words[0]));
        let rest = words.drop_first();
        if w == "ctrl"@ || w == "control"@ {
            chord_words(rest, true, shift, alt, key)
        } else if w == "shift"@ {
            chord_words(rest, ctrl, true, alt, key)
        } else if w == "alt"@ || w == "option"@ {
            chord_words(rest, ctrl, shift, true, key)
        } else if w == "super"@ || w == "win"@ || w == "cmd"@ || w == "meta"@ {
            chord_words(rest, ctrl, shift, alt, key)
        } else {
            match key_spec(w) {
                Some(k) => chord_words(rest, ctrl, shift, alt, Some(k)),
                None => None,
            }
        }
    }
}

/// The chord a shortcut setting names (`ctrl+shift+d`): modifier words in
/// any case, `super`/`win`/`cmd`/`meta` ignored, exactly the last key word
/// counting; `None` for a blank setting, an unknown word or no key.
pub open spec fn chord_spec(s: Seq<char>) -> Option<Chord> {
    if trim_seq(s).len() == 0 {
        None
    } else {
        match chord_words(split_on(s, '+'), false, false, false, None) {
            Some((ctrl, shift, alt, Some(key))) => Some(Chord { ctrl, shift, alt, key }),
            _ => None,
        }
    }
}

/// The chord a shortcut setting names.
pub fn parse_chord(s: &str) -> (r: Option<Chord>)
    ensures
        r == chord_spec(s@),
{
    let v = chars_of(s);
    let t = trim_chars(v.as_slice());
    if t.len() == 0 {
        return None;
    }
    let parts = split_chars(v.as_slice(), '+');
    let ghost words = views(parts@);
    let (mut ctrl, mut shift, mut alt) = (false, false, false);
    let mut key: Option<ChordKey> = None;
    let mut i: usize = 0;
    proof {
        assert(words.skip(0) =~= words);
    }
    while i < parts.len()
        invariant
            words == views(parts@),
            words == split_on(s@, '+'),
            i <= parts@.len(),
            chord_words(words, false, false, false, None) == chord_words(words.skip(i as int), ctrl, shift, alt, key),
        decreases parts@.len() - i,
    {
        let ghost rest = words.skip(i as int);
        proof {
            assert(rest[0] == parts@[i as int]@);
            assert(rest.drop_first() =~= words.skip(i + 1));
        }
        let tw = trim_chars(parts[i].as_slice());
        let w = lower_chars(tw.as_slice());
        let ws = w.as_slice();
        if chars_eq_str(ws, "ctrl") || chars_eq_str(ws, "control") {
            ctrl = true;
        } else if chars_eq_str(ws, "shift") {
            shift = true;
        } else if chars_eq_str(ws, "alt") || chars_eq_str(ws, "option") {
            alt = true;
        } else if chars_eq_str(ws, "super") || chars_eq_str(ws, "win") || chars_eq_str(ws, "cmd")
            || chars_eq_str(ws, "meta") {
        } else {
            proof {
                lemma_lower_idempotent(tw@);
            }
            match parse_key_chars(ws) {
                Some(k) => {
                    key = Some(k);
                },
                None => {
                    return None;
                },
            }
        }
        i = i + 1;
    }
    proof {
        assert(words.skip(i as int).len() == 0);
    }
    match key {
        Some(k) => Some(Chord { ctrl, shift, alt, key: k }),
        None => None,
    }
}

/// The shortcut settings and their actions, in the order they are tried.
pub open spec fn binding_entries(kb: KeybindingConfig) -> Seq<(Seq<char>, Action)> {
    seq![
        (kb.new_tab@, Action::NewTab),
        (kb.close_tab@, Action::CloseTab),
        (kb.close_pane@, Action::ClosePane),
        (kb.split_horizontal@, Action::SplitHorizontal),
        (kb.split_vertical@, Action::SplitVertical),
        (kb.next_tab@, Action::NextTab),
        (kb.prev_tab@, Action::PrevTab),
        (kb.focus_left@, Action::Focus(Dir::Left)),
        (kb.focus_right@, Action::Focus(Dir::Right)),
        (kb.focus_up@, Action::Focus(Dir::Up)),
        (kb.focus_down@, Action::Focus(Dir::Down)),
        (kb.zoom@, Action::ZoomToggle),
    ]
}

/// The entries whose setting parses, each with its chord, in order.
pub open spec fn parsed_entries(e: Seq<(Seq<char>, Action)>) -> Seq<(Chord, Action)>
    decreases e.len(),
{
    if e.len() == 0 {
        seq![]
    } else {
        let rest = parsed_entries(e.drop_last());
        match chord_spec(e.last().0) {
            Some(c) => rest.push((c, e.last().1)),
            None => rest,
        }
    }
}

/// The shortcuts of the configuration: every setting that parses, with its
/// action; settings that do not parse are left out.
pub fn build_keymap(kb: &KeybindingConfig) -> (r: Vec<(Chord, Action)>)
    ensures
        r@ == parsed_entries(binding_entries(*kb)),
{
    let settings: [(&str, Action); 12] = [
        (kb.new_tab.as_str(), Action::NewTab),
        (kb.close_tab.as_str(), Action::CloseTab),
        (kb.close_pane.as_str(), Action::ClosePane),
        (kb.split_horizontal.as_str(), Action::SplitHorizontal),
        (kb.split_vertical.as_str(), Action::SplitVertical),
        (kb.next_tab.as_str(), Action::NextTab),
        (kb.prev_tab.as_str(), Action::PrevTab),
        (kb.focus_left.as_str(), Action::Focus(Dir::Left)),
        (kb.focus_right.as_str(), Action::Focus(Dir::Right)),
        (kb.focus_up.as_str(), Action::Focus(Dir::Up)),
        (kb.focus_down.as_str(), Action::Focus(Dir::Down)),
        (kb.zoom.as_str(), Action::ZoomToggle),
    ];
    let ghost e = binding_entries(*kb);
    let mut out: Vec<(Chord, Action)> = Vec::new();
    let mut i: usize = 0;
    while i < 12
        invariant
            i <= 12,
            e == binding_entries(*kb),
            e.len() == 12,
            forall|j: int| 0 <= j < 12 ==> (#[trigger] settings@[j]).0@ == e[j].0 && settings@[j].1 == e[j].1,
            out@ == parsed_entries(e.take(i as int)),
        decreases 12 - i,
    {
        let (s, a) = settings[i];
        proof {
            assert(e.take(i + 1).drop_last() =~= e.take(i as int));
            assert(e.take(i + 1).last() == e[i as int]);
            assert(settings@[i as int].0@ == e[i as int].0);
        }
        match parse_chord(s) {
            Some(c) => out.push((c, a)),
            None => {},
        }
        i = i + 1;
    }
    proof {
        assert(e.take(12) =~= e);
    }
    out
}

/// The bytes of the CSI-u form of Enter with modifiers, `ESC [ 13 ; m u`
/// with `m = 1 + shift + 2 alt + 4 ctrl`.
pub open spec fn csi_u_enter(m: Mods) -> Seq<u8> {
    let code = 1 + (if m.shift {
        1int
    } else {
        0
    }) + (if m.alt {
        2int
    } else {
        0
    }) + (if m.ctrl {
        4int
    } else {
        0
    });
    seq![0x1bu8, 0x5bu8, 0x31u8, 0x33u8, 0x3bu8, (0x30 + code) as u8, 0x75u8]
}

/// The bytes a named key sends; `None` for keys that send nothing.
pub open spec fn named_bytes(k: NamedKey) -> Option<Seq<u8>> {
    match k {
        NamedKey::Enter => Some(seq![0x0du8]),
        NamedKey::Backspace => Some(seq![0x7fu8]),
        NamedKey::Tab => Some(seq![0x09u8]),
        NamedKey::Escape => Some(seq![0x1bu8]),
        NamedKey::ArrowUp => Some(seq![0x1bu8, 0x5bu8, 0x41u8]),
        NamedKey::ArrowDown => Some(seq![0x1bu8, 0x5bu8, 0x42u8]),
        NamedKey::ArrowRight => Some(seq![0x1bu8, 0x5bu8, 0x43u8]),
        NamedKey::ArrowLeft => Some(seq![0x1bu8, 0x5bu8, 0x44u8]),
        NamedKey::Home => Some(seq![0x1bu8, 0x5bu8, 0x48u8]),
        NamedKey::End => Some(seq![0x1bu8, 0x5bu8, 0x46u8]),
        NamedKey::Delete => Some(seq![0x1bu8, 0x5bu8, 0x33u8, 0x7eu8]),
        NamedKey::PageUp => Some(seq![0x1bu8, 0x5bu8, 0x35u8, 0x7eu8]),
        NamedKey::PageDown => Some(seq![0x1bu8, 0x5bu8, 0x36u8, 0x7eu8]),
        NamedKey::Space => Some(seq![0x20u8]),
        _ => None,
    }
}

/// The control byte Ctrl sends with a character: a letter (either case)
/// gives its position in the alphabet, `[ \ ] ^ _` give 0x1b..0x1f.
pub open spec fn ctrl_byte(c: char) -> Option<u8> {
    let l = ascii_lower(c);
    if 'a' <= l <= 'z' {
        Some(((l as u32) - ('a' as u32) + 1) as u8)
    } else if c == '[' {
        Some(0x1b)
    } else if c == '\\' {
        Some(0x1c)
    } else if c == ']' {
        Some(0x1d)
    } else if c == '^' {
        Some(0x1e)
    } else if c == '_' {
        Some(0x1f)
    } else {
        None
    }
}

/// The bytes a key press sends to the pane; `text` is the text the press
/// produced, if any, and `kitty` says whether the program asked for the
/// kitty keyboard protocol (modified Enter is then sent in CSI-u form).
pub open spec fn key_bytes_spec(key: KeyInput, text: Option<Seq<char>>, mods: Mods, kitty: bool) -> Option<Seq<u8>> {
    match key {
        KeyInput::Named(nk) => {
            if nk == NamedKey::Enter && kitty && (mods.shift || mods.ctrl || mods.alt) {
                Some(csi_u_enter(mods))
            } else if mods.ctrl && nk == NamedKey::Space {
                Some(seq![0u8])
            } else {
                named_bytes(nk)
            }
        },
        KeyInput::Character(s) => {
            if mods.ctrl && s@.len() == 0 {
                None
            } else if mods.ctrl && ctrl_byte(s@[0]) is Some {
                Some(seq![ctrl_byte(s@[0])->0])
            } else {
                let body = match text {
                    Some(t) => encode_utf8(t),
                    None => encode_utf8(s@),
                };
                Some(
                    if mods.alt {
                        seq![0x1bu8] + body
                    } else {
                        body
                    },
                )
            }
        },
        KeyInput::Unidentified => match text {
            Some(t) => Some(encode_utf8(t)),
            None => None,
        },
    }
}

fn bytes_of(s: &str) -> (r: Vec<u8>)
    ensures
        r@ == encode_utf8(s@),
{
    let b = s.as_bytes();
    let mut v: Vec<u8> = Vec::new();
    let mut i: usize = 0;
    while i < b.len()
        invariant
            i <= b@.len(),
            v@ == b@.take(i as int),
        decreases b@.len() - i,
    {
        v.push(b[i]);
        proof {
            assert(b@.take(i + 1) == b@.take(i as int).push(b@[i as int]));
        }
        i = i + 1;
    }
    proof {
        assert(b@.take(i as int) =~= b@);
    }
    v
}

fn named_key_bytes(k: NamedKey) -> (r: Option<Vec<u8>>)
    ensures
        match r {
            Some(v) => named_bytes(k) == Some(v@),
            None => named_bytes(k) is None,
        },
{
    let v: Vec<u8> = match k {
        NamedKey::Enter => vec![0x0d],
        NamedKey::Backspace => vec![0x7f],
        NamedKey::Tab => vec![0x09],
        NamedKey::Escape => vec![0x1b],
        NamedKey::ArrowUp => vec![0x1b, 0x5b, 0x41],
        NamedKey::ArrowDown => vec![0x1b, 0x5b, 0x42],
        NamedKey::ArrowRight => vec![0x1b, 0x5b, 0x43],
        NamedKey::ArrowLeft => vec![0x1b, 0x5b, 0x44],
        NamedKey::Home => vec![0x1b, 0x5b, 0x48],
        NamedKey::End => vec![0x1b, 0x5b, 0x46],
        NamedKey::Delete => vec![0x1b, 0x5b, 0x33, 0x7e],
        NamedKey::PageUp => vec![0x1b, 0x5b, 0x35, 0x7e],
        NamedKey::PageDown => vec![0x1b, 0x5b, 0x36, 0x7e],
        NamedKey::Space => vec![0x20],
        _ => {
            return None;
        },
    };
    proof {
        assert(named_bytes(k) == Some(v@));
    }
    Some(v)
}

fn ctrl_byte_of(c: char) -> (r: Option<u8>)
    ensures
        r == ctrl_byte(c),
{
    let l = to_ascii_lower(c);
    if 'a' <= l && l <= 'z' {
        Some(((l as u32) - ('a' as u32) + 1) as u8)
    } else if c == '[' {
        Some(0x1b)
    } else if c == '\\' {
        Some(0x1c)
    } else if c == ']' {
        Some(0x1d)
    } else if c == '^' {
        Some(0x1e)
    } else if c == '_' {
        Some(0x1f)
    } else {
        None
    }
}

/// The bytes a key press sends to the pane (see [`key_bytes_spec`]).
pub fn key_to_bytes(key: &KeyInput, text: Option<&str>, mods: Mods, kitty: bool) -> (r: Option<Vec<u8>>)
    ensures
        match r {
            Some(v) => key_bytes_spec(*key, match text {
                Some(t) => Some(t@),
                None => None,
            }, mods, kitty) == Some(v@),
            None => key_bytes_spec(*key, match text {
                Some(t) => Some(t@),
                None => None,
            }, mods, kitty) is None,
        },
{
    match key {
        KeyInput::Named(nk) => {
            if *nk == NamedKey::Enter && kitty && (mods.shift || mods.ctrl || mods.alt) {
                let code: u8 = 1 + (if mods.shift {
                    1u8
                } else {
                    0
                }) + (if mods.alt {
                    2u8
                } else {
                    0
                }) + (if mods.ctrl {
                    4u8
                } else {
                    0
                });
                let v: Vec<u8> = vec![0x1b, 0x5b, 0x31, 0x33, 0x3b, 0x30 + code, 0x75];
                proof {
                    assert(v@ =~= csi_u_enter(mods));
                }
                return Some(v);
            }
            if mods.ctrl && *nk == NamedKey::Space {
                let v: Vec<u8> = vec![0];
                proof {
                    assert(v@ =~= seq![0u8]);
                }
                return Some(v);
            }
            named_key_bytes(*nk)
        },
        KeyInput::Character(s) => {
            let cs = chars_of(s.as_str());
            if mods.ctrl {
                if cs.len() == 0 {
                    return None;
                }
                match ctrl_byte_of(cs[0]) {
                    Some(b) => {
                        let v: Vec<u8> = vec![b];
                        proof {
                            assert(v@ =~= seq![b]);
                        }
                        return Some(v);
                    },
                    None => {},
                }
            }
            let mut v: Vec<u8> = Vec::new();
            if mods.alt {
                v.push(0x1b);
            }
            let mut body = match text {
                Some(t) => bytes_of(t),
                None => bytes_of(s.as_str()),
            };
            let ghost b = body@;
            let ghost pre = v@;
            v.append(&mut body);
            proof {
                assert(v@ =~= pre + b);
                if mods.alt {
                    assert(pre =~= seq![0x1bu8]);
                } else {
                    assert(pre.len() == 0);
                    assert(v@ =~= b);
                }
            }
            Some(v)
        },
        KeyInput::Unidentified => match text {
            Some(t) => Some(bytes_of(t)),
            None => None,
        },
    }
}

/// Whether a named key is one of the four arrows.
pub open spec fn is_arrow(k: NamedKey) -> bool {
    k == NamedKey::ArrowUp || k == NamedKey::ArrowDown || k == NamedKey::ArrowLeft || k == NamedKey::ArrowRight
}

/// The special keys send the VT sequences terminals expect, whatever text
/// came with the key and whatever modifiers are held (Enter under kitty
/// keyboard mode and Ctrl+Space aside): the arrows send `ESC [ A` (up),
/// `ESC [ B` (down), `ESC [ C` (right), `ESC [ D` (left); Home `ESC [ H`,
/// End `ESC [ F`, Delete `ESC [ 3 ~`, Page Up `ESC [ 5 ~`, Page Down
/// `ESC [ 6 ~`; Enter a carriage return, Tab a tab, Backspace DEL, Escape
/// ESC, Space a space. Different arrows send different bytes.
pub proof fn law_named_key_bytes(text: Option<Seq<char>>, mods: Mods, kitty: bool)
    ensures
        key_bytes_spec(KeyInput::Named(NamedKey::ArrowUp), text, mods, kitty) == Some(seq![0x1bu8, '[' as u8, 'A' as u8]),
        key_bytes_spec(KeyInput::Named(NamedKey::ArrowDown), text, mods, kitty) == Some(seq![0x1bu8, '[' as u8, 'B' as u8]),
        key_bytes_spec(KeyInput::Named(NamedKey::ArrowRight), text, mods, kitty) == Some(seq![0x1bu8, '[' as u8, 'C' as u8]),
        key_bytes_spec(KeyInput::Named(NamedKey::ArrowLeft), text, mods, kitty) == Some(seq![0x1bu8, '[' as u8, 'D' as u8]),
        key_bytes_spec(KeyInput::Named(NamedKey::Home), text, mods, kitty) == Some(seq![0x1bu8, '[' as u8, 'H' as u8]),
        key_bytes_spec(KeyInput::Named(NamedKey::End), text, mods, kitty) == Some(seq![0x1bu8, '[' as u8, 'F' as u8]),
        key_bytes_spec(KeyInput::Named(NamedKey::Delete), text, mods, kitty) == Some(
            seq![0x1bu8, '[' as u8, '3' as u8, '~' as u8],
        ),
        key_bytes_spec(KeyInput::Named(NamedKey::PageUp), text, mods, kitty) == Some(
            seq![0x1bu8, '[' as u8, '5' as u8, '~' as u8],
        ),
        key_bytes_spec(KeyInput::Named(NamedKey::PageDown), text, mods, kitty) == Some(
            seq![0x1bu8, '[' as u8, '6' as u8, '~' as u8],
        ),
        key_bytes_spec(KeyInput::Named(NamedKey::Tab), text, mods, kitty) == Some(seq![0x09u8]),
        key_bytes_spec(KeyInput::Named(NamedKey::Backspace), text, mods, kitty) == Some(seq![0x7fu8]),
        key_bytes_spec(KeyInput::Named(NamedKey::Escape), text, mods, kitty) == Some(seq![0x1bu8]),
        !(kitty && (mods.shift || mods.ctrl || mods.alt)) ==> key_bytes_spec(
            KeyInput::Named(NamedKey::Enter),
            text,
            mods,
            kitty,
        ) == Some(seq![0x0du8]),
        !mods.ctrl ==> key_bytes_spec(KeyInput::Named(NamedKey::Space), text, mods, kitty) == Some(
            seq![' ' as u8],
        ),
        forall|a: NamedKey, b: NamedKey|
            is_arrow(a) && is_arrow(b) && a != b ==> key_bytes_spec(KeyInput::Named(a), text, mods, kitty)
                != key_bytes_spec(KeyInput::Named(b), text, mods, kitty),
{
    assert forall|a: NamedKey, b: NamedKey|
        is_arrow(a) && is_arrow(b) && a != b implies key_bytes_spec(KeyInput::Named(a), text, mods, kitty)
            != key_bytes_spec(KeyInput::Named(b), text, mods, kitty) by {
        let (x, y) = (named_bytes(a)->0, named_bytes(b)->0);
        assert(x[2] != y[2]);
    }
}

/// Each shortcut setting triggers its own action: the setting named for an
/// action (`focus_left` for focusing left, `zoom` for zoom, …) is the one
/// listed with that action, and the twelve actions are all different, so
/// no action is reached through another's setting.
pub proof fn law_keymap_settings(kb: KeybindingConfig)
    ensures
        binding_entries(kb).len() == 12,
        binding_entries(kb).contains((kb.new_tab@, Action::NewTab)),
        binding_entries(kb).contains((kb.close_tab@, Action::CloseTab)),
        binding_entries(kb).contains((kb.close_pane@, Action::ClosePane)),
        binding_entries(kb).contains((kb.split_horizontal@, Action::SplitHorizontal)),
        binding_entries(kb).contains((kb.split_vertical@, Action::SplitVertical)),
        binding_entries(kb).contains((kb.next_tab@, Action::NextTab)),
        binding_entries(kb).contains((kb.prev_tab@, Action::PrevTab)),
        binding_entries(kb).contains((kb.focus_left@, Action::Focus(Dir::Left))),
        binding_entries(kb).contains((kb.focus_right@, Action::Focus(Dir::Right))),
        binding_entries(kb).contains((kb.focus_up@, Action::Focus(Dir::Up))),
        binding_entries(kb).contains((kb.focus_down@, Action::Focus(Dir::Down))),
        binding_entries(kb).contains((kb.zoom@, Action::ZoomToggle)),
        forall|i: int, j: int|
            0 <= i < j < 12 ==> (#[trigger] binding_entries(kb)[i]).1 != (#[trigger] binding_entries(kb)[j]).1,
{
    let e = binding_entries(kb);
    assert(e[0] == (kb.new_tab@, Action::NewTab));
    assert(e[1] == (kb.close_tab@, Action::CloseTab));
    assert(e[2] == (kb.close_pane@, Action::ClosePane));
    assert(e[3] == (kb.split_horizontal@, Action::SplitHorizontal));
    assert(e[4] == (kb.split_vertical@, Action::SplitVertical));
    assert(e[5] == (kb.next_tab@, Action::NextTab));
    assert(e[6] == (kb.prev_tab@, Action::PrevTab));
    assert(e[7] == (kb.focus_left@, Action::Focus(Dir::Left)));
    assert(e[8] == (kb.focus_right@, Action::Focus(Dir::Right)));
    assert(e[9] == (kb.focus_up@, Action::Focus(Dir::Up)));
    assert(e[10] == (kb.focus_down@, Action::Focus(Dir::Down)));
    assert(e[11] == (kb.zoom@, Action::ZoomToggle));
}

/// A direction word names its direction, trimmed and in any case: `left`
/// or `l` is left, `right` or `r` right, `up` or `u` up, `down` or `d`
/// down, and nothing else names one.
pub proof fn law_direction_names(s: Seq<char>)
    ensures
        dir_spec(s) == Some(Dir::Left) <==> (lower_seq(trim_seq(s)) == "left"@ || lower_seq(trim_seq(s)) == "l"@),
        dir_spec(s) == Some(Dir::Right) <==> (lower_seq(trim_seq(s)) == "right"@ || lower_seq(trim_seq(s))
            == "r"@),
        dir_spec(s) == Some(Dir::Up) <==> (lower_seq(trim_seq(s)) == "up"@ || lower_seq(trim_seq(s)) == "u"@),
        dir_spec(s) == Some(Dir::Down) <==> (lower_seq(trim_seq(s)) == "down"@ || lower_seq(trim_seq(s))
            == "d"@),
{
    reveal_strlit("left");
    reveal_strlit("l");
    reveal_strlit("right");
    reveal_strlit("r");
    reveal_strlit("up");
    reveal_strlit("u");
    reveal_strlit("down");
    reveal_strlit("d");
    assert("left"@.len() == 4 && "down"@.len() == 4 && "right"@.len() == 5 && "up"@.len() == 2);
    assert("l"@.len() == 1 && "r"@.len() == 1 && "u"@.len() == 1 && "d"@.len() == 1);
    assert("left"@[0] != "down"@[0]);
    assert("l"@[0] != "r"@[0] && "l"@[0] != "u"@[0] && "l"@[0] != "d"@[0] && "r"@[0] != "u"@[0]
        && "r"@[0] != "d"@[0] && "u"@[0] != "d"@[0]);
}

} // verus!
