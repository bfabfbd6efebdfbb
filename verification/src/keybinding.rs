//! Keyboard shortcuts: modifier bits, key identities, and the parser of
//! binding strings such as `"Ctrl+Shift+D"`.

use vstd::prelude::*;
use crate::text::{
    chars_of, concat2, debug_quoted, debug_str, eq_ignore_ascii_case, ascii_lower, split_chars,
    split_on, views, trim_chars, trim_seq, chars_eq_str, string_from_chars, owned,
};

verus! {

/// Modifier bitfield, independent of any windowing library.
/// Order: Ctrl = 1, Shift = 2, Alt = 4, Super = 8.
#[derive(Debug, Clone, Copy, PartialEq, Eq, Default, Structural)]
pub struct ModBits(u8);

impl ModBits {
    /// The bits.
    pub closed spec fn value(self) -> u8 {
        self.0
    }

    /// No modifier.
    pub fn empty() -> (r: Self)
        ensures
            r.value() == 0,
    {
        ModBits(0)
    }

    /// Ctrl (bit 1).
    pub fn ctrl() -> (r: Self)
        ensures
            r.value() == 1,
    {
        ModBits(1)
    }

    /// Shift (bit 2).
    pub fn shift() -> (r: Self)
        ensures
            r.value() == 2,
    {
        ModBits(2)
    }

    /// Alt (bit 4).
    pub fn alt() -> (r: Self)
        ensures
            r.value() == 4,
    {
        ModBits(4)
    }

    /// Super / Win / Cmd / Meta (bit 8).
    pub fn super_key() -> (r: Self)
        ensures
            r.value() == 8,
    {
        ModBits(8)
    }

    /// The modifier bits as a byte.
    pub fn bits(self) -> (r: u8)
        ensures
            r == self.value(),
    {
        self.0
    }

    /// The modifiers with the given bits.
    pub fn from_bits(b: u8) -> (r: Self)
        ensures
            r.value() == b,
    {
        ModBits(b)
    }

    /// Every modifier of `other` is in `self`.
    pub fn contains(self, other: Self) -> (r: bool)
        ensures
            r == (self.value() & other.value() == other.value()),
    {
        (self.0 & other.0) == other.0
    }

    /// Both sets of modifiers.
    pub fn union(self, other: Self) -> (r: Self)
        ensures
            r.value() == self.value() | other.value(),
    {
        ModBits(self.0 | other.0)
    }
}

impl core::ops::BitOr for ModBits {
    type Output = Self;

    fn bitor(self, rhs: Self) -> Self {
        let r = self.union(rhs);
        proof {
            ModBits::lemma_from_bits((self.value() | rhs.value()) as u8);
            ModBits::lemma_bits_eq(r, ModBits::from_bits_spec((self.value() | rhs.value()) as u8));
        }
        r
    }
}

impl vstd::std_specs::ops::BitOrSpecImpl for ModBits {
    open spec fn obeys_bitor_spec() -> bool {
        true
    }

    open spec fn bitor_req(self, rhs: ModBits) -> bool {
        true
    }

    open spec fn bitor_spec(self, rhs: ModBits) -> ModBits {
        ModBits::from_bits_spec((self.value() | rhs.value()) as u8)
    }
}

impl core::ops::BitOrAssign for ModBits {
    fn bitor_assign(&mut self, rhs: Self)
        ensures
            final(self).value() == old(self).value() | rhs.value(),
    {
        *self = self.union(rhs);
    }
}

/// Key identity, independent of any windowing library: printable
/// characters are `Char`, special keys have their own variants.
#[derive(Debug, Clone, Copy, PartialEq, Eq, Structural)]
pub enum KeyDef {
    Char(char),
    Tab,
    Enter,
    Escape,
    Backspace,
    Space,
    PageUp,
    PageDown,
    Home,
    End,
    ArrowUp,
    ArrowDown,
    ArrowLeft,
    ArrowRight,
}

/// A shortcut: exact modifiers plus one key.
#[derive(Debug, Clone, Copy, PartialEq, Eq, Structural)]
pub struct KeyBinding {
    pub mods: ModBits,
    pub key: KeyDef,
}

/// Whether a pressed key is the key of a binding: characters compare
/// without ASCII case (Shift may upper-case them), other keys exactly.
pub open spec fn key_matches(bound: KeyDef, pressed: KeyDef) -> bool {
    match (bound, pressed) {
        (KeyDef::Char(a), KeyDef::Char(b)) => ascii_lower(a) == ascii_lower(b),
        (a, b) => a == b,
    }
}

impl KeyBinding {
    /// Matches a runtime key event: the modifiers must be equal, and the key
    /// as [`key_matches`] says (so `"Ctrl+Shift+D"` matches `'d'` and `'D'`).
    pub fn matches(&self, mods: ModBits, key: &KeyDef) -> (r: bool)
        ensures
            r == (self.mods == mods && key_matches(self.key, *key)),
    {
        if self.mods != mods {
            return false;
        }
        match (&self.key, key) {
            (KeyDef::Char(a), KeyDef::Char(b)) => eq_ignore_ascii_case(*a, *b),
            (a, b) => keydef_eq(a, b),
        }
    }
}

fn keydef_eq(a: &KeyDef, b: &KeyDef) -> (r: bool)
    ensures
        r == (*a == *b),
{
    *a == *b
}

/// The modifier bit a token names (`Ctrl`/`Control`, `Shift`, `Alt`,
/// `Super`/`Win`/`Cmd`/`Meta`), or `None`.
pub open spec fn modifier_spec(t: Seq<char>) -> Option<u8> {
    if t == "Ctrl"@ || t == "Control"@ {
        Some(1u8)
    } else if t == "Shift"@ {
        Some(2u8)
    } else if t == "Alt"@ {
        Some(4u8)
    } else if t == "Super"@ || t == "Win"@ || t == "Cmd"@ || t == "Meta"@ {
        Some(8u8)
    } else {
        None
    }
}

/// The key a token names: any single character, or one of the key names
/// with their aliases.
pub open spec fn key_token_spec(t: Seq<char>) -> Option<KeyDef> {
    if t.len() == 1 {
        Some(KeyDef::Char(t[0]))
    } else if t == "Tab"@ {
        Some(KeyDef::Tab)
    } else if t == "Enter"@ || t == "Return"@ {
        Some(KeyDef::Enter)
    } else if t == "Escape"@ || t == "Esc"@ {
        Some(KeyDef::Escape)
    } else if t == "Backspace"@ || t == "BackSpace"@ {
        Some(KeyDef::Backspace)
    } else if t == "Space"@ {
        Some(KeyDef::Space)
    } else if t == "PageUp"@ || t == "PgUp"@ {
        Some(KeyDef::PageUp)
    } else if t == "PageDown"@ || t == "PgDn"@ {
        Some(KeyDef::PageDown)
    } else if t == "Home"@ {
        Some(KeyDef::Home)
    } else if t == "End"@ {
        Some(KeyDef::End)
    } else if t == "Up"@ || t == "ArrowUp"@ {
        Some(KeyDef::ArrowUp)
    } else if t == "Down"@ || t == "ArrowDown"@ {
        Some(KeyDef::ArrowDown)
    } else if t == "Left"@ || t == "ArrowLeft"@ {
        Some(KeyDef::ArrowLeft)
    } else if t == "Right"@ || t == "ArrowRight"@ {
        Some(KeyDef::ArrowRight)
    } else {
        None
    }
}

fn modifier_of(t: &[char]) -> (r: Option<u8>)
    ensures
        r == modifier_spec(t@),
{
    if chars_eq_str(t, "Ctrl") || chars_eq_str(t, "Control") {
        Some(1)
    } else if chars_eq_str(t, "Shift") {
        Some(2)
    } else if chars_eq_str(t, "Alt") {
        Some(4)
    } else if chars_eq_str(t, "Super") || chars_eq_str(t, "Win") || chars_eq_str(t, "Cmd")
        || chars_eq_str(t, "Meta") {
        Some(8)
    } else {
        None
    }
}

/// The error `parse_key_token` reports for an unknown key token.
pub open spec fn unknown_key_msg(t: Seq<char>) -> Seq<char> {
    "unknown key token: "@ + debug_str(t)
}

/// Parses one key token: a single character, or a key name
/// (`Tab`, `Enter`/`Return`, `Escape`/`Esc`, `Backspace`/`BackSpace`,
/// `Space`, `PageUp`/`PgUp`, `PageDown`/`PgDn`, `Home`, `End`, `Up`/`ArrowUp`,
/// `Down`/`ArrowDown`, `Left`/`ArrowLeft`, `Right`/`ArrowRight`).
pub fn parse_key_token(t: &str) -> (r: Result<KeyDef, String>)
    ensures
        match key_token_spec(t@) {
            Some(k) => r == Ok::<KeyDef, String>(k),
            None => r is Err && r->Err_0@ == unknown_key_msg(t@),
        },
{
    let v = chars_of(t);
    match key_token_of(v.as_slice()) {
        Some(k) => Ok(k),
        None => {
            let d = debug_quoted(t);
            Err(concat2("unknown key token: ", d.as_str()))
        },
    }
}

fn key_token_of(t: &[char]) -> (r: Option<KeyDef>)
    ensures
        r == key_token_spec(t@),
{
    if t.len() == 1 {
        return Some(KeyDef::Char(t[0]));
    }
    if chars_eq_str(t, "Tab") {
        Some(KeyDef::Tab)
    } else if chars_eq_str(t, "Enter") || chars_eq_str(t, "Return") {
        Some(KeyDef::Enter)
    } else if chars_eq_str(t, "Escape") || chars_eq_str(t, "Esc") {
        Some(KeyDef::Escape)
    } else if chars_eq_str(t, "Backspace") || chars_eq_str(t, "BackSpace") {
        Some(KeyDef::Backspace)
    } else if chars_eq_str(t, "Space") {
        Some(KeyDef::Space)
    } else if chars_eq_str(t, "PageUp") || chars_eq_str(t, "PgUp") {
        Some(KeyDef::PageUp)
    } else if chars_eq_str(t, "PageDown") || chars_eq_str(t, "PgDn") {
        Some(KeyDef::PageDown)
    } else if chars_eq_str(t, "Home") {
        Some(KeyDef::Home)
    } else if chars_eq_str(t, "End") {
        Some(KeyDef::End)
    } else if chars_eq_str(t, "Up") || chars_eq_str(t, "ArrowUp") {
        Some(KeyDef::ArrowUp)
    } else if chars_eq_str(t, "Down") || chars_eq_str(t, "ArrowDown") {
        Some(KeyDef::ArrowDown)
    } else if chars_eq_str(t, "Left") || chars_eq_str(t, "ArrowLeft") {
        Some(KeyDef::ArrowLeft)
    } else if chars_eq_str(t, "Right") || chars_eq_str(t, "ArrowRight") {
        Some(KeyDef::ArrowRight)
    } else {
        None
    }
}

/// Reads the `+`-separated tokens of a binding left to right, from the
/// modifiers and key found so far; stops at the first error. `whole` is the
/// binding string (for the messages).
pub open spec fn parse_tokens(whole: Seq<char>, toks: Seq<Seq<char>>, mods: u8, key: Option<
    KeyDef,
>) -> Result<KeyBinding, Seq<char>>
    decreases toks.len(),
{
    if toks.len() == 0 {
        match key {
            Some(k) => Ok(KeyBinding { mods: ModBits::from_bits_spec(mods), key: k }),
            None => Err("no key in binding: "@ + debug_str(whole)),
        }
    } else {
        let part = trim_seq(toks[0]);
        if part.len() == 0 {
            Err("empty token in keybinding: "@ + debug_str(whole))
        } else {
            match modifier_spec(part) {
                Some(b) => parse_tokens(whole, toks.drop_first(), mods | b, key),
                None => match key_token_spec(part) {
                    None => Err(unknown_key_msg(part)),
                    Some(k) => if key is Some {
                        Err("multiple keys in binding: "@ + debug_str(whole))
                    } else {
                        parse_tokens(whole, toks.drop_first(), mods, Some(k))
                    },
                },
            }
        }
    }
}

/// What parsing a binding string gives: an error for the empty string,
/// otherwise [`parse_tokens`] over `str::split('+')`.
pub open spec fn binding_spec(s: Seq<char>) -> Result<KeyBinding, Seq<char>> {
    if s.len() == 0 {
        Err("empty keybinding string"@)
    } else {
        parse_tokens(s, split_on(s, '+'), 0, None)
    }
}

impl ModBits {
    /// The modifiers with the given bits.
    pub closed spec fn from_bits_spec(b: u8) -> ModBits {
        ModBits(b)
    }

    /// Two modifier sets with the same bits are equal.
    pub proof fn lemma_bits_eq(a: ModBits, b: ModBits)
        requires
            a.value() == b.value(),
        ensures
            a == b,
    {
    }

    /// `from_bits_spec` has exactly the given bits.
    pub proof fn lemma_from_bits(b: u8)
        ensures
            Self::from_bits_spec(b).value() == b,
    {
    }
}

/// The parse result in the view of its error: the characters of the message.
pub open spec fn result_view(r: Result<KeyBinding, String>) -> Result<KeyBinding, Seq<char>> {
    match r {
        Ok(k) => Ok(k),
        Err(e) => Err(e@),
    }
}

impl KeyBinding {
    /// Parses a binding such as `"Ctrl+Shift+D"` or `"Alt+Left"`: `+`-separated
    /// tokens (trimmed), any number of modifiers and exactly one key.
    /// Errors: empty string, empty token, unknown key token, two keys, no key.
    pub fn parse_str(s: &str) -> (r: Result<KeyBinding, String>)
        ensures
            result_view(r) == binding_spec(s@),
    {
        let v = chars_of(s);
        if v.len() == 0 {
            return Err(owned("empty keybinding string"));
        }
        let toks = split_chars(v.as_slice(), '+');
        let mut mods: u8 = 0;
        let mut key: Option<KeyDef> = None;
        let mut i: usize = 0;
        proof {
            assert(views(toks@).skip(0) =~= views(toks@));
        }
        while i < toks.len()
            invariant
                v@ == s@,
                views(toks@) == split_on(s@, '+'),
                i <= toks@.len(),
                parse_tokens(s@, views(toks@).skip(i as int), mods, key) == binding_spec(s@),
            decreases toks@.len() - i,
        {
            let ghost rest = views(toks@).skip(i as int);
            proof {
                assert(rest[0] == toks@[i as int]@);
                assert(rest.drop_first() =~= views(toks@).skip(i + 1));
            }
            let part = trim_chars(toks[i].as_slice());
            if part.len() == 0 {
                let d = debug_quoted(s);
                return Err(concat2("empty token in keybinding: ", d.as_str()));
            }
            match modifier_of(part.as_slice()) {
                Some(b) => {
                    mods = mods | b;
                },
                None => {
                    match key_token_of(part.as_slice()) {
                        None => {
                            let ps = string_from_chars(part.as_slice());
                            let d = debug_quoted(ps.as_str());
                            return Err(concat2("unknown key token: ", d.as_str()));
                        },
                        Some(k) => {
                            if key.is_some() {
                                let d = debug_quoted(s);
                                return Err(concat2("multiple keys in binding: ", d.as_str()));
                            }
                            key = Some(k);
                        },
                    }
                },
            }
            i = i + 1;
        }
        proof {
            assert(views(toks@).skip(i as int) =~= Seq::<Seq<char>>::empty());
        }
        match key {
            Some(k) => Ok(KeyBinding { mods: ModBits(mods), key: k }),
            None => {
                let d = debug_quoted(s);
                Err(concat2("no key in binding: ", d.as_str()))
            },
        }
    }
}

impl core::str::FromStr for KeyBinding {
    type Err = String;

    fn from_str(s: &str) -> (r: Result<Self, Self::Err>)
        ensures
            result_view(r) == binding_spec(s@),
    {
        KeyBinding::parse_str(s)
    }
}

/// A key name parses to the key it names, and to no other: each name and
/// its alias (`Up`/`ArrowUp`, `Enter`/`Return`, `Esc`/`Escape`,
/// `PgUp`/`PageUp`, …) gives its key, no other text gives that key, and a
/// single character stands for itself. So different keys never share a
/// name, and bindings to Up and Down cannot collide.
pub proof fn law_key_names(t: Seq<char>)
    ensures
        key_token_spec(t) == Some(KeyDef::ArrowUp) <==> (t == "Up"@ || t == "ArrowUp"@),
        key_token_spec(t) == Some(KeyDef::ArrowDown) <==> (t == "Down"@ || t == "ArrowDown"@),
        key_token_spec(t) == Some(KeyDef::ArrowLeft) <==> (t == "Left"@ || t == "ArrowLeft"@),
        key_token_spec(t) == Some(KeyDef::ArrowRight) <==> (t == "Right"@ || t == "ArrowRight"@),
        key_token_spec(t) == Some(KeyDef::Tab) <==> t == "Tab"@,
        key_token_spec(t) == Some(KeyDef::Enter) <==> (t == "Enter"@ || t == "Return"@),
        key_token_spec(t) == Some(KeyDef::Escape) <==> (t == "Escape"@ || t == "Esc"@),
        key_token_spec(t) == Some(KeyDef::Backspace) <==> (t == "Backspace"@ || t == "BackSpace"@),
        key_token_spec(t) == Some(KeyDef::Space) <==> t == "Space"@,
        key_token_spec(t) == Some(KeyDef::PageUp) <==> (t == "PageUp"@ || t == "PgUp"@),
        key_token_spec(t) == Some(KeyDef::PageDown) <==> (t == "PageDown"@ || t == "PgDn"@),
        key_token_spec(t) == Some(KeyDef::Home) <==> t == "Home"@,
        key_token_spec(t) == Some(KeyDef::End) <==> t == "End"@,
        t.len() == 1 ==> key_token_spec(t) == Some(KeyDef::Char(t[0])),
        forall|c: char| key_token_spec(t) == Some(KeyDef::Char(c)) ==> t == seq![c],
{
    reveal_strlit("Up");
    reveal_strlit("ArrowUp");
    reveal_strlit("Down");
    reveal_strlit("ArrowDown");
    reveal_strlit("Left");
    reveal_strlit("ArrowLeft");
    reveal_strlit("Right");
    reveal_strlit("ArrowRight");
    reveal_strlit("Tab");
    reveal_strlit("Enter");
    reveal_strlit("Return");
    reveal_strlit("Escape");
    reveal_strlit("Esc");
    reveal_strlit("Backspace");
    reveal_strlit("BackSpace");
    reveal_strlit("Space");
    reveal_strlit("PageUp");
    reveal_strlit("PgUp");
    reveal_strlit("PageDown");
    reveal_strlit("PgDn");
    reveal_strlit("Home");
    reveal_strlit("End");
    // names of one length differ in some letter
    assert("Down"@[0] != "Left"@[0]);
    assert("Down"@[0] != "PgUp"@[0]);
    assert("Down"@[0] != "PgDn"@[0]);
    assert("Down"@[0] != "Home"@[0]);
    assert("ArrowDown"@[5] != "ArrowLeft"@[5]);
    assert("ArrowDown"@[0] != "Backspace"@[0]);
    assert("ArrowDown"@[0] != "BackSpace"@[0]);
    assert("Left"@[0] != "PgUp"@[0]);
    assert("Left"@[0] != "PgDn"@[0]);
    assert("Left"@[0] != "Home"@[0]);
    assert("ArrowLeft"@[0] != "Backspace"@[0]);
    assert("ArrowLeft"@[0] != "BackSpace"@[0]);
    assert("Right"@[0] != "Enter"@[0]);
    assert("Right"@[0] != "Space"@[0]);
    assert("Tab"@[0] != "Esc"@[0]);
    assert("Tab"@[0] != "End"@[0]);
    assert("Enter"@[0] != "Space"@[0]);
    assert("Return"@[0] != "Escape"@[0]);
    assert("Return"@[0] != "PageUp"@[0]);
    assert("Escape"@[0] != "PageUp"@[0]);
    assert("Esc"@[1] != "End"@[1]);
    assert("Backspace"@[4] != "BackSpace"@[4]);
    assert("PgUp"@[2] != "PgDn"@[2]);
    assert("PgUp"@[0] != "Home"@[0]);
    assert("PgDn"@[0] != "Home"@[0]);
    if t.len() == 1 {
        assert(t =~= seq![t[0]]);
    }
}

} // verus!
