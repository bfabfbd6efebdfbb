//! Agent integration: the environment that makes agents inside a pane
//! believe they run under tmux, tmux target and format strings, tmux key
//! names, and the naming of per-agent git worktrees.

use vstd::prelude::*;
use crate::text::{
    all_digits, digits_value, is_ws, lead_ws, trail_ws,
    chars_of, concat2, decimal, decimal_chars, owned, parse_u64, parse_u64_spec, push_char,
    replace_all, replace_chars, str_eq, string_from_chars, slice_to_vec, trim_chars, trim_seq,
    u64_to_string, ascii_lower, to_ascii_lower, char_from_ascii,
};

verus! {

/// `s` without one leading `%`.
pub open spec fn strip_pct(s: Seq<char>) -> Seq<char> {
    if s.len() > 0 && s[0] == '%' {
        s.drop_first()
    } else {
        s
    }
}

/// Separators of a `session:window.pane` target.
pub open spec fn is_target_sep(c: char) -> bool {
    c == '.' || c == ':'
}

/// The part of `s` after its last `.` or `:` (all of `s` when there is none).
pub open spec fn after_last_sep(s: Seq<char>) -> Seq<char>
    decreases s.len(),
{
    if s.len() == 0 {
        s
    } else if is_target_sep(s.last()) {
        seq![]
    } else {
        after_last_sep(s.drop_last()).push(s.last())
    }
}

/// The pane id a tmux target names: trimmed, without a leading `%`, the
/// number after the last `.` or `:`.
pub open spec fn parse_target_spec(t: Seq<char>) -> Option<u64> {
    parse_u64_spec(after_last_sep(strip_pct(trim_seq(t))))
}

/// `%` followed by the decimal id, tmux's pane id notation.
pub open spec fn pct_id(id: u64) -> Seq<char> {
    seq!['%'] + decimal(id as nat)
}

/// `#{pane_id}` and `#D` become `%<id>`, `#{pane_index}` becomes `<id>`, in
/// that order.
pub open spec fn format_pane_spec(fmt: Seq<char>, id: u64) -> Seq<char> {
    replace_all(
        replace_all(replace_all(fmt, "#{pane_id}"@, pct_id(id)), "#{pane_index}"@, decimal(id as nat)),
        "#D"@,
        pct_id(id),
    )
}

/// `C-x` for an ASCII letter `x` (either case) stands for its control
/// character, code `x - 'a' + 1` of the lowered letter.
pub open spec fn ctrl_key(t: Seq<char>) -> Option<char> {
    if t.len() > 2 && t[0] == 'C' && t[1] == '-' && 'a' <= ascii_lower(t[2]) <= 'z' {
        Some(((ascii_lower(t[2]) as u32) - ('a' as u32) + 1) as char)
    } else {
        None
    }
}

/// What a tmux key name sends; other tokens are sent as they are.
pub open spec fn translate_key_spec(t: Seq<char>) -> Seq<char> {
    if t == "Enter"@ || t == "C-m"@ || t == "KPEnter"@ {
        "\r"@
    } else if t == "Tab"@ || t == "C-i"@ {
        "\t"@
    } else if t == "Space"@ {
        " "@
    } else if t == "Escape"@ || t == "Esc"@ {
        "\x1b"@
    } else if t == "BSpace"@ || t == "DC"@ {
        "\x7f"@
    } else if t == "Up"@ {
        "\x1b[A"@
    } else if t == "Down"@ {
        "\x1b[B"@
    } else if t == "Right"@ {
        "\x1b[C"@
    } else if t == "Left"@ {
        "\x1b[D"@
    } else if ctrl_key(t) is Some {
        seq![ctrl_key(t)->0]
    } else {
        t
    }
}

/// The decimal form of a number is made of digits and reads back as it.
proof fn lemma_decimal_digits(n: nat)
    ensures
        decimal(n).len() >= 1,
        all_digits(decimal(n)),
        digits_value(decimal(n)) == n,
    decreases n,
{
    let d = decimal(n);
    if n < 10 {
        assert(d.drop_last().len() == 0);
        assert(digits_value(d.drop_last()) == 0);
        assert(d.last() as u32 == ('0' as u32) + n);
    } else {
        lemma_decimal_digits(n / 10);
        assert(d.drop_last() =~= decimal(n / 10));
        assert(d.last() as u32 == ('0' as u32) + n % 10);
        assert(digits_value(d) == digits_value(decimal(n / 10)) * 10 + n % 10);
        assert((n / 10) * 10 + n % 10 == n);
        assert forall|i: int| 0 <= i < d.len() implies crate::text::is_digit(#[trigger] d[i]) by {
            if i < d.len() - 1 {
                assert(d[i] == decimal(n / 10)[i]);
            }
        }
    }
}

/// `parse::<u64>` reads back the decimal form of a `u64`.
proof fn lemma_parse_decimal(n: u64)
    ensures
        parse_u64_spec(decimal(n as nat)) == Some(n),
{
    lemma_decimal_digits(n as nat);
    assert(crate::text::is_digit(decimal(n as nat)[0]));
}

/// Text whose first and last characters are no white space is its own trim.
proof fn lemma_trim_noop(s: Seq<char>)
    requires
        s.len() >= 1,
        !is_ws(s[0]),
        !is_ws(s.last()),
    ensures
        trim_seq(s) == s,
{
    assert(lead_ws(s) == 0);
    assert(s.skip(0) =~= s);
    assert(trail_ws(s) == 0);
    assert(s.take(s.len() as int) =~= s);
}

/// Without separators, the part after the last separator is everything.
proof fn lemma_no_sep(s: Seq<char>)
    requires
        forall|i: int| 0 <= i < s.len() ==> !is_target_sep(#[trigger] s[i]),
    ensures
        after_last_sep(s) == s,
    decreases s.len(),
{
    if s.len() > 0 {
        lemma_no_sep(s.drop_last());
        assert(s.drop_last().push(s.last()) =~= s);
    }
}

/// After a separator followed by separator-free text, that text is what is
/// after the last separator.
proof fn lemma_after_sep(a: Seq<char>, sep: char, b: Seq<char>)
    requires
        is_target_sep(sep),
        forall|i: int| 0 <= i < b.len() ==> !is_target_sep(#[trigger] b[i]),
    ensures
        after_last_sep(a.push(sep) + b) == b,
    decreases b.len(),
{
    let x = a.push(sep) + b;
    if b.len() == 0 {
        assert(x =~= a.push(sep));
    } else {
        assert(x.drop_last() =~= a.push(sep) + b.drop_last());
        lemma_after_sep(a, sep, b.drop_last());
        assert(b.drop_last().push(b.last()) =~= b);
    }
}

/// Replacing a pattern whose first character does not occur changes nothing.
proof fn lemma_replace_absent(s: Seq<char>, p: Seq<char>, r: Seq<char>)
    requires
        p.len() > 0,
        forall|i: int| 0 <= i < s.len() ==> #[trigger] s[i] != p[0],
    ensures
        replace_all(s, p, r) == s,
    decreases s.len(),
{
    if s.len() >= p.len() {
        assert(s.take(p.len() as int)[0] == s[0]);
        lemma_replace_absent(s.drop_first(), p, r);
        assert(seq![s[0]] + s.drop_first() =~= s);
    }
}

/// Digits hold no separator, no `#` and no white space.
proof fn lemma_decimal_plain(n: nat)
    ensures
        forall|i: int| 0 <= i < decimal(n).len() ==> {
            &&& !is_target_sep(#[trigger] decimal(n)[i])
            &&& decimal(n)[i] != '#'
            &&& !is_ws(decimal(n)[i])
        },
{
    lemma_decimal_digits(n);
    assert forall|i: int| 0 <= i < decimal(n).len() implies {
        &&& !is_target_sep(#[trigger] decimal(n)[i])
        &&& decimal(n)[i] != '#'
        &&& !is_ws(decimal(n)[i])
    } by {
        assert(crate::text::is_digit(decimal(n)[i]));
    }
}

/// A pane id written the ways tmux writes it reads back as that id: `%<n>`
/// (the `#{pane_id}` format), the bare number, and a
/// `session:window.pane` target ending in the number.
pub proof fn law_target_round_trip(n: u64, prefix: Seq<char>, sep: char)
    requires
        is_target_sep(sep),
        prefix.len() == 0 || !is_ws(prefix[0]),
    ensures
        format_pane_spec("#{pane_id}"@, n) == pct_id(n),
        parse_target_spec(pct_id(n)) == Some(n),
        parse_target_spec(decimal(n as nat)) == Some(n),
        parse_target_spec(prefix.push(sep) + decimal(n as nat)) == Some(n),
{
    let d = decimal(n as nat);
    lemma_decimal_digits(n as nat);
    lemma_decimal_plain(n as nat);
    lemma_parse_decimal(n);
    // the format
    reveal_strlit("#{pane_id}");
    reveal_strlit("#{pane_index}");
    reveal_strlit("#D");
    let p1 = "#{pane_id}"@;
    assert(p1.take(p1.len() as int) =~= p1);
    assert(replace_all(p1.skip(p1.len() as int), p1, pct_id(n)) == Seq::<char>::empty()) by {
        assert(p1.skip(p1.len() as int).len() == 0);
    }
    assert(replace_all(p1, p1, pct_id(n)) =~= pct_id(n));
    let x = pct_id(n);
    assert forall|i: int| 0 <= i < x.len() implies #[trigger] x[i] != '#' by {
        if i > 0 {
            assert(x[i] == d[i - 1]);
        }
    }
    lemma_replace_absent(x, "#{pane_index}"@, d);
    lemma_replace_absent(x, "#D"@, x);
    // `%<n>`
    assert(x[0] == '%');
    assert(x.last() == d.last());
    lemma_trim_noop(x);
    assert(strip_pct(x) =~= d);
    lemma_no_sep(d);
    // the bare number
    lemma_trim_noop(d);
    assert(strip_pct(d) == d);
    // `session:window.pane`
    let t = prefix.push(sep) + d;
    assert(t.last() == d.last());
    if prefix.len() > 0 {
        assert(t[0] == prefix[0]);
    } else {
        assert(t[0] == sep);
    }
    lemma_trim_noop(t);
    if prefix.len() > 0 && prefix[0] == '%' {
        assert(strip_pct(t) =~= prefix.drop_first().push(sep) + d);
        lemma_after_sep(prefix.drop_first(), sep, d);
    } else {
        if prefix.len() == 0 {
            assert(t[0] == sep);
        }
        assert(strip_pct(t) == t);
        lemma_after_sep(prefix, sep, d);
    }
}

/// tmux key names send the keys they name: `Up`, `Down`, `Right`, `Left`
/// the cursor sequences `ESC [ A`, `ESC [ B`, `ESC [ C`, `ESC [ D`;
/// `Enter` (also `C-m`, `KPEnter`) a carriage return; `Tab` (also `C-i`) a
/// tab; `Space` a space; `Escape`/`Esc` ESC; `BSpace`/`DC` DEL.
pub proof fn law_tmux_key_names()
    ensures
        translate_key_spec("Enter"@) == seq!['\r'],
        translate_key_spec("C-m"@) == seq!['\r'],
        translate_key_spec("KPEnter"@) == seq!['\r'],
        translate_key_spec("Tab"@) == seq!['\t'],
        translate_key_spec("C-i"@) == seq!['\t'],
        translate_key_spec("Space"@) == seq![' '],
        translate_key_spec("Escape"@) == seq!['\x1b'],
        translate_key_spec("Esc"@) == seq!['\x1b'],
        translate_key_spec("BSpace"@) == seq!['\x7f'],
        translate_key_spec("DC"@) == seq!['\x7f'],
        translate_key_spec("Up"@) == seq!['\x1b', '[', 'A'],
        translate_key_spec("Down"@) == seq!['\x1b', '[', 'B'],
        translate_key_spec("Right"@) == seq!['\x1b', '[', 'C'],
        translate_key_spec("Left"@) == seq!['\x1b', '[', 'D'],
{
    reveal_strlit("Enter");
    reveal_strlit("C-m");
    reveal_strlit("KPEnter");
    reveal_strlit("Tab");
    reveal_strlit("C-i");
    reveal_strlit("Space");
    reveal_strlit("Escape");
    reveal_strlit("Esc");
    reveal_strlit("BSpace");
    reveal_strlit("DC");
    reveal_strlit("Up");
    reveal_strlit("Down");
    reveal_strlit("Right");
    reveal_strlit("Left");
    reveal_strlit("\r");
    reveal_strlit("\t");
    reveal_strlit(" ");
    reveal_strlit("\x1b");
    reveal_strlit("\x7f");
    reveal_strlit("\x1b[A");
    reveal_strlit("\x1b[B");
    reveal_strlit("\x1b[C");
    reveal_strlit("\x1b[D");
    assert("Enter"@.len() == 5);
    assert("C-m"@.len() == 3);
    assert("KPEnter"@.len() == 7);
    assert("Tab"@.len() == 3);
    assert("C-i"@.len() == 3);
    assert("Space"@.len() == 5);
    assert("Escape"@.len() == 6);
    assert("Esc"@.len() == 3);
    assert("BSpace"@.len() == 6);
    assert("DC"@.len() == 2);
    assert("Up"@.len() == 2);
    assert("Down"@.len() == 4);
    assert("Right"@.len() == 5);
    assert("Left"@.len() == 4);
    assert("Enter"@[0] != "Space"@[0]);
    assert("Enter"@[0] != "Right"@[0]);
    assert("C-m"@[0] != "Tab"@[0]);
    assert("C-m"@[2] != "C-i"@[2]);
    assert("C-m"@[0] != "Esc"@[0]);
    assert("Tab"@[0] != "C-i"@[0]);
    assert("Tab"@[0] != "Esc"@[0]);
    assert("C-i"@[0] != "Esc"@[0]);
    assert("Space"@[0] != "Right"@[0]);
    assert("Escape"@[0] != "BSpace"@[0]);
    assert("DC"@[0] != "Up"@[0]);
    assert("Down"@[0] != "Left"@[0]);
    assert("\r"@ =~= seq!['\r']);
    assert("\t"@ =~= seq!['\t']);
    assert(" "@ =~= seq![' ']);
    assert("\x1b"@ =~= seq!['\x1b']);
    assert("\x7f"@ =~= seq!['\x7f']);
    assert("\x1b[A"@ =~= seq!['\x1b', '[', 'A']);
    assert("\x1b[B"@ =~= seq!['\x1b', '[', 'B']);
    assert("\x1b[C"@ =~= seq!['\x1b', '[', 'C']);
    assert("\x1b[D"@ =~= seq!['\x1b', '[', 'D']);
}

/// The tmux pane id a target string names (`%3`, `7`, `sess:1.2`).
pub fn parse_target(t: &str) -> (r: Option<u64>)
    ensures
        r == parse_target_spec(t@),
{
    let v = chars_of(t);
    let tr = trim_chars(v.as_slice());
    let start: usize = if tr.len() > 0 && tr[0] == '%' {
        1
    } else {
        0
    };
    let d = slice_to_vec(tr.as_slice(), start, tr.len());
    proof {
        assert(d@ =~= strip_pct(tr@));
    }
    let mut j: usize = d.len();
    proof {
        assert(d@.take(j as int) =~= d@);
        assert(d@.skip(j as int) =~= Seq::<char>::empty());
        assert(after_last_sep(d@) + Seq::<char>::empty() =~= after_last_sep(d@));
    }
    loop
        invariant_except_break
            j <= d@.len(),
            after_last_sep(d@) == after_last_sep(d@.take(j as int)) + d@.skip(j as int),
        ensures
            j <= d@.len(),
            after_last_sep(d@) == d@.skip(j as int),
        decreases j,
    {
        if j == 0 {
            proof {
                assert(d@.take(0) =~= Seq::<char>::empty());
            }
            break;
        }
        let c = d[j - 1];
        if c == '.' || c == ':' {
            proof {
                assert(d@.take(j as int).last() == c);
            }
            break;
        }
        proof {
            let tj = d@.take(j as int);
            assert(tj.last() == c);
            assert(tj.drop_last() =~= d@.take(j - 1));
            assert(d@.skip(j - 1) =~= seq![c] + d@.skip(j as int));
            assert(after_last_sep(d@.take(j - 1)).push(c) + d@.skip(j as int) =~= after_last_sep(
                d@.take(j - 1),
            ) + d@.skip(j - 1));
        }
        j = j - 1;
    }
    let last = slice_to_vec(d.as_slice(), j, d.len());
    proof {
        assert(last@ =~= d@.skip(j as int));
    }
    parse_u64(last.as_slice())
}

fn pct_id_string(id: u64) -> (r: Vec<char>)
    ensures
        r@ == pct_id(id),
{
    let mut r: Vec<char> = Vec::new();
    r.push('%');
    let mut d = decimal_chars(id);
    r.append(&mut d);
    proof {
        assert(r@ =~= pct_id(id));
    }
    r
}

/// Substitutes the pane id into a tmux format string.
pub fn format_pane(fmt: &str, pane_id: u64) -> (r: String)
    ensures
        r@ == format_pane_spec(fmt@, pane_id),
{
    proof {
        reveal_strlit("#{pane_id}");
        reveal_strlit("#{pane_index}");
        reveal_strlit("#D");
    }
    let f = chars_of(fmt);
    let pid = pct_id_string(pane_id);
    let dec = decimal_chars(pane_id);
    let p1 = chars_of("#{pane_id}");
    let p2 = chars_of("#{pane_index}");
    let p3 = chars_of("#D");
    let s1 = replace_chars(f.as_slice(), p1.as_slice(), pid.as_slice());
    let s2 = replace_chars(s1.as_slice(), p2.as_slice(), dec.as_slice());
    let s3 = replace_chars(s2.as_slice(), p3.as_slice(), pid.as_slice());
    string_from_chars(s3.as_slice())
}

/// The control character `C-x` stands for, if `t` is such a token.
fn ctrl_key_of(t: &str) -> (r: Option<char>)
    ensures
        r == ctrl_key(t@),
{
    let v = chars_of(t);
    if v.len() > 2 && v[0] == 'C' && v[1] == '-' {
        let lower = to_ascii_lower(v[2]);
        if 'a' <= lower && lower <= 'z' {
            let code = (lower as u32) - ('a' as u32) + 1;
            return Some(char_from_ascii(code as u8));
        }
    }
    None
}

/// The bytes a tmux `send-keys` key name stands for, as a string; tokens
/// that are no key name are sent as they are.
pub fn translate_key(token: &str) -> (r: String)
    ensures
        r@ == translate_key_spec(token@),
{
    if str_eq(token, "Enter") || str_eq(token, "C-m") || str_eq(token, "KPEnter") {
        owned("\r")
    } else if str_eq(token, "Tab") || str_eq(token, "C-i") {
        owned("\t")
    } else if str_eq(token, "Space") {
        owned(" ")
    } else if str_eq(token, "Escape") || str_eq(token, "Esc") {
        owned("\x1b")
    } else if str_eq(token, "BSpace") || str_eq(token, "DC") {
        owned("\x7f")
    } else if str_eq(token, "Up") {
        owned("\x1b[A")
    } else if str_eq(token, "Down") {
        owned("\x1b[B")
    } else if str_eq(token, "Right") {
        owned("\x1b[C")
    } else if str_eq(token, "Left") {
        owned("\x1b[D")
    } else {
        match ctrl_key_of(token) {
            Some(c) => {
                let mut s = String::new();
                push_char(&mut s, c);
                proof {
                    assert(s@ =~= seq![c]);
                }
                s
            },
            None => owned(token),
        }
    }
}

/// The `TMUX` value: `<socket>,<server pid>,0`.
pub open spec fn tmux_value(socket: Seq<char>, server_pid: u32) -> Seq<char> {
    socket + ","@ + decimal(server_pid as nat) + ",0"@
}

/// The environment a pane gets so that agents in it take themselves to be
/// inside tmux: `TMUX` (socket, the server's pid `server_pid`, session 0),
/// `TMUX_PANE` (`%<id>`), `TERM=xterm-256color`, and, with `claude_teams`,
/// `CLAUDE_CODE_EXPERIMENTAL_AGENT_TEAMS=1`.
pub fn tmux_env(pane_id: u64, socket: &str, claude_teams: bool, server_pid: u32) -> (r: Vec<
    (&'static str, String),
>)
    ensures
        r@.len() == if claude_teams {
            4nat
        } else {
            3nat
        },
        r@[0].0@ == "TMUX"@ && r@[0].1@ == tmux_value(socket@, server_pid),
        r@[1].0@ == "TMUX_PANE"@ && r@[1].1@ == pct_id(pane_id),
        r@[2].0@ == "TERM"@ && r@[2].1@ == "xterm-256color"@,
        claude_teams ==> r@[3].0@ == "CLAUDE_CODE_EXPERIMENTAL_AGENT_TEAMS"@ && r@[3].1@ == "1"@,
{
    let a = concat2(socket, ",");
    let pid = u64_to_string(server_pid as u64);
    let b = concat2(a.as_str(), pid.as_str());
    let tmux = concat2(b.as_str(), ",0");
    let pane = pct_id_string(pane_id);
    let mut v: Vec<(&'static str, String)> = Vec::new();
    v.push(("TMUX", tmux));
    v.push(("TMUX_PANE", string_from_chars(pane.as_slice())));
    v.push(("TERM", owned("xterm-256color")));
    if claude_teams {
        v.push(("CLAUDE_CODE_EXPERIMENTAL_AGENT_TEAMS", owned("1")));
    }
    v
}

#[verifier::external_type_specification]
#[verifier::external_body]
pub struct ExPathBuf(std::path::PathBuf);

/// A worktree made for an agent: where it is and its branch.
#[derive(Debug)]
pub struct WorktreeInfo {
    pub path: std::path::PathBuf,
    pub branch: String,
}

/// Why a worktree operation failed.
#[derive(Debug)]
pub enum WorktreeError {
    NotGitRepo,
    GitCommandFailed(String),
    Io(std::io::Error),
}

/// Branch of an agent's worktree: `zm/<agent>-<id>`.
pub fn worktree_branch(agent_name: &str, id: &str) -> (r: String)
    ensures
        r@ == "zm/"@ + agent_name@ + "-"@ + id@,
{
    let a = concat2("zm/", agent_name);
    let b = concat2(a.as_str(), "-");
    concat2(b.as_str(), id)
}

/// Directory name of an agent's worktree under `.zm-worktrees`:
/// `<agent>-<id>`.
pub fn worktree_dir_name(agent_name: &str, id: &str) -> (r: String)
    ensures
        r@ == agent_name@ + "-"@ + id@,
{
    let a = concat2(agent_name, "-");
    concat2(a.as_str(), id)
}

/// Lower-case hexadecimal digit of `d` (below 16).
pub open spec fn hex_char(d: nat) -> char {
    if d < 10 {
        (('0' as u32) + d) as char
    } else {
        (('a' as u32) + d - 10) as char
    }
}

/// The last `width` hexadecimal digits of `n`, zero-padded.
pub open spec fn hex_fixed(n: nat, width: nat) -> Seq<char>
    decreases width,
{
    if width == 0 {
        seq![]
    } else {
        hex_fixed(n / 16, (width - 1) as nat).push(hex_char(n % 16))
    }
}

fn hex_fixed_chars(n: u64, width: u32) -> (r: Vec<char>)
    ensures
        r@ == hex_fixed(n as nat, width as nat),
    decreases width,
{
    if width == 0 {
        Vec::new()
    } else {
        let mut r = hex_fixed_chars(n / 16, width - 1);
        let d = n % 16;
        let c = if d < 10 {
            char_from_ascii((48 + d) as u8)
        } else {
            char_from_ascii((87 + d) as u8)
        };
        r.push(c);
        r
    }
}

/// The short id of a worktree: eight lower-case hexadecimal digits of the
/// low 32 bits of `nanos ^ pid` (nanoseconds since the epoch, process id).
pub open spec fn short_id_spec(nanos: u128, pid: u32) -> Seq<char> {
    hex_fixed(((nanos ^ (pid as u128)) & 0xffff_ffffu128) as nat, 8)
}

/// The short id of a worktree from the clock reading `nanos` and the
/// process id `pid`.
pub fn short_id(nanos: u128, pid: u32) -> (r: String)
    ensures
        r@ == short_id_spec(nanos, pid),
{
    let seed: u128 = nanos ^ (pid as u128);
    let low: u128 = seed & 0xffff_ffffu128;
    assert(seed & 0xffff_ffffu128 <= 0xffff_ffffu128) by (bit_vector);
    let v = hex_fixed_chars(low as u64, 8);
    string_from_chars(v.as_slice())
}

/// The repository root `git rev-parse --show-toplevel` reported: its
/// trimmed output when it succeeded, else not a repository.
pub fn git_root_result(success: bool, stdout: &str) -> (r: Result<String, WorktreeError>)
    ensures
        !success ==> r matches Err(WorktreeError::NotGitRepo),
        success ==> (r matches Ok(s) && s@ == trim_seq(stdout@)),
{
    if !success {
        return Err(WorktreeError::NotGitRepo);
    }
    let v = chars_of(stdout);
    let t = trim_chars(v.as_slice());
    Ok(string_from_chars(t.as_slice()))
}

/// The outcome of a `git worktree` command: its trimmed error output when
/// it failed.
pub fn git_command_result(success: bool, stderr: &str) -> (r: Result<(), WorktreeError>)
    ensures
        success ==> r is Ok,
        !success ==> (r matches Err(WorktreeError::GitCommandFailed(m)) && m@ == trim_seq(stderr@)),
{
    if success {
        return Ok(());
    }
    let v = chars_of(stderr);
    let t = trim_chars(v.as_slice());
    Err(WorktreeError::GitCommandFailed(string_from_chars(t.as_slice())))
}

} // verus!
