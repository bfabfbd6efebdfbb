//! The tmux stand-in placed first on an agent's `PATH`: which command a
//! tmux invocation becomes, and what it prints. The subcommands understood
//! are `-V`, `split-window`, `send-keys`, `select-pane`, `list-panes`,
//! `new-window`, `kill-pane` and `display-message`; every other one is
//! accepted and ignored so that the agent carries on.

use vstd::prelude::*;
use crate::agent::{format_pane, format_pane_spec, parse_target, parse_target_spec, translate_key, translate_key_spec};
use crate::ipc::Command;
use crate::text::{
    chars_of, concat2, decimal, owned, parse_u64, parse_u64_spec, replace_all, replace_chars, str_eq,
    string_from_chars, string_views, slice_to_vec, u64_to_string,
};

verus! {

/// Position of the first `x` in `s`; `s.len()` when there is none.
pub open spec fn index_of(s: Seq<Seq<char>>, x: Seq<char>) -> int
    decreases s.len(),
{
    if s.len() == 0 {
        0
    } else if s[0] == x {
        0
    } else {
        1 + index_of(s.drop_first(), x)
    }
}

/// A position before which `x` does not occur, holding `x` unless it is
/// the end, is the position of the first `x`.
pub proof fn lemma_index_of(s: Seq<Seq<char>>, x: Seq<char>, i: int)
    requires
        0 <= i <= s.len(),
        forall|j: int| 0 <= j < i ==> s[j] != x,
        i < s.len() ==> s[i] == x,
    ensures
        index_of(s, x) == i,
    decreases i,
{
    if i > 0 {
        assert forall|j: int| 0 <= j < i - 1 implies s.drop_first()[j] != x by {
            assert(s.drop_first()[j] == s[j + 1]);
        }
        if i - 1 < s.len() - 1 {
            assert(s.drop_first()[i - 1] == s[i]);
        }
        lemma_index_of(s.drop_first(), x, i - 1);
    }
}

/// The argument right after the first `flag`, if both exist.
pub open spec fn flag_value_spec(args: Seq<Seq<char>>, flag: Seq<char>) -> Option<Seq<char>> {
    let i = index_of(args, flag);
    if i + 1 < args.len() {
        Some(args[i + 1])
    } else {
        None
    }
}

/// The pane named by `-t`.
pub open spec fn target_of(args: Seq<Seq<char>>) -> Option<u64> {
    match flag_value_spec(args, "-t"@) {
        Some(t) => parse_target_spec(t),
        None => None,
    }
}

/// The `send-keys` flags that take a value.
pub open spec fn is_valued_flag(a: Seq<char>) -> bool {
    a == "-t"@ || a == "-N"@ || a == "-c"@
}

/// The `send-keys` flags without a value.
pub open spec fn is_bare_flag(a: Seq<char>) -> bool {
    a == "-l"@ || a == "-R"@ || a == "-M"@ || a == "-K"@
}

/// The bytes `send-keys` sends: its key tokens (flags and flag values
/// left out), each as it is when `literal`, else translated, joined.
pub open spec fn send_data(args: Seq<Seq<char>>, literal: bool) -> Seq<char>
    decreases args.len(),
{
    if args.len() == 0 {
        seq![]
    } else if is_valued_flag(args[0]) {
        if args.len() >= 2 {
            send_data(args.skip(2), literal)
        } else {
            seq![]
        }
    } else if is_bare_flag(args[0]) {
        send_data(args.drop_first(), literal)
    } else {
        (if literal {
            args[0]
        } else {
            translate_key_spec(args[0])
        }) + send_data(args.drop_first(), literal)
    }
}

/// The argument after the first `flag` (`-t %1`).
pub fn flag_value(args: &[String], flag: &str) -> (r: Option<String>)
    ensures
        match r {
            Some(v) => flag_value_spec(string_views(args@), flag@) == Some(v@),
            None => flag_value_spec(string_views(args@), flag@) is None,
        },
{
    let ghost views = string_views(args@);
    let mut i: usize = 0;
    while i < args.len()
        invariant
            views == string_views(args@),
            i <= args@.len(),
            forall|j: int| 0 <= j < i ==> views[j] != flag@,
        decreases args@.len() - i,
    {
        if str_eq(args[i].as_str(), flag) {
            proof {
                lemma_index_of(views, flag@, i as int);
            }
            if i + 1 < args.len() {
                return Some(args[i + 1].clone());
            } else {
                return None;
            }
        }
        i = i + 1;
    }
    proof {
        lemma_index_of(views, flag@, i as int);
    }
    None
}

/// Whether `flag` is among the arguments.
pub fn has_flag(args: &[String], flag: &str) -> (r: bool)
    ensures
        r == string_views(args@).contains(flag@),
{
    let ghost views = string_views(args@);
    let mut i: usize = 0;
    while i < args.len()
        invariant
            views == string_views(args@),
            i <= args@.len(),
            forall|j: int| 0 <= j < i ==> views[j] != flag@,
        decreases args@.len() - i,
    {
        if str_eq(args[i].as_str(), flag) {
            assert(views[i as int] == flag@);
            return true;
        }
        i = i + 1;
    }
    false
}

/// The pane named by `-t`, if any.
fn target_arg(args: &[String]) -> (r: Option<u64>)
    ensures
        r == target_of(string_views(args@)),
{
    match flag_value(args, "-t") {
        Some(t) => parse_target(t.as_str()),
        None => None,
    }
}

/// `send-keys`: the keys to send and the pane (`-t`) to send them to;
/// with `-l` the tokens go as they are, else key names are translated.
pub fn cmd_send_keys(args: &[String]) -> (r: Command)
    ensures
        r matches Command::SendKeys { pane, data } && pane == target_of(string_views(args@))
            && data@ == send_data(string_views(args@), string_views(args@).contains("-l"@)),
{
    let ghost views = string_views(args@);
    let pane = target_arg(args);
    let literal = has_flag(args, "-l");
    let mut data = String::new();
    let mut i: usize = 0;
    proof {
        assert(views.skip(0) =~= views);
        assert(data@ + send_data(views, literal) =~= send_data(views, literal));
    }
    while i < args.len()
        invariant
            views == string_views(args@),
            i <= args@.len(),
            data@ + send_data(views.skip(i as int), literal) == send_data(views, literal),
        decreases args@.len() - i,
    {
        let ghost rest = views.skip(i as int);
        proof {
            assert(rest[0] == views[i as int]);
            assert(rest.drop_first() =~= views.skip(i + 1));
        }
        let a = args[i].as_str();
        if str_eq(a, "-t") || str_eq(a, "-N") || str_eq(a, "-c") {
            if args.len() - i >= 2 {
                proof {
                    assert(rest.skip(2) =~= views.skip(i + 2));
                }
                i = i + 2;
            } else {
                proof {
                    assert(views.skip(args@.len() as int) =~= Seq::<Seq<char>>::empty());
                    assert(data@ + Seq::<char>::empty() =~= data@);
                }
                i = args.len();
            }
        } else if str_eq(a, "-l") || str_eq(a, "-R") || str_eq(a, "-M") || str_eq(a, "-K") {
            i = i + 1;
        } else {
            let piece = if literal {
                owned(a)
            } else {
                translate_key(a)
            };
            let ghost before = data@;
            data = concat2(data.as_str(), piece.as_str());
            proof {
                assert(before + (piece@ + send_data(rest.drop_first(), literal)) =~= data@
                    + send_data(views.skip(i + 1), literal));
            }
            i = i + 1;
        }
    }
    proof {
        assert(views.skip(i as int) =~= Seq::<Seq<char>>::empty());
        assert(data@ + Seq::<char>::empty() =~= data@);
    }
    Command::SendKeys { pane, data }
}

/// `select-pane`: `-L`/`-R`/`-U`/`-D` move focus that way, else `-t`
/// focuses a pane; `None` (nothing to do) when neither is given.
pub fn cmd_select_pane(args: &[String]) -> (r: Option<Command>)
    ensures
        ({
            let v = string_views(args@);
            let dir: Option<Seq<char>> = if v.contains("-L"@) {
                Some("left"@)
            } else if v.contains("-R"@) {
                Some("right"@)
            } else if v.contains("-U"@) {
                Some("up"@)
            } else if v.contains("-D"@) {
                Some("down"@)
            } else {
                None
            };
            match dir {
                Some(d) => r matches Some(Command::Focus { dir }) && dir@ == d,
                None => match target_of(v) {
                    Some(id) => r matches Some(Command::SelectPane { id: i }) && i == id,
                    None => r is None,
                },
            }
        }),
{
    if has_flag(args, "-L") {
        Some(Command::Focus { dir: owned("left") })
    } else if has_flag(args, "-R") {
        Some(Command::Focus { dir: owned("right") })
    } else if has_flag(args, "-U") {
        Some(Command::Focus { dir: owned("up") })
    } else if has_flag(args, "-D") {
        Some(Command::Focus { dir: owned("down") })
    } else {
        match target_arg(args) {
            Some(id) => Some(Command::SelectPane { id }),
            None => None,
        }
    }
}

/// `kill-pane`: close the pane named by `-t`; `None` (nothing to do)
/// without one.
pub fn cmd_kill_pane(args: &[String]) -> (r: Option<Command>)
    ensures
        match target_of(string_views(args@)) {
            Some(id) => r matches Some(Command::KillPane { id: i }) && i == id,
            None => r is None,
        },
{
    match target_arg(args) {
        Some(id) => Some(Command::KillPane { id }),
        None => None,
    }
}

/// `split-window`: the pane to focus first (`-t`), and whether the split is
/// side by side (`-h`; tmux's default, `-v`, puts panes one above the other).
pub fn split_request(args: &[String]) -> (r: (Option<u64>, bool))
    ensures
        r.0 == target_of(string_views(args@)),
        r.1 == string_views(args@).contains("-h"@),
{
    (target_arg(args), has_flag(args, "-h"))
}

/// With `-P`, the format the new pane's id is printed in (`-F`, by default
/// `#{pane_id}`).
pub fn print_format(args: &[String]) -> (r: Option<String>)
    ensures
        ({
            let v = string_views(args@);
            if !v.contains("-P"@) {
                r is None
            } else {
                r matches Some(f) && f@ == (match flag_value_spec(v, "-F"@) {
                    Some(g) => g,
                    None => "#{pane_id}"@,
                })
            }
        }),
{
    if !has_flag(args, "-P") {
        return None;
    }
    match flag_value(args, "-F") {
        Some(f) => Some(f),
        None => Some(owned("#{pane_id}")),
    }
}

/// The last argument that does not start with `-`.
pub open spec fn last_plain(args: Seq<Seq<char>>) -> Option<Seq<char>>
    decreases args.len(),
{
    if args.len() == 0 {
        None
    } else if !(args.last().len() > 0 && args.last()[0] == '-') {
        Some(args.last())
    } else {
        last_plain(args.drop_last())
    }
}

/// `display-message -p`: the format to print, the last argument that is no
/// flag (by default `#{pane_id}`); `None` without `-p`.
pub fn display_format(args: &[String]) -> (r: Option<String>)
    ensures
        ({
            let v = string_views(args@);
            if !v.contains("-p"@) {
                r is None
            } else {
                r matches Some(f) && f@ == (match last_plain(v) {
                    Some(g) => g,
                    None => "#{pane_id}"@,
                })
            }
        }),
{
    let ghost v = string_views(args@);
    if !has_flag(args, "-p") {
        return None;
    }
    let mut k: usize = args.len();
    proof {
        assert(v.take(k as int) =~= v);
    }
    while k > 0
        invariant
            v == string_views(args@),
            k <= args@.len(),
            v.contains("-p"@),
            last_plain(v) == last_plain(v.take(k as int)),
        decreases k,
    {
        let a = chars_of(args[k - 1].as_str());
        let ghost t = v.take(k as int);
        proof {
            assert(t.last() == v[k - 1]);
            assert(t.drop_last() =~= v.take(k - 1));
        }
        assert(a@ == v[k - 1]);
        if !(a.len() > 0 && a[0] == '-') {
            let f = args[k - 1].clone();
            proof {
                assert(last_plain(t) == Some(t.last()));
                assert(f@ == v[k - 1]);
            }
            return Some(f);
        }
        k = k - 1;
    }
    proof {
        assert(v.take(0).len() == 0);
    }
    Some(owned("#{pane_id}"))
}

/// `s` without its leading `%` characters.
pub open spec fn strip_all_pct(s: Seq<char>) -> Seq<char>
    decreases s.len(),
{
    if s.len() > 0 && s[0] == '%' {
        strip_all_pct(s.drop_first())
    } else {
        s
    }
}

/// The pane `TMUX_PANE` names (`%<id>`; `%0` when unset); 0 when it holds
/// no number.
pub open spec fn env_pane_spec(tmux_pane: Option<Seq<char>>) -> u64 {
    let s = match tmux_pane {
        Some(p) => p,
        None => "%0"@,
    };
    match parse_u64_spec(strip_all_pct(s)) {
        Some(n) => n,
        None => 0,
    }
}

/// The current pane's id from the value of `TMUX_PANE`.
pub fn env_pane(tmux_pane: Option<&str>) -> (r: u64)
    ensures
        r == env_pane_spec(match tmux_pane {
            Some(p) => Some(p@),
            None => None,
        }),
{
    let v = match tmux_pane {
        Some(p) => chars_of(p),
        None => chars_of("%0"),
    };
    let mut i: usize = 0;
    proof {
        assert(v@.skip(0) =~= v@);
    }
    while i < v.len() && v[i] == '%'
        invariant
            i <= v@.len(),
            strip_all_pct(v@) == strip_all_pct(v@.skip(i as int)),
        decreases v@.len() - i,
    {
        proof {
            assert(v@.skip(i as int)[0] == v@[i as int]);
            assert(v@.skip(i as int).drop_first() =~= v@.skip(i + 1));
        }
        i = i + 1;
    }
    let rest = slice_to_vec(v.as_slice(), i, v.len());
    proof {
        assert(rest@ =~= v@.skip(i as int));
    }
    match parse_u64(rest.as_slice()) {
        Some(n) => n,
        None => 0,
    }
}

/// A `list-panes` line: the `-F` format with the pane's id, `#{pane_active}`
/// (`1`/`0`), `#{pane_width}` and `#{pane_height}` substituted; without a
/// format, `%<id>: [<cols>x<rows>]`, then ` (active)` for the active pane.
pub open spec fn list_line_spec(fmt: Option<Seq<char>>, id: u64, active: bool, cols: u64, rows: u64) -> Seq<
    char,
> {
    match fmt {
        Some(f) => replace_all(
            replace_all(
                replace_all(
                    format_pane_spec(f, id),
                    "#{pane_active}"@,
                    if active {
                        "1"@
                    } else {
                        "0"@
                    },
                ),
                "#{pane_width}"@,
                decimal(cols as nat),
            ),
            "#{pane_height}"@,
            decimal(rows as nat),
        ),
        None => "%"@ + decimal(id as nat) + ": ["@ + decimal(cols as nat) + "x"@ + decimal(rows as nat)
            + "]"@ + if active {
            " (active)"@
        } else {
            ""@
        },
    }
}

/// One line of `list-panes` output.
pub fn list_line(fmt: Option<&str>, id: u64, active: bool, cols: u64, rows: u64) -> (r: String)
    ensures
        r@ == list_line_spec(
            match fmt {
                Some(f) => Some(f@),
                None => None,
            },
            id,
            active,
            cols,
            rows,
        ),
{
    let c = u64_to_string(cols);
    let h = u64_to_string(rows);
    match fmt {
        Some(f) => {
            proof {
                reveal_strlit("#{pane_active}");
                reveal_strlit("#{pane_width}");
                reveal_strlit("#{pane_height}");
            }
            let s0 = format_pane(f, id);
            let a = chars_of(s0.as_str());
            let flag = if active {
                chars_of("1")
            } else {
                chars_of("0")
            };
            let p1 = chars_of("#{pane_active}");
            let p2 = chars_of("#{pane_width}");
            let p3 = chars_of("#{pane_height}");
            let cv = chars_of(c.as_str());
            let hv = chars_of(h.as_str());
            let s1 = replace_chars(a.as_slice(), p1.as_slice(), flag.as_slice());
            let s2 = replace_chars(s1.as_slice(), p2.as_slice(), cv.as_slice());
            let s3 = replace_chars(s2.as_slice(), p3.as_slice(), hv.as_slice());
            string_from_chars(s3.as_slice())
        },
        None => {
            let n = u64_to_string(id);
            let s1 = concat2("%", n.as_str());
            let s2 = concat2(s1.as_str(), ": [");
            let s3 = concat2(s2.as_str(), c.as_str());
            let s4 = concat2(s3.as_str(), "x");
            let s5 = concat2(s4.as_str(), h.as_str());
            let s6 = concat2(s5.as_str(), "]");
            if active {
                concat2(s6.as_str(), " (active)")
            } else {
                concat2(s6.as_str(), "")
            }
        },
    }
}

/// What a tmux subcommand is taken for.
#[derive(Debug, Clone, Copy, PartialEq, Eq, Structural)]
pub enum ShimCommand {
    Version,
    Split,
    SendKeys,
    SelectPane,
    ListPanes,
    NewWindow,
    KillPane,
    Display,
    /// Accepted and ignored.
    Ignore,
}

/// The subcommand a tmux invocation's first argument names, aliases
/// included.
pub open spec fn subcommand_spec(sub: Seq<char>) -> ShimCommand {
    if sub == "-V"@ || sub == "--version"@ {
        ShimCommand::Version
    } else if sub == "split-window"@ || sub == "splitw"@ {
        ShimCommand::Split
    } else if sub == "send-keys"@ || sub == "send"@ {
        ShimCommand::SendKeys
    } else if sub == "select-pane"@ || sub == "selectp"@ {
        ShimCommand::SelectPane
    } else if sub == "list-panes"@ || sub == "lsp"@ {
        ShimCommand::ListPanes
    } else if sub == "new-window"@ || sub == "neww"@ {
        ShimCommand::NewWindow
    } else if sub == "kill-pane"@ || sub == "killp"@ {
        ShimCommand::KillPane
    } else if sub == "display-message"@ || sub == "display"@ || sub == "displayp"@ {
        ShimCommand::Display
    } else {
        ShimCommand::Ignore
    }
}

/// The subcommand named by `sub`.
pub fn subcommand(sub: &str) -> (r: ShimCommand)
    ensures
        r == subcommand_spec(sub@),
{
    if str_eq(sub, "-V") || str_eq(sub, "--version") {
        ShimCommand::Version
    } else if str_eq(sub, "split-window") || str_eq(sub, "splitw") {
        ShimCommand::Split
    } else if str_eq(sub, "send-keys") || str_eq(sub, "send") {
        ShimCommand::SendKeys
    } else if str_eq(sub, "select-pane") || str_eq(sub, "selectp") {
        ShimCommand::SelectPane
    } else if str_eq(sub, "list-panes") || str_eq(sub, "lsp") {
        ShimCommand::ListPanes
    } else if str_eq(sub, "new-window") || str_eq(sub, "neww") {
        ShimCommand::NewWindow
    } else if str_eq(sub, "kill-pane") || str_eq(sub, "killp") {
        ShimCommand::KillPane
    } else if str_eq(sub, "display-message") || str_eq(sub, "display") || str_eq(sub, "displayp") {
        ShimCommand::Display
    } else {
        ShimCommand::Ignore
    }
}

/// Every tmux subcommand the shim supports, under its name and its alias,
/// is taken for its own command, and only for it: `send-keys`/`send` sends
/// keys, `split-window`/`splitw` splits, `kill-pane`/`killp` closes a pane,
/// and so on; any other name, and only another name, is accepted and
/// ignored.
pub proof fn law_subcommand_names(sub: Seq<char>)
    ensures
        subcommand_spec(sub) == ShimCommand::Version <==> (sub == "-V"@ || sub == "--version"@),
        subcommand_spec(sub) == ShimCommand::Split <==> (sub == "split-window"@ || sub == "splitw"@),
        subcommand_spec(sub) == ShimCommand::SendKeys <==> (sub == "send-keys"@ || sub == "send"@),
        subcommand_spec(sub) == ShimCommand::SelectPane <==> (sub == "select-pane"@ || sub == "selectp"@),
        subcommand_spec(sub) == ShimCommand::ListPanes <==> (sub == "list-panes"@ || sub == "lsp"@),
        subcommand_spec(sub) == ShimCommand::NewWindow <==> (sub == "new-window"@ || sub == "neww"@),
        subcommand_spec(sub) == ShimCommand::KillPane <==> (sub == "kill-pane"@ || sub == "killp"@),
        subcommand_spec(sub) == ShimCommand::Display <==> (sub == "display-message"@ || sub == "display"@ || sub == "displayp"@),
        subcommand_spec(sub) == ShimCommand::Ignore <==> !(sub == "-V"@ || sub == "--version"@ || sub == "split-window"@ || sub == "splitw"@ || sub == "send-keys"@ || sub == "send"@ || sub == "select-pane"@ || sub == "selectp"@ || sub == "list-panes"@ || sub == "lsp"@ || sub == "new-window"@ || sub == "neww"@ || sub == "kill-pane"@ || sub == "killp"@ || sub == "display-message"@ || sub == "display"@ || sub == "displayp"@),
{
    reveal_strlit("-V");
    reveal_strlit("--version");
    reveal_strlit("split-window");
    reveal_strlit("splitw");
    reveal_strlit("send-keys");
    reveal_strlit("send");
    reveal_strlit("select-pane");
    reveal_strlit("selectp");
    reveal_strlit("list-panes");
    reveal_strlit("lsp");
    reveal_strlit("new-window");
    reveal_strlit("neww");
    reveal_strlit("kill-pane");
    reveal_strlit("killp");
    reveal_strlit("display-message");
    reveal_strlit("display");
    reveal_strlit("displayp");
    // names of one length differ in some letter
    assert("--version"@[0] != "send-keys"@[0]);
    assert("--version"@[0] != "kill-pane"@[0]);
    assert("send-keys"@[0] != "kill-pane"@[0]);
    assert("send"@[0] != "neww"@[0]);
    assert("selectp"@[0] != "display"@[0]);
    assert("list-panes"@[0] != "new-window"@[0]);
    assert(subcommand_spec("-V"@) == ShimCommand::Version);
    assert(subcommand_spec("--version"@) == ShimCommand::Version);
    assert("-V"@.len() == 2);
    assert("--version"@.len() == 9);
    assert("split-window"@.len() == 12);
    assert("splitw"@.len() == 6);
    assert("send-keys"@.len() == 9);
    assert("send"@.len() == 4);
    assert("select-pane"@.len() == 11);
    assert("selectp"@.len() == 7);
    assert("list-panes"@.len() == 10);
    assert("lsp"@.len() == 3);
    assert("new-window"@.len() == 10);
    assert("neww"@.len() == 4);
    assert("kill-pane"@.len() == 9);
    assert("killp"@.len() == 5);
    assert("display-message"@.len() == 15);
    assert("display"@.len() == 7);
    assert("displayp"@.len() == 8);
    assert(subcommand_spec("split-window"@) == ShimCommand::Split);
    assert(subcommand_spec("splitw"@) == ShimCommand::Split);
    assert(subcommand_spec("send-keys"@) == ShimCommand::SendKeys);
    assert(subcommand_spec("send"@) == ShimCommand::SendKeys);
    assert(subcommand_spec("select-pane"@) == ShimCommand::SelectPane);
    assert(subcommand_spec("selectp"@) == ShimCommand::SelectPane);
    assert(subcommand_spec("list-panes"@) == ShimCommand::ListPanes);
    assert(subcommand_spec("lsp"@) == ShimCommand::ListPanes);
    assert(subcommand_spec("new-window"@) == ShimCommand::NewWindow);
    assert(subcommand_spec("neww"@) == ShimCommand::NewWindow);
    assert(subcommand_spec("kill-pane"@) == ShimCommand::KillPane);
    assert(subcommand_spec("killp"@) == ShimCommand::KillPane);
    assert(subcommand_spec("display-message"@) == ShimCommand::Display);
    assert(subcommand_spec("display"@) == ShimCommand::Display);
    assert(subcommand_spec("displayp"@) == ShimCommand::Display);
}

} // verus!
