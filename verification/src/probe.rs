//! The terminal-detection probe harness: how a probe program is launched
//! (directly, through `cmd`, `pwsh` or `powershell`), how its report is
//! read, and how each measurement is classified.

use vstd::prelude::*;
use crate::text::{
    chars_of, concat2, is_ws, lower_chars, lower_seq, owned, replace_all, replace_chars, slice_to_vec,
    split_chars, split_on, starts_with, str_eq, string_from_chars, string_views, trim_chars, trim_seq,
    views,
};

verus! {

/// `s` quoted for PowerShell: in single quotes, each `'` doubled.
pub open spec fn squote_spec(s: Seq<char>) -> Seq<char> {
    seq!['\''] + replace_all(s, seq!['\''], seq!['\'', '\'']) + seq!['\'']
}

/// `s` quoted for PowerShell.
pub fn squote(s: &str) -> (r: String)
    ensures
        r@ == squote_spec(s@),
{
    let v = chars_of(s);
    let p: Vec<char> = vec!['\''];
    let q: Vec<char> = vec!['\'', '\''];
    let inner = replace_chars(v.as_slice(), p.as_slice(), q.as_slice());
    let mut out: Vec<char> = Vec::new();
    out.push('\'');
    let mut i: usize = 0;
    while i < inner.len()
        invariant
            i <= inner@.len(),
            out@ == seq!['\''] + inner@.take(i as int),
        decreases inner@.len() - i,
    {
        out.push(inner[i]);
        proof {
            assert(inner@.take(i + 1) == inner@.take(i as int).push(inner@[i as int]));
        }
        i = i + 1;
    }
    out.push('\'');
    proof {
        assert(p@ =~= seq!['\'']);
        assert(q@ =~= seq!['\'', '\'']);
        assert(inner@.take(i as int) =~= inner@);
        assert(out@ =~= squote_spec(s@));
    }
    string_from_chars(out.as_slice())
}

/// A probe program: a language tag, the program and its arguments, and
/// whether it can be run here.
#[derive(Debug)]
pub struct Probe {
    pub lang: &'static str,
    pub prog: String,
    pub args: Vec<String>,
    pub available: bool,
}

/// The PowerShell command running `prog` with `args`: `& 'prog' 'a1' ...`.
pub open spec fn ps_command(prog: Seq<char>, args: Seq<Seq<char>>) -> Seq<char>
    decreases args.len(),
{
    if args.len() == 0 {
        "& "@ + squote_spec(prog)
    } else {
        ps_command(prog, args.drop_last()) + " "@ + squote_spec(args.last())
    }
}

/// The command line that runs a probe through a launch path: as it is
/// (`direct`), through `cmd.exe /c` (`cmd`), or as a PowerShell command
/// (`pwsh`, `powershell`); an unknown launch path is run as a program of
/// that name.
pub open spec fn argv_spec(prog: Seq<char>, args: Seq<Seq<char>>, launch: Seq<char>) -> Seq<Seq<char>> {
    if launch == "direct"@ {
        seq![prog] + args
    } else if launch == "cmd"@ {
        seq!["cmd.exe"@, "/c"@, prog] + args
    } else if launch == "pwsh"@ || launch == "powershell"@ {
        seq![
            if launch == "pwsh"@ {
                "pwsh"@
            } else {
                "powershell"@
            },
            "-NoProfile"@,
            "-NonInteractive"@,
            "-Command"@,
            ps_command(prog, args),
        ]
    } else {
        seq![launch]
    }
}

fn push_all(v: &mut Vec<String>, args: &[String])
    ensures
        string_views(final(v)@) == string_views(old(v)@) + string_views(args@),
{
    let mut i: usize = 0;
    while i < args.len()
        invariant
            i <= args@.len(),
            string_views(v@) == string_views(old(v)@) + string_views(args@).take(i as int),
        decreases args@.len() - i,
    {
        let ghost before = string_views(v@);
        v.push(args[i].clone());
        proof {
            assert(string_views(v@) =~= before.push(args@[i as int]@));
            assert(string_views(args@).take(i + 1) =~= string_views(args@).take(i as int).push(
                args@[i as int]@,
            ));
        }
        i = i + 1;
    }
    proof {
        assert(string_views(args@).take(i as int) =~= string_views(args@));
    }
}

/// The command line that runs `probe` through launch path `launch`.
pub fn argv_for(probe: &Probe, launch: &str) -> (r: Vec<String>)
    ensures
        string_views(r@) == argv_spec(probe.prog@, string_views(probe.args@), launch@),
{
    let ghost args = string_views(probe.args@);
    if str_eq(launch, "direct") {
        let mut v: Vec<String> = Vec::new();
        v.push(probe.prog.clone());
        push_all(&mut v, probe.args.as_slice());
        proof {
            assert(string_views(v@) =~= seq![probe.prog@] + args);
        }
        v
    } else if str_eq(launch, "cmd") {
        let mut v: Vec<String> = Vec::new();
        v.push(owned("cmd.exe"));
        v.push(owned("/c"));
        v.push(probe.prog.clone());
        push_all(&mut v, probe.args.as_slice());
        proof {
            assert(string_views(v@) =~= seq!["cmd.exe"@, "/c"@, probe.prog@] + args);
        }
        v
    } else if str_eq(launch, "pwsh") || str_eq(launch, "powershell") {
        let shell = if str_eq(launch, "pwsh") {
            owned("pwsh")
        } else {
            owned("powershell")
        };
        let q = squote(probe.prog.as_str());
        let mut cmd = concat2("& ", q.as_str());
        let mut i: usize = 0;
        while i < probe.args.len()
            invariant
                args == string_views(probe.args@),
                i <= args.len(),
                cmd@ == ps_command(probe.prog@, args.take(i as int)),
            decreases args.len() - i,
        {
            proof {
                assert(args.take(i + 1).drop_last() =~= args.take(i as int));
                assert(args.take(i + 1).last() == probe.args@[i as int]@);
            }
            let qa = squote(probe.args[i].as_str());
            let spaced = concat2(cmd.as_str(), " ");
            cmd = concat2(spaced.as_str(), qa.as_str());
            i = i + 1;
        }
        proof {
            assert(args.take(i as int) =~= args);
        }
        let mut v: Vec<String> = Vec::new();
        v.push(shell);
        v.push(owned("-NoProfile"));
        v.push(owned("-NonInteractive"));
        v.push(owned("-Command"));
        v.push(cmd);
        proof {
            assert(string_views(v@) =~= argv_spec(probe.prog@, args, launch@));
        }
        v
    } else {
        let mut v: Vec<String> = Vec::new();
        v.push(owned(launch));
        proof {
            assert(string_views(v@) =~= seq![launch@]);
        }
        v
    }
}

/// `true`/`false` in any case, surrounding white space ignored.
pub open spec fn bool_spec(s: Seq<char>) -> Option<bool> {
    let w = lower_seq(trim_seq(s));
    if w == "true"@ {
        Some(true)
    } else if w == "false"@ {
        Some(false)
    } else {
        None
    }
}

/// A probe's boolean report.
pub fn parse_bool(s: &str) -> (r: Option<bool>)
    ensures
        r == bool_spec(s@),
{
    let v = chars_of(s);
    let t = trim_chars(v.as_slice());
    let w = lower_chars(t.as_slice());
    if crate::text::chars_eq_str(w.as_slice(), "true") {
        Some(true)
    } else if crate::text::chars_eq_str(w.as_slice(), "false") {
        Some(false)
    } else {
        None
    }
}

/// An optional boolean as printed in the result table.
pub fn b2s(b: Option<bool>) -> (r: &'static str)
    ensures
        r@ == match b {
            Some(true) => "true"@,
            Some(false) => "false"@,
            None => "-"@,
        },
{
    match b {
        Some(true) => "true",
        Some(false) => "false",
        None => "-",
    }
}

/// How a measurement ended.
#[derive(Debug, Clone, Copy, PartialEq, Eq, Structural)]
pub enum CellStatus {
    /// The probe reported.
    Pass,
    /// The probe was killed by the watchdog before reporting.
    Timeout,
    /// The probe ended without reporting.
    NoMarker,
    /// The probe cannot run here.
    Skip,
    /// The probe could not be started.
    SpawnErr,
}

impl CellStatus {
    /// The status as printed in the result table.
    pub fn as_str(self) -> (r: &'static str)
        ensures
            r@ == match self {
                CellStatus::Pass => "PASS"@,
                CellStatus::Timeout => "TIMEOUT"@,
                CellStatus::NoMarker => "NO_MARKER"@,
                CellStatus::Skip => "SKIP"@,
                CellStatus::SpawnErr => "SPAWN_ERR"@,
            },
    {
        match self {
            CellStatus::Pass => "PASS",
            CellStatus::Timeout => "TIMEOUT",
            CellStatus::NoMarker => "NO_MARKER",
            CellStatus::Skip => "SKIP",
            CellStatus::SpawnErr => "SPAWN_ERR",
        }
    }
}

/// The status of a measurement: unavailable probes are skipped, probes that
/// could not start are spawn errors; otherwise a report passes, and without
/// one the watchdog's verdict decides between a timeout and a missing
/// report.
pub fn cell_status(available: bool, spawn_failed: bool, reported: bool, timed_out: bool) -> (r: CellStatus)
    ensures
        r == if !available {
            CellStatus::Skip
        } else if spawn_failed {
            CellStatus::SpawnErr
        } else if reported {
            CellStatus::Pass
        } else if timed_out {
            CellStatus::Timeout
        } else {
            CellStatus::NoMarker
        },
{
    if !available {
        CellStatus::Skip
    } else if spawn_failed {
        CellStatus::SpawnErr
    } else if reported {
        CellStatus::Pass
    } else if timed_out {
        CellStatus::Timeout
    } else {
        CellStatus::NoMarker
    }
}

/// At most the first 120 characters of the output, line breaks shown as `·`.
pub open spec fn excerpt_spec(s: Seq<char>) -> Seq<char> {
    let t = if s.len() > 120 {
        s.take(120)
    } else {
        s
    };
    t.map_values(|c: char| if c == '\r' || c == '\n' {
        '·'
    } else {
        c
    })
}

/// The excerpt of a probe's output kept for diagnosis.
pub fn excerpt(s: &str) -> (r: String)
    ensures
        r@ == excerpt_spec(s@),
{
    let v = chars_of(s);
    let n: usize = if v.len() > 120 {
        120
    } else {
        v.len()
    };
    let mut out: Vec<char> = Vec::new();
    let mut i: usize = 0;
    while i < n
        invariant
            n <= v@.len(),
            n == (if v@.len() > 120 { 120 } else { v@.len() }),
            i <= n,
            out@ == v@.take(i as int).map_values(|c: char| if c == '\r' || c == '\n' {
                '·'
            } else {
                c
            }),
        decreases n - i,
    {
        let c = v[i];
        out.push(if c == '\r' || c == '\n' {
            '·'
        } else {
            c
        });
        proof {
            assert(v@.take(i + 1).map_values(|c: char| if c == '\r' || c == '\n' {
                '·'
            } else {
                c
            }) =~= out@);
        }
        i = i + 1;
    }
    proof {
        if v@.len() <= 120 {
            assert(v@.take(n as int) =~= v@);
        }
    }
    string_from_chars(out.as_slice())
}


/// `str::lines`: the pieces between `\n`, a `\r` before a `\n` removed, no
/// empty piece after a final `\n` (a final `\r` without `\n` stays).
pub open spec fn lines_spec(s: Seq<char>) -> Seq<Seq<char>> {
    let p = split_on(s, '\n');
    let init = p.drop_last().map_values(|l: Seq<char>| strip_cr(l));
    if p.last().len() == 0 {
        init
    } else {
        init.push(p.last())
    }
}

/// `l` without one trailing `\r`.
pub open spec fn strip_cr(l: Seq<char>) -> Seq<char> {
    if l.len() > 0 && l.last() == '\r' {
        l.drop_last()
    } else {
        l
    }
}

/// `str::split_whitespace` from a word `cur` being read: the maximal runs
/// of non-white-space characters.
pub open spec fn ws_tokens(s: Seq<char>, cur: Seq<char>) -> Seq<Seq<char>>
    decreases s.len(),
{
    let done: Seq<Seq<char>> = if cur.len() > 0 {
        seq![cur]
    } else {
        seq![]
    };
    if s.len() == 0 {
        done
    } else if is_ws(s[0]) {
        done + ws_tokens(s.drop_first(), seq![])
    } else {
        ws_tokens(s.drop_first(), cur.push(s[0]))
    }
}

/// `p` occurs in `s`.
pub open spec fn contains_seq(s: Seq<char>, p: Seq<char>) -> bool {
    exists|i: int| 0 <= i <= s.len() && #[trigger] starts_with(s.skip(i), p)
}

/// What the probe reports: stdout, stdin and stderr terminal flags, and
/// the raw form of the stdout flag.
pub type Markers = (Option<bool>, Option<bool>, Option<bool>, Option<Seq<char>>);

/// The raw flag of a `ZMPROBE_RAW` line's words (`rawout=<v>`, the last
/// one counting).
pub open spec fn raw_words(words: Seq<Seq<char>>, raw: Option<Seq<char>>) -> Option<Seq<char>>
    decreases words.len(),
{
    if words.len() == 0 {
        raw
    } else {
        raw_words(
            words.drop_first(),
            if starts_with(words[0], "rawout="@) {
                Some(words[0].skip(7))
            } else {
                raw
            },
        )
    }
}

/// The flags of a `ZMPROBE ... END` line's words (`out=`, `in=`, `err=`).
pub open spec fn flag_words(words: Seq<Seq<char>>, m: Markers) -> Markers
    decreases words.len(),
{
    if words.len() == 0 {
        m
    } else {
        let w = words[0];
        let m2: Markers = if starts_with(w, "out="@) {
            (bool_spec(w.skip(4)), m.1, m.2, m.3)
        } else if starts_with(w, "in="@) {
            (m.0, bool_spec(w.skip(3)), m.2, m.3)
        } else if starts_with(w, "err="@) {
            (m.0, m.1, bool_spec(w.skip(4)), m.3)
        } else {
            m
        };
        flag_words(words.drop_first(), m2)
    }
}

/// The reports of the output's lines, read in order.
pub open spec fn markers_of(lines: Seq<Seq<char>>, m: Markers) -> Markers
    decreases lines.len(),
{
    if lines.len() == 0 {
        m
    } else {
        let l = lines[0];
        let m2: Markers = if contains_seq(l, "ZMPROBE_RAW"@) {
            (m.0, m.1, m.2, raw_words(ws_tokens(l, seq![]), m.3))
        } else if contains_seq(l, "ZMPROBE "@) && contains_seq(l, " END"@) {
            flag_words(ws_tokens(l, seq![]), m)
        } else {
            m
        };
        markers_of(lines.drop_first(), m2)
    }
}

fn lines_of(v: &[char]) -> (r: Vec<Vec<char>>)
    ensures
        views(r@) == lines_spec(v@),
{
    let p = split_chars(v, '\n');
    let ghost ps = views(p@);
    let mut out: Vec<Vec<char>> = Vec::new();
    let mut i: usize = 0;
    while i < p.len() - 1
        invariant
            ps == views(p@),
            ps == split_on(v@, '\n'),
            p@.len() >= 1,
            i + 1 <= p@.len(),
            views(out@) == ps.take(i as int).map_values(|l: Seq<char>| strip_cr(l)),
        decreases p@.len() - i,
    {
        let l = &p[i];
        let n = l.len();
        let piece = if n > 0 && l[n - 1] == '\r' {
            slice_to_vec(l.as_slice(), 0, n - 1)
        } else {
            slice_to_vec(l.as_slice(), 0, n)
        };
        let ghost before = views(out@);
        out.push(piece);
        proof {
            assert(l@ == ps[i as int]);
            if n > 0 && l@[n - 1] == '\r' {
                assert(piece@ =~= strip_cr(ps[i as int]));
            } else {
                assert(piece@ =~= strip_cr(ps[i as int]));
            }
            assert(views(out@) =~= before.push(piece@));
            assert(ps.take(i + 1).map_values(|l: Seq<char>| strip_cr(l)) =~= ps.take(i as int).map_values(
                |l: Seq<char>| strip_cr(l),
            ).push(strip_cr(ps[i as int])));
        }
        i = i + 1;
    }
    proof {
        assert(ps.take(i as int) =~= ps.drop_last());
    }
    let last = &p[p.len() - 1];
    if last.len() > 0 {
        let ghost before = views(out@);
        let lv = slice_to_vec(last.as_slice(), 0, last.len());
        proof {
            assert(lv@ =~= last@);
            assert(last@ == ps.last());
        }
        out.push(lv);
        proof {
            assert(views(out@) =~= before.push(ps.last()));
        }
    }
    out
}

fn ws_tokens_of(v: &[char]) -> (r: Vec<Vec<char>>)
    ensures
        views(r@) == ws_tokens(v@, seq![]),
{
    let mut out: Vec<Vec<char>> = Vec::new();
    let mut cur: Vec<char> = Vec::new();
    let mut i: usize = 0;
    proof {
        assert(v@.skip(0) =~= v@);
        assert(views(out@) + ws_tokens(v@, cur@) =~= ws_tokens(v@, seq![]));
    }
    while i < v.len()
        invariant
            i <= v@.len(),
            views(out@) + ws_tokens(v@.skip(i as int), cur@) == ws_tokens(v@, seq![]),
        decreases v@.len() - i,
    {
        let ghost rest = v@.skip(i as int);
        proof {
            assert(rest[0] == v@[i as int]);
            assert(rest.drop_first() =~= v@.skip(i + 1));
        }
        if crate::text::is_whitespace(v[i]) {
            let ghost before = views(out@);
            let ghost c = cur@;
            if cur.len() > 0 {
                let done = cur;
                out.push(done);
                cur = Vec::new();
                proof {
                    assert(views(out@) =~= before + seq![c]);
                }
            }
            proof {
                assert(cur@ =~= Seq::<char>::empty());
                let d: Seq<Seq<char>> = if c.len() > 0 {
                    seq![c]
                } else {
                    seq![]
                };
                assert(views(out@) =~= before + d);
                assert(before + (d + ws_tokens(rest.drop_first(), seq![])) =~= views(out@) + ws_tokens(
                    v@.skip(i + 1),
                    cur@,
                ));
            }
        } else {
            cur.push(v[i]);
        }
        i = i + 1;
    }
    proof {
        assert(v@.skip(i as int) =~= Seq::<char>::empty());
    }
    if cur.len() > 0 {
        let ghost before = views(out@);
        let c = cur;
        out.push(c);
        proof {
            assert(views(out@) =~= before + seq![c@]);
        }
    } else {
        proof {
            assert(views(out@) + Seq::<Seq<char>>::empty() =~= views(out@));
        }
    }
    out
}

fn contains_chars(s: &[char], p: &str) -> (r: bool)
    ensures
        r == contains_seq(s@, p@),
{
    let pv = chars_of(p);
    let mut i: usize = 0;
    loop
        invariant
            pv@ == p@,
            i <= s@.len(),
            forall|j: int| 0 <= j < i ==> !#[trigger] starts_with(s@.skip(j), p@),
        decreases s@.len() - i,
    {
        if crate::text::matches_at(s, i, pv.as_slice()) {
            return true;
        }
        if i == s.len() {
            return false;
        }
        i = i + 1;
    }
}

fn starts_chars(w: &[char], p: &str) -> (r: bool)
    ensures
        r == starts_with(w@, p@),
{
    let pv = chars_of(p);
    let r = crate::text::matches_at(w, 0, pv.as_slice());
    proof {
        assert(w@.skip(0) =~= w@);
    }
    r
}

fn bool_of(w: &[char]) -> (r: Option<bool>)
    ensures
        r == bool_spec(w@),
{
    let t = trim_chars(w);
    let l = lower_chars(t.as_slice());
    if crate::text::chars_eq_str(l.as_slice(), "true") {
        Some(true)
    } else if crate::text::chars_eq_str(l.as_slice(), "false") {
        Some(false)
    } else {
        None
    }
}

/// The optional view of optional characters.
pub open spec fn opt_chars(o: Option<Vec<char>>) -> Option<Seq<char>> {
    match o {
        Some(x) => Some(x@),
        None => None,
    }
}

fn raw_of_words(words: &Vec<Vec<char>>, raw: Option<Vec<char>>) -> (r: Option<Vec<char>>)
    ensures
        opt_chars(r) == raw_words(views(words@), opt_chars(raw)),
{
    proof {
        reveal_strlit("rawout=");
    }
    let ghost ws = views(words@);
    let mut cur = raw;
    let mut k: usize = 0;
    proof {
        assert(ws.skip(0) =~= ws);
    }
    while k < words.len()
        invariant
            ws == views(words@),
            k <= ws.len(),
            raw_words(ws, opt_chars(raw)) == raw_words(ws.skip(k as int), opt_chars(cur)),
        decreases ws.len() - k,
    {
        let ghost rest = ws.skip(k as int);
        proof {
            reveal_strlit("rawout=");
            assert(rest[0] == words@[k as int]@);
            assert(rest.drop_first() =~= ws.skip(k + 1));
        }
        let w = words[k].as_slice();
        if starts_chars(w, "rawout=") {
            let v = slice_to_vec(w, 7, w.len());
            proof {
                assert(v@ =~= w@.skip(7));
            }
            cur = Some(v);
        }
        k = k + 1;
    }
    proof {
        assert(ws.skip(k as int).len() == 0);
    }
    cur
}

fn flags_of_words(words: &Vec<Vec<char>>, o: Option<bool>, i: Option<bool>, e: Option<bool>, raw: Ghost<Option<Seq<char>>>) -> (r: (Option<bool>, Option<bool>, Option<bool>))
    ensures
        flag_words(views(words@), (o, i, e, raw@)) == (r.0, r.1, r.2, raw@),
{
    proof {
        reveal_strlit("out=");
        reveal_strlit("in=");
        reveal_strlit("err=");
    }
    let ghost ws = views(words@);
    let (mut o2, mut i2, mut e2) = (o, i, e);
    let mut k: usize = 0;
    proof {
        assert(ws.skip(0) =~= ws);
    }
    while k < words.len()
        invariant
            ws == views(words@),
            k <= ws.len(),
            flag_words(ws, (o, i, e, raw@)) == flag_words(ws.skip(k as int), (o2, i2, e2, raw@)),
        decreases ws.len() - k,
    {
        let ghost rest = ws.skip(k as int);
        proof {
            reveal_strlit("out=");
            reveal_strlit("in=");
            reveal_strlit("err=");
            assert(rest[0] == words@[k as int]@);
            assert(rest.drop_first() =~= ws.skip(k + 1));
        }
        let w = words[k].as_slice();
        if starts_chars(w, "out=") {
            let v = slice_to_vec(w, 4, w.len());
            proof {
                assert(v@ =~= w@.skip(4));
            }
            o2 = bool_of(v.as_slice());
        } else if starts_chars(w, "in=") {
            let v = slice_to_vec(w, 3, w.len());
            proof {
                assert(v@ =~= w@.skip(3));
            }
            i2 = bool_of(v.as_slice());
        } else if starts_chars(w, "err=") {
            let v = slice_to_vec(w, 4, w.len());
            proof {
                assert(v@ =~= w@.skip(4));
            }
            e2 = bool_of(v.as_slice());
        }
        k = k + 1;
    }
    proof {
        assert(ws.skip(k as int).len() == 0);
    }
    (o2, i2, e2)
}

/// The probe's reports in its output: the last `ZMPROBE ... END` line's
/// `out=`/`in=`/`err=` flags and the last `ZMPROBE_RAW` line's `rawout=`.
pub fn parse_markers(buf: &str) -> (r: (Option<bool>, Option<bool>, Option<bool>, Option<String>))
    ensures
        ({
            let m = markers_of(lines_spec(buf@), (None, None, None, None));
            &&& r.0 == m.0
            &&& r.1 == m.1
            &&& r.2 == m.2
            &&& match r.3 {
                Some(x) => m.3 == Some(x@),
                None => m.3 is None,
            }
        }),
{
    let v = chars_of(buf);
    let lines = lines_of(v.as_slice());
    let ghost ls = views(lines@);
    let mut out: Option<bool> = None;
    let mut inp: Option<bool> = None;
    let mut err: Option<bool> = None;
    let mut raw: Option<Vec<char>> = None;
    let ghost target = markers_of(ls, (None, None, None, None));
    let mut i: usize = 0;
    proof {
        assert(ls.skip(0) =~= ls);
    }
    while i < lines.len()
        invariant
            ls == views(lines@),
            ls == lines_spec(buf@),
            target == markers_of(ls, (None, None, None, None)),
            i <= ls.len(),
            target == markers_of(ls.skip(i as int), (out, inp, err, opt_chars(raw))),
        decreases ls.len() - i,
    {
        let ghost rest = ls.skip(i as int);
        proof {
            assert(rest[0] == lines@[i as int]@);
            assert(rest.drop_first() =~= ls.skip(i + 1));
        }
        let l = lines[i].as_slice();
        if contains_chars(l, "ZMPROBE_RAW") {
            let words = ws_tokens_of(l);
            raw = raw_of_words(&words, raw);
        } else if contains_chars(l, "ZMPROBE ") && contains_chars(l, " END") {
            let words = ws_tokens_of(l);
            let (a, b, c) = flags_of_words(&words, out, inp, err, Ghost(opt_chars(raw)));
            out = a;
            inp = b;
            err = c;
        }
        i = i + 1;
    }
    proof {
        assert(ls.skip(i as int).len() == 0);
    }
    (out, inp, err, match raw {
        Some(x) => Some(string_from_chars(x.as_slice())),
        None => None,
    })
}

} // verus!
