//! Desktop notifications in terminal output: OSC 9 (`ESC ] 9 ; body BEL`)
//! and OSC 777 (`ESC ] 777 ; notify ; title ; body ST`), found in the byte
//! stream as it arrives in chunks. An unfinished sequence is carried over
//! to the next chunk, up to 8192 bytes.

use vstd::prelude::*;
use vstd::utf8::{decode_utf8, valid_utf8};
use crate::types::Notification;
use crate::text::{chars_of, string_from_chars, slice_to_vec, owned};

verus! {

/// `needle` occurs in `hay` at `i`.
pub open spec fn occurs_at(hay: Seq<u8>, needle: Seq<u8>, i: int) -> bool {
    0 <= i && i + needle.len() <= hay.len() && hay.subrange(i, i + needle.len()) == needle
}

/// The first position at or after `i` where `needle` occurs; -1 when none.
pub open spec fn find_from(hay: Seq<u8>, needle: Seq<u8>, i: int) -> int
    decreases hay.len() - i,
{
    if i < 0 || i >= hay.len() || i + needle.len() > hay.len() {
        -1
    } else if occurs_at(hay, needle, i) {
        i
    } else {
        find_from(hay, needle, i + 1)
    }
}

/// What `find_from` finds, it finds where the needle occurs.
pub proof fn lemma_find_from(hay: Seq<u8>, needle: Seq<u8>, i: int)
    requires
        0 <= i,
    ensures
        find_from(hay, needle, i) == -1 || (i <= find_from(hay, needle, i) && occurs_at(
            hay,
            needle,
            find_from(hay, needle, i),
        )),
    decreases hay.len() - i,
{
    if i < hay.len() && i + needle.len() <= hay.len() && !occurs_at(hay, needle, i) {
        lemma_find_from(hay, needle, i + 1);
    }
}

/// The first position of `needle` in `hay` (`hay.windows(n).position(..)`);
/// `None` for an empty needle.
pub fn find_sub(hay: &[u8], needle: &[u8]) -> (r: Option<usize>)
    ensures
        match r {
            Some(i) => needle@.len() > 0 && i == find_from(hay@, needle@, 0),
            None => needle@.len() == 0 || find_from(hay@, needle@, 0) == -1,
        },
{
    if needle.len() == 0 || hay.len() < needle.len() {
        return None;
    }
    let n = needle.len();
    let mut i: usize = 0;
    while i <= hay.len() - n
        invariant
            n == needle@.len(),
            n > 0,
            n <= hay@.len(),
            i <= hay@.len() - n + 1,
            find_from(hay@, needle@, 0) == find_from(hay@, needle@, i as int),
        decreases hay@.len() - i,
    {
        let mut k: usize = 0;
        let mut same = true;
        while k < n
            invariant
                n == needle@.len(),
                i + n <= hay@.len(),
                hay@.len() <= usize::MAX,
                k <= n,
                same == forall|j: int| 0 <= j < k ==> hay@[i + j] == needle@[j],
            decreases n - k,
        {
            if hay[i + k] != needle[k] {
                same = false;
            }
            k = k + 1;
        }
        proof {
            if same {
                assert(hay@.subrange(i as int, i + n) =~= needle@);
            } else {
                let j = choose|j: int| 0 <= j < n && hay@[i + j] != needle@[j];
                assert(hay@.subrange(i as int, i + n)[j] != needle@[j]);
            }
        }
        if same {
            return Some(i);
        }
        i = i + 1;
    }
    None
}

/// The terminator of an OSC body at or after `i`: BEL (`0x07`, length 1) or
/// ST (`ESC \`, length 2), as (position, length).
pub open spec fn term_from(body: Seq<u8>, i: int) -> Option<(int, int)>
    decreases body.len() - i,
{
    if i < 0 || i >= body.len() {
        None
    } else if body[i] == 0x07 {
        Some((i, 1))
    } else if body[i] == 0x1b && i + 1 < body.len() && body[i + 1] == 0x5c {
        Some((i, 2))
    } else {
        term_from(body, i + 1)
    }
}

/// A terminator lies within the body, at or after `i`.
pub proof fn lemma_term_from(body: Seq<u8>, i: int)
    requires
        0 <= i,
    ensures
        term_from(body, i) matches Some((at, len)) ==> i <= at && at + len <= body.len() && (len == 1
            || len == 2),
    decreases body.len() - i,
{
    if i < body.len() && term_from(body, i) != term_from(body, i + 1) {
    } else if i < body.len() {
        lemma_term_from(body, i + 1);
    }
}

/// The first terminator of an OSC body: (position, 1) for BEL, (position,
/// 2) for `ESC \`.
pub fn find_terminator(body: &[u8]) -> (r: Option<(usize, usize)>)
    ensures
        match r {
            Some((at, len)) => term_from(body@, 0) == Some((at as int, len as int)),
            None => term_from(body@, 0) is None,
        },
{
    let mut i: usize = 0;
    while i < body.len()
        invariant
            i <= body@.len(),
            term_from(body@, 0) == term_from(body@, i as int),
        decreases body@.len() - i,
    {
        if body[i] == 0x07 {
            return Some((i, 1));
        }
        if body[i] == 0x1b && i + 1 < body.len() && body[i + 1] == 0x5c {
            return Some((i, 2));
        }
        i = i + 1;
    }
    None
}

/// The text `String::from_utf8_lossy` makes of `bytes`: the decoded
/// characters, each malformed part replaced by U+FFFD.
pub uninterp spec fn utf8_lossy(bytes: Seq<u8>) -> Seq<char>;

/// `String::from_utf8_lossy`: the bytes as text; valid UTF-8 decodes
/// exactly, and the replacement of malformed parts is left unstated beyond
/// the name [`utf8_lossy`].
#[verifier::external_body]
fn lossy_text(bytes: &[u8]) -> (r: String)
    ensures
        r@ == utf8_lossy(bytes@),
        valid_utf8(bytes@) ==> r@ == decode_utf8(bytes@),
{
    String::from_utf8_lossy(bytes).into_owned()
}

/// `s` split at its first `c`: the part before, and the part after if `c`
/// occurs (`str::splitn(2, c)`).
pub open spec fn split_first(s: Seq<char>, c: char) -> (Seq<char>, Option<Seq<char>>)
    decreases s.len(),
{
    if s.len() == 0 {
        (s, None)
    } else if s[0] == c {
        (seq![], Some(s.drop_first()))
    } else {
        let (a, b) = split_first(s.drop_first(), c);
        (seq![s[0]] + a, b)
    }
}

/// The notification (title, body) an OSC body's text asks for: `9;<body>`
/// with a non-empty body (titled `zm-mux`), or
/// `777;notify;<title>;<body>` (title `zm-mux` and an empty body when
/// missing).
pub open spec fn osc_text_spec(t: Seq<char>) -> Option<(Seq<char>, Seq<char>)> {
    let (code, rest) = split_first(t, ';');
    if code == "9"@ {
        let body = match rest {
            Some(r) => r,
            None => ""@,
        };
        if body.len() == 0 {
            None
        } else {
            Some(("zm-mux"@, body))
        }
    } else if code == "777"@ {
        match rest {
            None => None,
            Some(r) => {
                let (kind, r2) = split_first(r, ';');
                if kind != "notify"@ {
                    None
                } else {
                    match r2 {
                        None => Some(("zm-mux"@, ""@)),
                        Some(x) => {
                            let (title, b) = split_first(x, ';');
                            Some(
                                (
                                    title,
                                    match b {
                                        Some(y) => y,
                                        None => ""@,
                                    },
                                ),
                            )
                        },
                    }
                }
            },
        }
    } else {
        None
    }
}

/// The (title, body) of a notification.
pub open spec fn note_view(n: Notification) -> (Seq<char>, Seq<char>) {
    (n.title@, n.body@)
}

/// Optional (title, body) of a notification.
pub open spec fn opt_note_view(n: Option<Notification>) -> Option<(Seq<char>, Seq<char>)> {
    match n {
        Some(x) => Some(note_view(x)),
        None => None,
    }
}

/// Position of the first `c` in `v`, or its length.
fn index_of_char(v: &[char], c: char) -> (r: usize)
    ensures
        r <= v@.len(),
        r < v@.len() ==> v@[r as int] == c,
        forall|j: int| 0 <= j < r ==> v@[j] != c,
{
    let mut i: usize = 0;
    while i < v.len() && v[i] != c
        invariant
            i <= v@.len(),
            forall|j: int| 0 <= j < i ==> v@[j] != c,
        decreases v@.len() - i,
    {
        i = i + 1;
    }
    i
}

proof fn lemma_split_first(s: Seq<char>, c: char, i: int)
    requires
        0 <= i <= s.len(),
        i < s.len() ==> s[i] == c,
        forall|j: int| 0 <= j < i ==> s[j] != c,
    ensures
        split_first(s, c) == (s.take(i), if i < s.len() {
            Some(s.skip(i + 1))
        } else {
            None
        }),
    decreases i,
{
    if i == 0 {
        if s.len() == 0 {
            assert(s.take(0) =~= s);
        } else {
            assert(s.take(0) =~= Seq::<char>::empty());
            assert(s.skip(1) =~= s.drop_first());
        }
    } else {
        let d = s.drop_first();
        assert forall|j: int| 0 <= j < i - 1 implies d[j] != c by {
            assert(d[j] == s[j + 1]);
        }
        if i < s.len() {
            assert(d[i - 1] == s[i]);
        }
        lemma_split_first(d, c, i - 1);
        assert(seq![s[0]] + d.take(i - 1) =~= s.take(i));
        if i < s.len() {
            assert(d.skip(i) =~= s.skip(i + 1));
        }
    }
}

/// `v` split at its first `c`.
fn split_first_chars(v: &[char], c: char) -> (r: (Vec<char>, Option<Vec<char>>))
    ensures
        split_first(v@, c) == (r.0@, match r.1 {
            Some(x) => Some(x@),
            None => None,
        }),
{
    let i = index_of_char(v, c);
    proof {
        lemma_split_first(v@, c, i as int);
    }
    let head = slice_to_vec(v, 0, i);
    if i < v.len() {
        let tail = slice_to_vec(v, i + 1, v.len());
        proof {
            assert(tail@ =~= v@.skip(i + 1));
            assert(head@ =~= v@.take(i as int));
        }
        (head, Some(tail))
    } else {
        proof {
            assert(head@ =~= v@.take(i as int));
        }
        (head, None)
    }
}

fn chars_is(v: &[char], lit: &str) -> (r: bool)
    ensures
        r == (v@ == lit@),
{
    crate::text::chars_eq_str(v, lit)
}

/// The notification an OSC body's text asks for (see [`osc_text_spec`]).
pub fn parse_osc_text(text: &str) -> (r: Option<Notification>)
    ensures
        opt_note_view(r) == osc_text_spec(text@),
{
    proof {
        reveal_strlit("");
    }
    let t = chars_of(text);
    let (code, rest) = split_first_chars(t.as_slice(), ';');
    if chars_is(code.as_slice(), "9") {
        let body = match rest {
            Some(r) => r,
            None => Vec::new(),
        };
        if body.len() == 0 {
            None
        } else {
            Some(Notification { title: owned("zm-mux"), body: string_from_chars(body.as_slice()) })
        }
    } else if chars_is(code.as_slice(), "777") {
        match rest {
            None => None,
            Some(r) => {
                let (kind, r2) = split_first_chars(r.as_slice(), ';');
                if !chars_is(kind.as_slice(), "notify") {
                    None
                } else {
                    match r2 {
                        None => Some(Notification { title: owned("zm-mux"), body: owned("") }),
                        Some(x) => {
                            let (title, b) = split_first_chars(x.as_slice(), ';');
                            let body = match b {
                                Some(y) => string_from_chars(y.as_slice()),
                                None => owned(""),
                            };
                            Some(Notification { title: string_from_chars(title.as_slice()), body })
                        },
                    }
                }
            },
        }
    } else {
        None
    }
}

/// The text of an OSC body: its UTF-8 decoding when it is valid UTF-8,
/// else what lossy decoding makes of it.
pub open spec fn osc_text(osc: Seq<u8>) -> Seq<char> {
    if valid_utf8(osc) {
        decode_utf8(osc)
    } else {
        utf8_lossy(osc)
    }
}

/// The notification an OSC body asks for, read as text.
pub open spec fn osc_note_spec(osc: Seq<u8>) -> Option<(Seq<char>, Seq<char>)> {
    osc_text_spec(osc_text(osc))
}

/// The notification an OSC body (the bytes between `ESC ]` and the
/// terminator) asks for.
pub fn parse_osc_notification(osc: &[u8]) -> (r: Option<Notification>)
    ensures
        opt_note_view(r) == osc_note_spec(osc@),
        valid_utf8(osc@) ==> opt_note_view(r) == osc_text_spec(decode_utf8(osc@)),
{
    let text = lossy_text(osc);
    parse_osc_text(text.as_str())
}

/// The bytes that start an OSC sequence, `ESC ]`.
pub open spec fn osc_start() -> Seq<u8> {
    seq![0x1bu8, 0x5du8]
}

/// The longest unfinished sequence that is carried over.
pub open spec fn carry_limit() -> int {
    8192
}

/// Scanning a buffer: the notifications of its complete sequences, in
/// order, and what is carried over (an unfinished sequence, or a lone
/// trailing `ESC` that may start one).
pub open spec fn scan(buf: Seq<u8>) -> (Seq<(Seq<char>, Seq<char>)>, Seq<u8>)
    decreases buf.len(),
{
    let s = find_from(buf, osc_start(), 0);
    if s < 0 {
        (seq![], if buf.len() > 0 && buf.last() == 0x1b {
            seq![0x1bu8]
        } else {
            seq![]
        })
    } else {
        let b2 = buf.skip(s);
        let body = b2.skip(2);
        match term_from(body, 0) {
            None => (seq![], if b2.len() > carry_limit() {
                seq![]
            } else {
                b2
            }),
            Some((at, tl)) => {
                proof {
                    lemma_find_from(buf, osc_start(), 0);
                    lemma_term_from(body, 0);
                }
                let rest = b2.skip(2 + at + tl);
                let (ns, c) = scan(rest);
                (
                    match osc_note_spec(body.take(at)) {
                        Some(n) => seq![n],
                        None => seq![],
                    } + ns,
                    c,
                )
            },
        }
    }
}

/// The (title, body) of each notification.
pub open spec fn note_views(v: Seq<Notification>) -> Seq<(Seq<char>, Seq<char>)> {
    v.map_values(|n: Notification| note_view(n))
}

fn bytes_range(v: &[u8], a: usize, b: usize) -> (r: Vec<u8>)
    requires
        a <= b <= v@.len(),
    ensures
        r@ == v@.subrange(a as int, b as int),
{
    let mut r: Vec<u8> = Vec::new();
    let mut i: usize = a;
    while i < b
        invariant
            a <= i <= b <= v@.len(),
            r@ == v@.subrange(a as int, i as int),
        decreases b - i,
    {
        r.push(v[i]);
        proof {
            assert(v@.subrange(a as int, i + 1) == v@.subrange(a as int, i as int).push(v@[i as int]));
        }
        i = i + 1;
    }
    r
}

/// The notification scanner of one terminal: the bytes carried over from
/// the previous chunk.
#[derive(Debug)]
pub struct OscScanner {
    carry: Vec<u8>,
}

impl OscScanner {
    /// The bytes carried over.
    pub closed spec fn carry_spec(&self) -> Seq<u8> {
        self.carry@
    }

    /// A scanner with nothing carried over.
    pub fn new() -> (r: Self)
        ensures
            r.carry_spec().len() == 0,
    {
        OscScanner { carry: Vec::new() }
    }

    /// Scans the next chunk of output: returns the notifications completed
    /// by it, in order, and keeps what is unfinished.
    pub fn feed(&mut self, chunk: &[u8]) -> (r: Vec<Notification>)
        ensures
            note_views(r@) == scan(old(self).carry_spec() + chunk@).0,
            final(self).carry_spec() == scan(old(self).carry_spec() + chunk@).1,
    {
        let ghost orig = self.carry@ + chunk@;
        let mut buf: Vec<u8> = Vec::new();
        std::mem::swap(&mut buf, &mut self.carry);
        let mut k: usize = 0;
        while k < chunk.len()
            invariant
                k <= chunk@.len(),
                buf@ == old(self).carry@ + chunk@.take(k as int),
            decreases chunk@.len() - k,
        {
            buf.push(chunk[k]);
            proof {
                assert(chunk@.take(k + 1) == chunk@.take(k as int).push(chunk@[k as int]));
            }
            k = k + 1;
        }
        proof {
            assert(chunk@.take(k as int) =~= chunk@);
        }
        let start_seq: [u8; 2] = [0x1b, 0x5d];
        let mut out: Vec<Notification> = Vec::new();
        loop
            invariant_except_break
                note_views(out@) + scan(buf@).0 == scan(orig).0,
                scan(buf@).1 == scan(orig).1,
                start_seq@ == osc_start(),
            ensures
                note_views(out@) == scan(orig).0,
                buf@ == scan(orig).1,
            decreases buf@.len(),
        {
            proof {
                assert(start_seq@ =~= osc_start());
            }
            match find_sub(buf.as_slice(), start_seq.as_slice()) {
                None => {
                    let keep = buf.len() > 0 && buf[buf.len() - 1] == 0x1b;
                    let mut next: Vec<u8> = Vec::new();
                    if keep {
                        next.push(0x1b);
                    }
                    proof {
                        assert(next@ =~= scan(buf@).1);
                        assert(note_views(out@) + Seq::empty() =~= note_views(out@));
                    }
                    buf = next;
                    break;
                },
                Some(start) => {
                    proof {
                        lemma_find_from(buf@, osc_start(), 0);
                    }
                    let b2 = bytes_range(buf.as_slice(), start, buf.len());
                    let body = bytes_range(b2.as_slice(), 2, b2.len());
                    proof {
                        assert(b2@ =~= buf@.skip(start as int));
                        assert(body@ =~= b2@.skip(2));
                    }
                    match find_terminator(body.as_slice()) {
                        None => {
                            let next = if b2.len() > 8192 {
                                Vec::new()
                            } else {
                                b2
                            };
                            proof {
                                assert(next@ =~= scan(buf@).1);
                                assert(note_views(out@) + Seq::empty() =~= note_views(out@));
                            }
                            buf = next;
                            break;
                        },
                        Some((at, tl)) => {
                            proof {
                                lemma_term_from(body@, 0);
                            }
                            let osc = bytes_range(body.as_slice(), 0, at);
                            let note = parse_osc_notification(osc.as_slice());
                            let rest = bytes_range(b2.as_slice(), 2 + at + tl, b2.len());
                            proof {
                                assert(osc@ =~= body@.take(at as int));
                                assert(rest@ =~= b2@.skip(2 + at + tl));
                            }
                            let ghost before = note_views(out@);
                            match note {
                                Some(n) => {
                                    out.push(n);
                                    proof {
                                        assert(note_views(out@) =~= before + seq![note_view(n)]);
                                    }
                                },
                                None => {},
                            }
                            proof {
                                let piece = match osc_note_spec(body@.take(at as int)) {
                                    Some(n) => seq![n],
                                    None => Seq::<(Seq<char>, Seq<char>)>::empty(),
                                };
                                assert(note_views(out@) =~= before + piece);
                                assert(before + (piece + scan(rest@).0) =~= note_views(out@) + scan(
                                    rest@,
                                ).0);
                            }
                            buf = rest;
                        },
                    }
                },
            }
        }
        self.carry = buf;
        out
    }
}


/// Scanning dropped an unfinished sequence longer than the carry limit at
/// the end of the buffer.
pub open spec fn drops_overlong(buf: Seq<u8>) -> bool
    decreases buf.len(),
{
    let s = find_from(buf, osc_start(), 0);
    if s < 0 {
        false
    } else {
        let b2 = buf.skip(s);
        let body = b2.skip(2);
        match term_from(body, 0) {
            None => b2.len() > carry_limit(),
            Some((at, tl)) => {
                proof {
                    lemma_find_from(buf, osc_start(), 0);
                    lemma_term_from(body, 0);
                }
                drops_overlong(b2.skip(2 + at + tl))
            },
        }
    }
}

proof fn lemma_find_shift(x: Seq<u8>, n: Seq<u8>, k: int, i: int)
    requires
        0 <= k <= x.len(),
        0 <= i,
    ensures
        find_from(x.skip(k), n, i) == if find_from(x, n, i + k) < 0 {
            -1
        } else {
            find_from(x, n, i + k) - k
        },
    decreases x.len() - k - i,
{
    let y = x.skip(k);
    if i < y.len() && i + n.len() <= y.len() {
        assert(y.subrange(i, i + n.len()) =~= x.subrange(i + k, i + k + n.len()));
        if !occurs_at(y, n, i) {
            lemma_find_shift(x, n, k, i + 1);
        }
    }
}

proof fn lemma_find_none_before(x: Seq<u8>, n: Seq<u8>, i: int, k: int)
    requires
        0 <= i <= k,
        forall|j: int| i <= j < k ==> !occurs_at(x, n, j),
        k < x.len() || find_from(x, n, k) == -1,
    ensures
        find_from(x, n, i) == find_from(x, n, k),
    decreases k - i,
{
    if i < k {
        lemma_find_none_before(x, n, i + 1, k);
    }
}

proof fn lemma_find_first(x: Seq<u8>, n: Seq<u8>, i: int)
    requires
        0 <= i,
        n.len() > 0,
    ensures
        forall|j: int| i <= j < (if find_from(x, n, i) < 0 {
            x.len() as int
        } else {
            find_from(x, n, i)
        }) ==> !occurs_at(x, n, j),
    decreases x.len() - i,
{
    if i < x.len() && i + n.len() <= x.len() && !occurs_at(x, n, i) {
        lemma_find_first(x, n, i + 1);
    }
}

proof fn lemma_find_prefix(a: Seq<u8>, b: Seq<u8>, n: Seq<u8>, i: int)
    requires
        0 <= i,
        find_from(a, n, i) >= 0,
    ensures
        find_from(a + b, n, i) == find_from(a, n, i),
    decreases a.len() - i,
{
    let x = a + b;
    if i < a.len() && i + n.len() <= a.len() {
        assert(x.subrange(i, i + n.len()) =~= a.subrange(i, i + n.len()));
        if !occurs_at(a, n, i) {
            lemma_find_prefix(a, b, n, i + 1);
        }
    }
}

proof fn lemma_term_prefix(a: Seq<u8>, b: Seq<u8>, i: int)
    requires
        0 <= i,
        term_from(a, i) is Some,
    ensures
        term_from(a + b, i) == term_from(a, i),
    decreases a.len() - i,
{
    let x = a + b;
    if i < a.len() {
        assert(x[i] == a[i]);
        if i + 1 < a.len() {
            assert(x[i + 1] == a[i + 1]);
        }
        if term_from(a, i) == term_from(a, i + 1) && !(a[i] == 0x07) && !(a[i] == 0x1b && i + 1
            < a.len() && a[i + 1] == 0x5c) {
            lemma_term_prefix(a, b, i + 1);
        }
        if a[i] == 0x1b && i + 1 >= a.len() {
            assert(term_from(a, i + 1) is None);
        }
    }
}

/// Scanning skips what precedes the first sequence start: a buffer scans
/// as its part from `k` on, when no sequence starts before `k` and the
/// dropped part cannot hold the start of one.
proof fn lemma_scan_skip(x: Seq<u8>, k: int)
    requires
        0 <= k <= x.len(),
        forall|j: int| 0 <= j < k ==> !occurs_at(x, osc_start(), j),
        k < x.len() || !(x.len() > 0 && x.last() == 0x1b),
    ensures
        scan(x.skip(k)) == scan(x),
        drops_overlong(x.skip(k)) == drops_overlong(x),
{
    let n = osc_start();
    let y = x.skip(k);
    lemma_find_shift(x, n, k, 0);
    if k < x.len() {
        lemma_find_none_before(x, n, 0, k);
    } else {
        assert(find_from(x, n, k) == -1);
        lemma_find_none_before(x, n, 0, k);
    }
    let s = find_from(x, n, 0);
    if s >= 0 {
        lemma_find_from(x, n, 0);
        assert(y.skip(s - k) =~= x.skip(s));
    } else {
        if y.len() > 0 {
            assert(y.last() == x.last());
        }
    }
}

/// Feeding output in two chunks, the first one's unfinished tail carried
/// over, gives the notifications and carry of feeding it all at once,
/// unless an overlong unfinished sequence was dropped at the end of the
/// first chunk.
pub proof fn law_chunked_scan(a: Seq<u8>, b: Seq<u8>)
    requires
        !drops_overlong(a),
    ensures
        scan(a).0 + scan(scan(a).1 + b).0 == scan(a + b).0,
        scan(scan(a).1 + b).1 == scan(a + b).1,
    decreases a.len(),
{
    let n = osc_start();
    let x = a + b;
    let s = find_from(a, n, 0);
    if s < 0 {
        let c = scan(a).1;
        assert(scan(a).0 =~= Seq::<(Seq<char>, Seq<char>)>::empty());
        if a.len() > 0 && a.last() == 0x1b {
            let k = a.len() - 1;
            lemma_find_first(a, n, 0);
            assert(n.len() == 2);
            assert forall|j: int| 0 <= j < k implies !occurs_at(x, n, j) by {
                assert(!occurs_at(a, n, j));
                assert(x.subrange(j, j + 2) =~= a.subrange(j, j + 2));
            }
            assert(x.skip(k) =~= c + b);
            lemma_scan_skip(x, k);
        } else {
            let k = a.len() as int;
            lemma_find_first(a, n, 0);
            assert(n.len() == 2);
            assert forall|j: int| 0 <= j < k implies !occurs_at(x, n, j) by {
                if j + 2 <= a.len() {
                    assert(!occurs_at(a, n, j));
                    assert(x.subrange(j, j + 2) =~= a.subrange(j, j + 2));
                } else {
                    assert(x[j] == a[j]);
                    if j + 2 <= x.len() {
                        assert(x.subrange(j, j + 2)[0] == x[j]);
                        assert(n[0] == 0x1b);
                    }
                }
            }
            assert(c =~= Seq::<u8>::empty());
            assert(x.skip(k) =~= c + b);
            if b.len() == 0 {
                assert(x =~= a);
            }
            lemma_scan_skip(x, k);
        }
    } else {
        lemma_find_from(a, n, 0);
        lemma_find_prefix(a, b, n, 0);
        let a2 = a.skip(s);
        let body = a2.skip(2);
        assert(x.skip(s) =~= a2 + b);
        assert((a2 + b).skip(2) =~= body + b);
        match term_from(body, 0) {
            None => {
                assert(scan(a).1 == a2);
                lemma_find_first(x, n, 0);
                lemma_scan_skip(x, s);
                assert(scan(a).0 =~= Seq::<(Seq<char>, Seq<char>)>::empty());
            },
            Some((at, tl)) => {
                lemma_term_from(body, 0);
                lemma_term_prefix(body, b, 0);
                let rest = a2.skip(2 + at + tl);
                assert((a2 + b).skip(2 + at + tl) =~= rest + b);
                assert((body + b).take(at) =~= body.take(at));
                law_chunked_scan(rest, b);
                lemma_find_first(x, n, 0);
                lemma_scan_skip(x, s);
            },
        }
    }
}

} // verus!
