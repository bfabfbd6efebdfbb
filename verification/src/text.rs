//! Character-level text helpers shared by the parsers of the crate:
//! reading a `&str` as characters, building a `String`, Unicode white space,
//! trimming, decimal numbers, substring search and replacement.

use vstd::prelude::*;
use vstd::string::*;

verus! {

/// `String::push`: appends one character at the end of the string.
#[verifier::external_body]
pub(crate) fn push_char(s: &mut String, c: char)
    ensures
        final(s)@ == old(s)@.push(c),
{
    s.push(c);
}

/// The characters of a string slice, in order.
pub fn chars_of(s: &str) -> (v: Vec<char>)
    ensures
        v@ == s@,
{
    let n = s.unicode_len();
    let mut v: Vec<char> = Vec::new();
    let mut i: usize = 0;
    while i < n
        invariant
            n == s@.len(),
            i <= n,
            v@ == s@.take(i as int),
        decreases n - i,
    {
        let c = s.get_char(i);
        v.push(c);
        proof {
            assert(s@.take(i + 1) == s@.take(i as int).push(s@[i as int]));
        }
        i = i + 1;
    }
    proof {
        assert(s@.take(n as int) == s@);
    }
    v
}

/// A `String` holding the given characters.
pub fn string_from_chars(v: &[char]) -> (s: String)
    ensures
        s@ == v@,
{
    let mut s = String::new();
    let mut i: usize = 0;
    while i < v.len()
        invariant
            i <= v@.len(),
            s@ == v@.take(i as int),
        decreases v@.len() - i,
    {
        push_char(&mut s, v[i]);
        proof {
            assert(v@.take(i + 1) == v@.take(i as int).push(v@[i as int]));
        }
        i = i + 1;
    }
    proof {
        assert(v@.take(v@.len() as int) == v@);
    }
    s
}

/// A `String` holding the characters of the slice (an owned copy).
pub fn owned(s: &str) -> (r: String)
    ensures
        r@ == s@,
{
    s.to_owned()
}

/// Concatenation of two strings.
pub fn concat2(a: &str, b: &str) -> (r: String)
    ensures
        r@ == a@ + b@,
{
    let mut r = a.to_owned();
    r.append(b);
    r
}

/// Two string slices hold the same characters.
pub fn str_eq(a: &str, b: &str) -> (r: bool)
    ensures
        r == (a@ == b@),
{
    let n = a.unicode_len();
    let m = b.unicode_len();
    if n != m {
        return false;
    }
    let mut i: usize = 0;
    while i < n
        invariant
            n == a@.len(),
            m == b@.len(),
            n == m,
            i <= n,
            forall|j: int| 0 <= j < i ==> a@[j] == b@[j],
        decreases n - i,
    {
        if a.get_char(i) != b.get_char(i) {
            return false;
        }
        i = i + 1;
    }
    proof {
        assert(a@ =~= b@);
    }
    true
}

/// Two character sequences are equal.
pub fn chars_eq(a: &[char], b: &[char]) -> (r: bool)
    ensures
        r == (a@ == b@),
{
    if a.len() != b.len() {
        return false;
    }
    let mut i: usize = 0;
    while i < a.len()
        invariant
            a@.len() == b@.len(),
            i <= a@.len(),
            forall|j: int| 0 <= j < i ==> a@[j] == b@[j],
        decreases a@.len() - i,
    {
        if a[i] != b[i] {
            return false;
        }
        i = i + 1;
    }
    proof {
        assert(a@ =~= b@);
    }
    true
}

/// The character sequence equals the characters of a string slice.
pub fn chars_eq_str(a: &[char], b: &str) -> (r: bool)
    ensures
        r == (a@ == b@),
{
    let bv = chars_of(b);
    chars_eq(a, bv.as_slice())
}

/// Unicode `White_Space`, the property that `char::is_whitespace` tests.
pub open spec fn is_ws(c: char) -> bool {
    let u = c as u32;
    (0x09 <= u <= 0x0d) || u == 0x20 || u == 0x85 || u == 0xa0 || u == 0x1680 || (0x2000 <= u
        <= 0x200a) || u == 0x2028 || u == 0x2029 || u == 0x202f || u == 0x205f || u == 0x3000
}

/// Whether a character is Unicode white space (`char::is_whitespace`).
pub fn is_whitespace(c: char) -> (r: bool)
    ensures
        r == is_ws(c),
{
    let u = c as u32;
    (0x09 <= u && u <= 0x0d) || u == 0x20 || u == 0x85 || u == 0xa0 || u == 0x1680 || (0x2000 <= u
        && u <= 0x200a) || u == 0x2028 || u == 0x2029 || u == 0x202f || u == 0x205f || u == 0x3000
}

/// ASCII letters `A`..=`Z` mapped to lower case; every other character unchanged.
pub open spec fn ascii_lower(c: char) -> char {
    if 'A' <= c && c <= 'Z' {
        ((c as u32) + 32) as char
    } else {
        c
    }
}

/// `char::to_ascii_lowercase`.
pub fn to_ascii_lower(c: char) -> (r: char)
    ensures
        r == ascii_lower(c),
{
    if 'A' <= c && c <= 'Z' {
        let u = (c as u32) + 32;
        assert(0x61 <= u <= 0x7a);
        char_from_ascii(u as u8)
    } else {
        c
    }
}

/// The character with the given ASCII code.
pub fn char_from_ascii(b: u8) -> (c: char)
    requires
        b < 128,
    ensures
        c as u32 == b as u32,
        c == (b as u32) as char,
{
    b as char
}

/// ASCII letters, `a`..=`z` and `A`..=`Z`.
pub open spec fn is_ascii_alpha(c: char) -> bool {
    ('a' <= c && c <= 'z') || ('A' <= c && c <= 'Z')
}

/// ASCII-case-insensitive character equality (`char::eq_ignore_ascii_case`).
pub fn eq_ignore_ascii_case(a: char, b: char) -> (r: bool)
    ensures
        r == (ascii_lower(a) == ascii_lower(b)),
{
    to_ascii_lower(a) == to_ascii_lower(b)
}

/// The sequence with all ASCII letters lowered.
pub open spec fn lower_seq(s: Seq<char>) -> Seq<char> {
    s.map_values(|c: char| ascii_lower(c))
}

/// `str::to_ascii_lowercase`, as characters.
pub fn lower_chars(v: &[char]) -> (r: Vec<char>)
    ensures
        r@ == lower_seq(v@),
{
    let mut r: Vec<char> = Vec::new();
    let mut i: usize = 0;
    while i < v.len()
        invariant
            i <= v@.len(),
            r@ == lower_seq(v@.take(i as int)),
        decreases v@.len() - i,
    {
        r.push(to_ascii_lower(v[i]));
        proof {
            assert(lower_seq(v@.take(i + 1)) =~= lower_seq(v@.take(i as int)).push(
                ascii_lower(v@[i as int]),
            ));
        }
        i = i + 1;
    }
    proof {
        assert(v@.take(v@.len() as int) == v@);
    }
    r
}

/// Number of leading white-space characters.
pub open spec fn lead_ws(s: Seq<char>) -> nat
    decreases s.len(),
{
    if s.len() > 0 && is_ws(s[0]) {
        1 + lead_ws(s.drop_first())
    } else {
        0
    }
}

/// Number of trailing white-space characters.
pub open spec fn trail_ws(s: Seq<char>) -> nat
    decreases s.len(),
{
    if s.len() > 0 && is_ws(s.last()) {
        1 + trail_ws(s.drop_last())
    } else {
        0
    }
}

/// `str::trim_end`: the sequence without its trailing white space.
pub open spec fn trim_end_seq(s: Seq<char>) -> Seq<char> {
    s.take(s.len() - trail_ws(s))
}

/// `str::trim_start`: the sequence without its leading white space.
pub open spec fn trim_start_seq(s: Seq<char>) -> Seq<char> {
    s.skip(lead_ws(s) as int)
}

/// `str::trim`: the sequence without leading and trailing white space.
pub open spec fn trim_seq(s: Seq<char>) -> Seq<char> {
    trim_end_seq(trim_start_seq(s))
}

proof fn lemma_lead_ws_bound(s: Seq<char>)
    ensures
        lead_ws(s) <= s.len(),
        forall|j: int| 0 <= j < lead_ws(s) ==> is_ws(#[trigger] s[j]),
        lead_ws(s) < s.len() ==> !is_ws(s[lead_ws(s) as int]),
    decreases s.len(),
{
    if s.len() > 0 && is_ws(s[0]) {
        lemma_lead_ws_bound(s.drop_first());
        assert forall|j: int| 0 <= j < lead_ws(s) implies is_ws(#[trigger] s[j]) by {
            if j > 0 {
                assert(s[j] == s.drop_first()[j - 1]);
            }
        }
    }
}

proof fn lemma_trail_ws_bound(s: Seq<char>)
    ensures
        trail_ws(s) <= s.len(),
        forall|j: int| s.len() - trail_ws(s) <= j < s.len() ==> is_ws(#[trigger] s[j]),
        trail_ws(s) < s.len() ==> !is_ws(s[s.len() - trail_ws(s) - 1]),
    decreases s.len(),
{
    if s.len() > 0 && is_ws(s.last()) {
        lemma_trail_ws_bound(s.drop_last());
        assert forall|j: int| s.len() - trail_ws(s) <= j < s.len() implies is_ws(#[trigger] s[j]) by {
            if j < s.len() - 1 {
                assert(s[j] == s.drop_last()[j]);
            }
        }
    }
}

proof fn lemma_lead_ws_step(s: Seq<char>, i: int)
    requires
        0 <= i <= s.len(),
        forall|j: int| 0 <= j < i ==> is_ws(#[trigger] s[j]),
        i == s.len() || !is_ws(s[i]),
    ensures
        lead_ws(s) == i,
    decreases i,
{
    if i > 0 {
        assert forall|j: int| 0 <= j < i - 1 implies is_ws(#[trigger] s.drop_first()[j]) by {
            assert(s.drop_first()[j] == s[j + 1]);
        }
        if i < s.len() {
            assert(s.drop_first()[i - 1] == s[i]);
        }
        lemma_lead_ws_step(s.drop_first(), i - 1);
    }
}

proof fn lemma_trail_ws_step(s: Seq<char>, k: int)
    requires
        0 <= k <= s.len(),
        forall|j: int| s.len() - k <= j < s.len() ==> is_ws(#[trigger] s[j]),
        k == s.len() || !is_ws(s[s.len() - k - 1]),
    ensures
        trail_ws(s) == k,
    decreases k,
{
    if k > 0 {
        let t = s.drop_last();
        assert forall|j: int| t.len() - (k - 1) <= j < t.len() implies is_ws(#[trigger] t[j]) by {
            assert(t[j] == s[j]);
        }
        if k < s.len() {
            assert(t[t.len() - (k - 1) - 1] == s[s.len() - k - 1]);
        }
        assert(is_ws(s.last()));
        lemma_trail_ws_step(t, k - 1);
    }
}

/// Bounds `(start, end)` of `s` with white space trimmed at both ends.
pub fn trim_bounds(s: &[char]) -> (r: (usize, usize))
    ensures
        r.0 <= r.1 <= s@.len(),
        s@.subrange(r.0 as int, r.1 as int) == trim_seq(s@),
        r.0 == lead_ws(s@),
{
    let mut i: usize = 0;
    while i < s.len() && is_whitespace(s[i])
        invariant
            i <= s@.len(),
            forall|j: int| 0 <= j < i ==> is_ws(#[trigger] s@[j]),
        decreases s@.len() - i,
    {
        i = i + 1;
    }
    proof {
        lemma_lead_ws_step(s@, i as int);
    }
    let mut e: usize = s.len();
    while e > i && is_whitespace(s[e - 1])
        invariant
            i <= e <= s@.len(),
            forall|j: int| e <= j < s@.len() ==> is_ws(#[trigger] s@[j]),
        decreases e,
    {
        e = e - 1;
    }
    proof {
        let t = s@.skip(i as int);
        let k = s@.len() - e;
        assert forall|j: int| t.len() - k <= j < t.len() implies is_ws(#[trigger] t[j]) by {
            assert(t[j] == s@[j + i]);
        }
        if k < t.len() {
            assert(t[t.len() - k - 1] == s@[e - 1]);
        }
        lemma_trail_ws_step(t, k);
        assert(s@.subrange(i as int, e as int) =~= t.take(t.len() - k));
    }
    (i, e)
}

/// `str::trim`, as characters.
pub fn trim_chars(s: &[char]) -> (r: Vec<char>)
    ensures
        r@ == trim_seq(s@),
{
    let (a, b) = trim_bounds(s);
    slice_to_vec(s, a, b)
}

/// `str::trim_end`, as characters.
pub fn trim_end_chars(s: &[char]) -> (r: Vec<char>)
    ensures
        r@ == trim_end_seq(s@),
{
    let mut e: usize = s.len();
    while e > 0 && is_whitespace(s[e - 1])
        invariant
            e <= s@.len(),
            forall|j: int| e <= j < s@.len() ==> is_ws(#[trigger] s@[j]),
        decreases e,
    {
        e = e - 1;
    }
    proof {
        let k = s@.len() - e;
        if k < s@.len() {
            assert(s@[s@.len() - k - 1] == s@[e - 1]);
        }
        lemma_trail_ws_step(s@, k);
    }
    slice_to_vec(s, 0, e)
}

/// The characters `s[a..b]` as a new vector.
pub fn slice_to_vec(s: &[char], a: usize, b: usize) -> (r: Vec<char>)
    requires
        a <= b <= s@.len(),
    ensures
        r@ == s@.subrange(a as int, b as int),
{
    let mut r: Vec<char> = Vec::new();
    let mut i: usize = a;
    while i < b
        invariant
            a <= i <= b <= s@.len(),
            r@ == s@.subrange(a as int, i as int),
        decreases b - i,
    {
        r.push(s[i]);
        proof {
            assert(s@.subrange(a as int, i + 1) == s@.subrange(a as int, i as int).push(s@[i as int]));
        }
        i = i + 1;
    }
    r
}

/// `s` starts with `p`.
pub open spec fn starts_with(s: Seq<char>, p: Seq<char>) -> bool {
    p.len() <= s.len() && s.take(p.len() as int) == p
}

/// Whether `p` occurs in `s` at position `i`.
pub fn matches_at(s: &[char], i: usize, p: &[char]) -> (r: bool)
    requires
        i <= s@.len(),
    ensures
        r == starts_with(s@.skip(i as int), p@),
{
    let n = s.len();
    if n - i < p.len() {
        return false;
    }
    let mut j: usize = 0;
    while j < p.len()
        invariant
            n == s@.len(),
            i + p@.len() <= s@.len(),
            j <= p@.len(),
            forall|k: int| 0 <= k < j ==> s@[i + k] == p@[k],
        decreases p@.len() - j,
    {
        assert(i + j < s@.len());
        if s[i + j] != p[j] {
            proof {
                assert(s@.skip(i as int).take(p@.len() as int)[j as int] == s@[i + j]);
            }
            return false;
        }
        j = j + 1;
    }
    proof {
        assert(s@.skip(i as int).take(p@.len() as int) =~= p@);
    }
    true
}

/// Decimal value of a sequence of ASCII digits.
pub open spec fn digits_value(s: Seq<char>) -> nat
    decreases s.len(),
{
    if s.len() == 0 {
        0
    } else {
        digits_value(s.drop_last()) * 10 + ((s.last() as u32) - ('0' as u32)) as nat
    }
}

/// ASCII digit `0`..=`9`.
pub open spec fn is_digit(c: char) -> bool {
    '0' <= c && c <= '9'
}

/// Every character is an ASCII digit.
pub open spec fn all_digits(s: Seq<char>) -> bool {
    forall|i: int| 0 <= i < s.len() ==> is_digit(#[trigger] s[i])
}

/// What `str::parse::<u64>` accepts and returns: an optional `+`, then one or
/// more ASCII digits whose value fits in 64 bits.
pub open spec fn parse_u64_spec(s: Seq<char>) -> Option<u64> {
    let d = if s.len() > 0 && s[0] == '+' {
        s.drop_first()
    } else {
        s
    };
    if d.len() > 0 && all_digits(d) && digits_value(d) <= u64::MAX {
        Some(digits_value(d) as u64)
    } else {
        None
    }
}

proof fn lemma_digits_value_take(s: Seq<char>, i: int)
    requires
        0 <= i < s.len(),
    ensures
        digits_value(s.take(i + 1)) == digits_value(s.take(i)) * 10 + ((s[i] as u32) - ('0' as u32)) as nat,
{
    assert(s.take(i + 1).drop_last() == s.take(i));
}

proof fn lemma_digits_value_mono(s: Seq<char>, i: int)
    requires
        0 <= i <= s.len(),
        all_digits(s),
    ensures
        digits_value(s.take(i)) <= digits_value(s),
    decreases s.len() - i,
{
    if i < s.len() {
        lemma_digits_value_take(s, i);
        lemma_digits_value_mono(s, i + 1);
    } else {
        assert(s.take(i) == s);
    }
}

/// `str::parse::<u64>`, as characters.
pub fn parse_u64(s: &[char]) -> (r: Option<u64>)
    ensures
        r == parse_u64_spec(s@),
{
    let start: usize = if s.len() > 0 && s[0] == '+' { 1 } else { 0 };
    let ghost d = if s@.len() > 0 && s@[0] == '+' { s@.drop_first() } else { s@ };
    proof {
        assert(d =~= s@.skip(start as int));
    }
    if start >= s.len() {
        proof {
            assert(d.len() == 0);
        }
        return None;
    }
    let mut acc: u64 = 0;
    let mut i: usize = start;
    while i < s.len()
        invariant
            start <= i <= s@.len(),
            d =~= s@.skip(start as int),
            d == (if s@.len() > 0 && s@[0] == '+' { s@.drop_first() } else { s@ }),
            all_digits(d.take(i - start)),
            acc == digits_value(d.take(i - start)),
        decreases s@.len() - i,
    {
        let c = s[i];
        proof {
            assert(d[i - start] == c);
        }
        if !('0' <= c && c <= '9') {
            proof {
                assert(!is_digit(d[i - start]));
                assert(!all_digits(d));
                assert(parse_u64_spec(s@) is None);
            }
            return None;
        }
        let dv = (c as u32 - '0' as u32) as u64;
        proof {
            lemma_digits_value_take(d, i - start);
            assert(all_digits(d.take(i - start + 1))) by {
                assert forall|k: int| 0 <= k < i - start + 1 implies is_digit(
                    #[trigger] d.take(i - start + 1)[k],
                ) by {
                    if k < i - start {
                        assert(d.take(i - start + 1)[k] == d.take(i - start)[k]);
                    }
                }
            }
        }
        if acc > (u64::MAX - dv) / 10 {
            proof {
                assert(acc * 10 + dv > u64::MAX) by (nonlinear_arith)
                    requires acc > (u64::MAX - dv) / 10, dv <= 9;
                let k = i - start + 1;
                assert(digits_value(d.take(k)) == acc * 10 + dv);
                if all_digits(d) {
                    lemma_digits_value_mono(d, k);
                    assert(digits_value(d) > u64::MAX);
                }
            }
            return None;
        }
        proof {
            assert(acc * 10 + dv <= u64::MAX) by (nonlinear_arith)
                requires acc <= (u64::MAX - dv) / 10, dv <= 9;
        }
        acc = acc * 10 + dv;
        i = i + 1;
    }
    proof {
        assert(d.take(i - start) == d);
    }
    Some(acc)
}

/// `str::parse::<u64>` on a string slice.
pub fn parse_u64_str(s: &str) -> (r: Option<u64>)
    ensures
        r == parse_u64_spec(s@),
{
    let v = chars_of(s);
    parse_u64(v.as_slice())
}

/// The decimal representation of `n`, as `n.to_string()` writes it.
pub open spec fn decimal(n: nat) -> Seq<char>
    decreases n,
{
    if n < 10 {
        seq![(('0' as u32) + n) as char]
    } else {
        decimal(n / 10).push((('0' as u32) + (n % 10)) as char)
    }
}

/// `u64::to_string`, as characters.
pub fn decimal_chars(n: u64) -> (r: Vec<char>)
    ensures
        r@ == decimal(n as nat),
    decreases n,
{
    if n < 10 {
        let mut r: Vec<char> = Vec::new();
        r.push(char_from_ascii((48 + n) as u8));
        proof {
            assert(r@ =~= seq![(('0' as u32) + n) as char]);
        }
        r
    } else {
        let mut r = decimal_chars(n / 10);
        r.push(char_from_ascii((48 + n % 10) as u8));
        r
    }
}

/// `u64::to_string`.
pub fn u64_to_string(n: u64) -> (r: String)
    ensures
        r@ == decimal(n as nat),
{
    let v = decimal_chars(n);
    string_from_chars(v.as_slice())
}

/// Left-to-right, non-overlapping replacement of every occurrence of `p` by `r`
/// (`str::replace` with a non-empty pattern).
pub open spec fn replace_all(s: Seq<char>, p: Seq<char>, r: Seq<char>) -> Seq<char>
    recommends
        p.len() > 0,
    decreases s.len(),
{
    if p.len() == 0 || s.len() < p.len() {
        s
    } else if s.take(p.len() as int) == p {
        r + replace_all(s.skip(p.len() as int), p, r)
    } else {
        seq![s[0]] + replace_all(s.drop_first(), p, r)
    }
}

/// `str::replace` with a non-empty pattern, as characters.
pub fn replace_chars(s: &[char], p: &[char], r: &[char]) -> (out: Vec<char>)
    requires
        p@.len() > 0,
    ensures
        out@ == replace_all(s@, p@, r@),
{
    let mut out: Vec<char> = Vec::new();
    let mut i: usize = 0;
    proof {
        assert(s@.skip(0) =~= s@);
        assert(out@ + replace_all(s@, p@, r@) =~= replace_all(s@, p@, r@));
    }
    while i < s.len()
        invariant
            i <= s@.len(),
            p@.len() > 0,
            out@ + replace_all(s@.skip(i as int), p@, r@) == replace_all(s@, p@, r@),
        decreases s@.len() - i,
    {
        let ghost rest = s@.skip(i as int);
        if matches_at(s, i, p) {
            let ghost o = out@;
            let mut k: usize = 0;
            while k < r.len()
                invariant
                    k <= r@.len(),
                    out@ == o + r@.take(k as int),
                decreases r@.len() - k,
            {
                out.push(r[k]);
                proof {
                    assert(r@.take(k + 1) == r@.take(k as int).push(r@[k as int]));
                }
                k = k + 1;
            }
            proof {
                assert(r@.take(r@.len() as int) == r@);
                assert(rest.skip(p@.len() as int) =~= s@.skip(i + p@.len()));
                assert(o + replace_all(rest, p@, r@) == replace_all(s@, p@, r@));
            }
            i = i + p.len();
        } else {
            proof {
                assert(rest.len() >= 1);
                if rest.len() >= p@.len() {
                    assert(rest[0] == s@[i as int]);
                } else {
                    assert(replace_all(rest, p@, r@) == rest);
                    assert(rest == seq![rest[0]] + rest.drop_first());
                    assert(replace_all(rest.drop_first(), p@, r@) == rest.drop_first());
                }
                assert(rest.drop_first() =~= s@.skip(i + 1));
            }
            out.push(s[i]);
            i = i + 1;
        }
    }
    proof {
        assert(s@.skip(i as int).len() == 0);
    }
    out
}


/// What `format!("{:?}", s)` writes for a string slice: the characters
/// quoted and escaped as `str`'s `Debug` does.
pub uninterp spec fn debug_str(s: Seq<char>) -> Seq<char>;

/// `<str as Debug>::fmt`, through `format!("{s:?}")`: the quoted, escaped
/// form of the string. Its characters are named by [`debug_str`]; what the
/// escaping does to each character is left unstated.
#[verifier::external_body]
pub(crate) fn debug_quoted(s: &str) -> (r: String)
    ensures
        r@ == debug_str(s@),
{
    format!("{s:?}")
}

/// Pieces of `s` between separators, as `str::split(sep)` yields them
/// (`cur` holds the characters of the piece being read).
pub open spec fn split_from(s: Seq<char>, sep: char, cur: Seq<char>) -> Seq<Seq<char>>
    decreases s.len(),
{
    if s.len() == 0 {
        seq![cur]
    } else if s[0] == sep {
        seq![cur] + split_from(s.drop_first(), sep, Seq::empty())
    } else {
        split_from(s.drop_first(), sep, cur.push(s[0]))
    }
}

/// `str::split(sep)`: the pieces between separators; always at least one.
pub open spec fn split_on(s: Seq<char>, sep: char) -> Seq<Seq<char>> {
    split_from(s, sep, Seq::empty())
}

/// `n` copies of `c`.
pub fn repeat_char(c: char, n: usize) -> (r: Vec<char>)
    ensures
        r@ == Seq::new(n as nat, |i: int| c),
{
    let mut r: Vec<char> = Vec::new();
    let mut i: usize = 0;
    while i < n
        invariant
            i <= n,
            r@ == Seq::new(i as nat, |k: int| c),
        decreases n - i,
    {
        r.push(c);
        i = i + 1;
        proof {
            assert(r@ =~= Seq::new(i as nat, |k: int| c));
        }
    }
    r
}

/// The views of a list of strings.
pub open spec fn string_views(v: Seq<String>) -> Seq<Seq<char>> {
    v.map_values(|s: String| s@)
}

/// The words joined by `sep`.
pub open spec fn join_with(words: Seq<Seq<char>>, sep: Seq<char>) -> Seq<char>
    decreases words.len(),
{
    if words.len() == 0 {
        seq![]
    } else if words.len() == 1 {
        words[0]
    } else {
        join_with(words.drop_last(), sep) + sep + words.last()
    }
}

/// `words[start..].join(sep)`.
pub fn join_from(words: &[String], start: usize, sep: &str) -> (r: String)
    requires
        start <= words@.len(),
    ensures
        r@ == join_with(string_views(words@).skip(start as int), sep@),
{
    let ghost ws = string_views(words@).skip(start as int);
    let mut out = String::new();
    let mut k: usize = start;
    proof {
        assert(ws.take(0) =~= Seq::<Seq<char>>::empty());
    }
    while k < words.len()
        invariant
            ws == string_views(words@).skip(start as int),
            start <= k <= words@.len(),
            out@ == join_with(ws.take(k - start), sep@),
        decreases words@.len() - k,
    {
        let ghost j = k - start;
        proof {
            assert(ws.take(j + 1).drop_last() =~= ws.take(j));
            assert(ws.take(j + 1).last() == ws[j]);
            assert(ws[j] == words@[k as int]@);
        }
        if k == start {
            out = concat2(out.as_str(), words[k].as_str());
            proof {
                assert(ws.take(1) =~= seq![ws[0]]);
                assert(out@ =~= ws[0]);
            }
        } else {
            let spaced = concat2(out.as_str(), sep);
            out = concat2(spaced.as_str(), words[k].as_str());
        }
        k = k + 1;
    }
    proof {
        assert(ws.take(k - start) =~= ws);
    }
    out
}

/// The views of a vector of character vectors.
pub open spec fn views(v: Seq<Vec<char>>) -> Seq<Seq<char>> {
    v.map_values(|x: Vec<char>| x@)
}

/// `str::split(sep)`, as characters.
pub fn split_chars(s: &[char], sep: char) -> (r: Vec<Vec<char>>)
    ensures
        views(r@) == split_on(s@, sep),
        r@.len() >= 1,
{
    let mut pieces: Vec<Vec<char>> = Vec::new();
    let mut cur: Vec<char> = Vec::new();
    let mut i: usize = 0;
    proof {
        assert(s@.skip(0) =~= s@);
        assert(views(pieces@) + split_from(s@, sep, cur@) =~= split_on(s@, sep));
    }
    while i < s.len()
        invariant
            i <= s@.len(),
            views(pieces@) + split_from(s@.skip(i as int), sep, cur@) == split_on(s@, sep),
        decreases s@.len() - i,
    {
        let ghost rest = s@.skip(i as int);
        proof {
            assert(rest[0] == s@[i as int]);
            assert(rest.drop_first() =~= s@.skip(i + 1));
        }
        if s[i] == sep {
            let ghost old_pieces = pieces@;
            let done = cur;
            pieces.push(done);
            cur = Vec::new();
            proof {
                assert(views(pieces@) =~= views(old_pieces) + seq![done@]);
                assert(views(old_pieces) + split_from(rest, sep, done@) =~= views(old_pieces) + (
                seq![done@] + split_from(s@.skip(i + 1), sep, Seq::empty())));
                assert(cur@ =~= Seq::<char>::empty());
            }
        } else {
            cur.push(s[i]);
        }
        i = i + 1;
    }
    let ghost old_pieces = pieces@;
    proof {
        assert(s@.skip(i as int) =~= Seq::<char>::empty());
    }
    let last = cur;
    pieces.push(last);
    proof {
        assert(views(pieces@) =~= views(old_pieces) + seq![last@]);
    }
    pieces
}


/// Number of bytes of a character in UTF-8.
pub open spec fn utf8_width(c: char) -> nat {
    let u = c as u32;
    if u < 0x80 {
        1
    } else if u < 0x800 {
        2
    } else if u < 0x10000 {
        3
    } else {
        4
    }
}

/// Number of bytes of a character sequence in UTF-8 (`str::len`).
pub open spec fn utf8_len(s: Seq<char>) -> nat
    decreases s.len(),
{
    if s.len() == 0 {
        0
    } else {
        utf8_len(s.drop_last()) + utf8_width(s.last())
    }
}

/// Whether the UTF-8 length of `s` equals `n`.
pub fn utf8_len_is(s: &[char], n: usize) -> (r: bool)
    ensures
        r == (utf8_len(s@) == n),
{
    let mut acc: usize = 0;
    let mut i: usize = 0;
    while i < s.len()
        invariant
            i <= s@.len(),
            acc == utf8_len(s@.take(i as int)),
            acc <= n,
        decreases s@.len() - i,
    {
        let u = s[i] as u32;
        let w: usize = if u < 0x80 {
            1
        } else if u < 0x800 {
            2
        } else if u < 0x10000 {
            3
        } else {
            4
        };
        proof {
            assert(s@.take(i + 1).drop_last() =~= s@.take(i as int));
            assert(s@.take(i + 1).last() == s@[i as int]);
        }
        if w > n - acc {
            proof {
                lemma_utf8_len_mono(s@, i + 1);
            }
            return false;
        }
        acc = acc + w;
        i = i + 1;
    }
    proof {
        assert(s@.take(i as int) =~= s@);
    }
    acc == n
}

proof fn lemma_utf8_len_mono(s: Seq<char>, i: int)
    requires
        0 <= i <= s.len(),
    ensures
        utf8_len(s.take(i)) <= utf8_len(s),
    decreases s.len() - i,
{
    if i < s.len() {
        assert(s.take(i + 1).drop_last() =~= s.take(i));
        lemma_utf8_len_mono(s, i + 1);
    } else {
        assert(s.take(i) =~= s);
    }
}

/// Value of an ASCII hexadecimal digit (`0-9`, `a-f`, `A-F`).
pub open spec fn hex_value(c: char) -> Option<u8> {
    if '0' <= c && c <= '9' {
        Some(((c as u32) - 48) as u8)
    } else if 'a' <= c && c <= 'f' {
        Some(((c as u32) - 87) as u8)
    } else if 'A' <= c && c <= 'F' {
        Some(((c as u32) - 55) as u8)
    } else {
        None
    }
}

/// Value of a hexadecimal digit.
pub fn hex_digit(c: char) -> (r: Option<u8>)
    ensures
        r == hex_value(c),
{
    if '0' <= c && c <= '9' {
        Some((c as u32 - 48) as u8)
    } else if 'a' <= c && c <= 'f' {
        Some((c as u32 - 87) as u8)
    } else if 'A' <= c && c <= 'F' {
        Some((c as u32 - 55) as u8)
    } else {
        None
    }
}

} // verus!
