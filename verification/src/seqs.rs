//! Sequence facts used by the split trees: removing a value, inserting a
//! value after another, and duplicate-freedom of concatenations.

use vstd::prelude::*;

verus! {

/// `s` with every occurrence of `t` removed, order kept.
pub open spec fn without<A>(s: Seq<A>, t: A) -> Seq<A>
    decreases s.len(),
{
    if s.len() == 0 {
        s
    } else if s[0] == t {
        without(s.drop_first(), t)
    } else {
        seq![s[0]] + without(s.drop_first(), t)
    }
}

/// `s` with `x` inserted right after the first occurrence of `t`
/// (unchanged when `t` does not occur).
pub open spec fn insert_after<A>(s: Seq<A>, t: A, x: A) -> Seq<A>
    decreases s.len(),
{
    if s.len() == 0 {
        s
    } else if s[0] == t {
        seq![t, x] + s.drop_first()
    } else {
        seq![s[0]] + insert_after(s.drop_first(), t, x)
    }
}

pub proof fn lemma_without_concat<A>(a: Seq<A>, b: Seq<A>, t: A)
    ensures
        without(a + b, t) == without(a, t) + without(b, t),
    decreases a.len(),
{
    if a.len() == 0 {
        assert(a + b =~= b);
        assert(without(a, t) + without(b, t) =~= without(b, t));
    } else {
        assert((a + b).drop_first() =~= a.drop_first() + b);
        lemma_without_concat(a.drop_first(), b, t);
        if a[0] != t {
            assert(seq![a[0]] + (without(a.drop_first(), t) + without(b, t)) =~= (seq![a[0]]
                + without(a.drop_first(), t)) + without(b, t));
        }
    }
}

pub proof fn lemma_without_contains<A>(s: Seq<A>, t: A, x: A)
    ensures
        without(s, t).contains(x) <==> (s.contains(x) && x != t),
    decreases s.len(),
{
    if s.len() > 0 {
        lemma_without_contains(s.drop_first(), t, x);
        if s.contains(x) && x != t && s[0] != x {
            let j = choose|j: int| 0 <= j < s.len() && s[j] == x;
            assert(s.drop_first()[j - 1] == x);
        }
        if s.drop_first().contains(x) {
            let j = choose|j: int| 0 <= j < s.drop_first().len() && s.drop_first()[j] == x;
            assert(s[j + 1] == x);
        }
        if s[0] != t {
            let w = seq![s[0]] + without(s.drop_first(), t);
            if without(s.drop_first(), t).contains(x) {
                let j = choose|j: int|
                    0 <= j < without(s.drop_first(), t).len() && without(s.drop_first(), t)[j] == x;
                assert(w[j + 1] == x);
            }
            if w.contains(x) && s[0] != x {
                let j = choose|j: int| 0 <= j < w.len() && w[j] == x;
                assert(without(s.drop_first(), t)[j - 1] == x);
            }
            if s[0] == x {
                assert(w[0] == x);
            }
        }
    }
}

pub proof fn lemma_without_absent<A>(s: Seq<A>, t: A)
    requires
        !s.contains(t),
    ensures
        without(s, t) == s,
    decreases s.len(),
{
    if s.len() > 0 {
        assert(s[0] != t);
        assert(!s.drop_first().contains(t)) by {
            if s.drop_first().contains(t) {
                let j = choose|j: int| 0 <= j < s.drop_first().len() && s.drop_first()[j] == t;
                assert(s[j + 1] == t);
            }
        }
        lemma_without_absent(s.drop_first(), t);
        assert(seq![s[0]] + s.drop_first() =~= s);
    }
}

pub proof fn lemma_without_no_dup<A>(s: Seq<A>, t: A)
    requires
        s.no_duplicates(),
    ensures
        without(s, t).no_duplicates(),
    decreases s.len(),
{
    if s.len() > 0 {
        let d = s.drop_first();
        assert(d.no_duplicates()) by {
            assert forall|i: int, j: int| 0 <= i < d.len() && 0 <= j < d.len() && i != j implies d[i]
                != d[j] by {
                assert(d[i] == s[i + 1] && d[j] == s[j + 1]);
            }
        }
        lemma_without_no_dup(d, t);
        if s[0] != t {
            let w = seq![s[0]] + without(d, t);
            assert(!d.contains(s[0])) by {
                if d.contains(s[0]) {
                    let j = choose|j: int| 0 <= j < d.len() && d[j] == s[0];
                    assert(s[j + 1] == s[0]);
                }
            }
            lemma_without_contains(d, t, s[0]);
            assert forall|i: int, j: int| 0 <= i < w.len() && 0 <= j < w.len() && i != j implies w[i]
                != w[j] by {
                if i == 0 && j > 0 {
                    assert(without(d, t)[j - 1] == w[j]);
                    assert(without(d, t).contains(w[j]));
                } else if j == 0 && i > 0 {
                    assert(without(d, t)[i - 1] == w[i]);
                    assert(without(d, t).contains(w[i]));
                } else if i > 0 && j > 0 {
                    assert(without(d, t)[i - 1] == w[i]);
                    assert(without(d, t)[j - 1] == w[j]);
                }
            }
        }
    }
}

/// Concatenation of two duplicate-free, disjoint sequences is duplicate-free.
pub proof fn lemma_concat_no_dup<A>(a: Seq<A>, b: Seq<A>)
    requires
        a.no_duplicates(),
        b.no_duplicates(),
        forall|x: A| a.contains(x) ==> !b.contains(x),
    ensures
        (a + b).no_duplicates(),
{
    let c = a + b;
    assert forall|i: int, j: int| 0 <= i < c.len() && 0 <= j < c.len() && i != j implies c[i]
        != c[j] by {
        if i < a.len() && j >= a.len() {
            assert(a.contains(c[i]));
            assert(b[j - a.len()] == c[j]);
            assert(b.contains(c[j]));
        } else if j < a.len() && i >= a.len() {
            assert(a.contains(c[j]));
            assert(b[i - a.len()] == c[i]);
            assert(b.contains(c[i]));
        } else if i >= a.len() && j >= a.len() {
            assert(b[i - a.len()] == c[i]);
            assert(b[j - a.len()] == c[j]);
        }
    }
}

/// The parts of a duplicate-free concatenation are duplicate-free and disjoint.
pub proof fn lemma_concat_no_dup_parts<A>(a: Seq<A>, b: Seq<A>)
    requires
        (a + b).no_duplicates(),
    ensures
        a.no_duplicates(),
        b.no_duplicates(),
        forall|x: A| a.contains(x) ==> !b.contains(x),
{
    let c = a + b;
    assert forall|i: int, j: int| 0 <= i < a.len() && 0 <= j < a.len() && i != j implies a[i]
        != a[j] by {
        assert(c[i] == a[i] && c[j] == a[j]);
    }
    assert forall|i: int, j: int| 0 <= i < b.len() && 0 <= j < b.len() && i != j implies b[i]
        != b[j] by {
        assert(c[i + a.len()] == b[i] && c[j + a.len()] == b[j]);
    }
    assert forall|x: A| a.contains(x) implies !b.contains(x) by {
        let i = choose|i: int| 0 <= i < a.len() && a[i] == x;
        if b.contains(x) {
            let j = choose|j: int| 0 <= j < b.len() && b[j] == x;
            assert(c[i] == c[j + a.len()]);
        }
    }
}

pub proof fn lemma_contains_concat<A>(a: Seq<A>, b: Seq<A>, x: A)
    ensures
        (a + b).contains(x) <==> (a.contains(x) || b.contains(x)),
{
    let c = a + b;
    if a.contains(x) {
        let i = choose|i: int| 0 <= i < a.len() && a[i] == x;
        assert(c[i] == x);
    }
    if b.contains(x) {
        let i = choose|i: int| 0 <= i < b.len() && b[i] == x;
        assert(c[i + a.len()] == x);
    }
    if c.contains(x) {
        let i = choose|i: int| 0 <= i < c.len() && c[i] == x;
        if i < a.len() {
            assert(a[i] == x);
        } else {
            assert(b[i - a.len()] == x);
        }
    }
}

pub proof fn lemma_insert_after_concat<A>(a: Seq<A>, b: Seq<A>, t: A, x: A)
    ensures
        insert_after(a + b, t, x) == (if a.contains(t) {
            insert_after(a, t, x) + b
        } else {
            a + insert_after(b, t, x)
        }),
    decreases a.len(),
{
    if a.len() == 0 {
        assert(a + b =~= b);
        assert(!a.contains(t));
    } else {
        assert((a + b).drop_first() =~= a.drop_first() + b);
        assert((a + b)[0] == a[0]);
        lemma_insert_after_concat(a.drop_first(), b, t, x);
        if a[0] == t {
            assert(a.contains(t)) by {
                assert(a[0] == t);
            }
            assert(seq![t, x] + (a.drop_first() + b) =~= (seq![t, x] + a.drop_first()) + b);
        } else {
            assert(a.contains(t) == a.drop_first().contains(t)) by {
                if a.contains(t) {
                    let j = choose|j: int| 0 <= j < a.len() && a[j] == t;
                    assert(a.drop_first()[j - 1] == t);
                }
                if a.drop_first().contains(t) {
                    let j = choose|j: int| 0 <= j < a.drop_first().len() && a.drop_first()[j] == t;
                    assert(a[j + 1] == t);
                }
            }
            if a.contains(t) {
                assert(seq![a[0]] + (insert_after(a.drop_first(), t, x) + b) =~= (seq![a[0]]
                    + insert_after(a.drop_first(), t, x)) + b);
            } else {
                assert(seq![a[0]] + (a.drop_first() + insert_after(b, t, x)) =~= a + insert_after(
                    b,
                    t,
                    x,
                ));
            }
        }
    }
}

pub proof fn lemma_insert_after_contains<A>(s: Seq<A>, t: A, x: A, y: A)
    requires
        s.contains(t),
    ensures
        insert_after(s, t, x).contains(y) <==> (s.contains(y) || y == x),
    decreases s.len(),
{
    if s[0] == t {
        lemma_contains_concat(seq![t, x], s.drop_first(), y);
        assert(seq![t, x].contains(y) <==> (y == t || y == x)) by {
            if y == t {
                assert(seq![t, x][0] == y);
            }
            if y == x {
                assert(seq![t, x][1] == y);
            }
        }
        lemma_contains_concat(seq![s[0]], s.drop_first(), y);
        assert(seq![s[0]] + s.drop_first() =~= s);
        assert(seq![s[0]].contains(y) <==> y == s[0]) by {
            if y == s[0] {
                assert(seq![s[0]][0] == y);
            }
        }
    } else {
        assert(s.drop_first().contains(t)) by {
            let j = choose|j: int| 0 <= j < s.len() && s[j] == t;
            assert(s.drop_first()[j - 1] == t);
        }
        lemma_insert_after_contains(s.drop_first(), t, x, y);
        lemma_contains_concat(seq![s[0]], insert_after(s.drop_first(), t, x), y);
        lemma_contains_concat(seq![s[0]], s.drop_first(), y);
        assert(seq![s[0]] + s.drop_first() =~= s);
        assert(seq![s[0]].contains(y) <==> y == s[0]) by {
            if y == s[0] {
                assert(seq![s[0]][0] == y);
            }
        }
    }
}

pub proof fn lemma_insert_after_no_dup<A>(s: Seq<A>, t: A, x: A)
    requires
        s.no_duplicates(),
        s.contains(t),
        !s.contains(x),
    ensures
        insert_after(s, t, x).no_duplicates(),
    decreases s.len(),
{
    let d = s.drop_first();
    assert(d.no_duplicates()) by {
        assert forall|i: int, j: int| 0 <= i < d.len() && 0 <= j < d.len() && i != j implies d[i]
            != d[j] by {
            assert(d[i] == s[i + 1] && d[j] == s[j + 1]);
        }
    }
    assert(!d.contains(s[0])) by {
        if d.contains(s[0]) {
            let j = choose|j: int| 0 <= j < d.len() && d[j] == s[0];
            assert(s[j + 1] == s[0]);
        }
    }
    assert(!d.contains(x)) by {
        if d.contains(x) {
            let j = choose|j: int| 0 <= j < d.len() && d[j] == x;
            assert(s[j + 1] == x);
        }
    }
    if s[0] == t {
        let h = seq![t, x];
        assert(h.no_duplicates()) by {
            assert(s[0] == t);
            assert(t != x);
        }
        assert forall|y: A| h.contains(y) implies !d.contains(y) by {
            let i = choose|i: int| 0 <= i < h.len() && h[i] == y;
            if i == 0 {
                assert(y == t);
            } else {
                assert(y == x);
            }
        }
        lemma_concat_no_dup(h, d);
    } else {
        assert(d.contains(t)) by {
            let j = choose|j: int| 0 <= j < s.len() && s[j] == t;
            assert(d[j - 1] == t);
        }
        lemma_insert_after_no_dup(d, t, x);
        let h = seq![s[0]];
        assert(h.no_duplicates());
        assert forall|y: A| h.contains(y) implies !insert_after(d, t, x).contains(y) by {
            let i = choose|i: int| 0 <= i < h.len() && h[i] == y;
            assert(y == s[0]);
            assert(s[0] != x) by {
                assert(s.contains(s[0])) by {
                    assert(s[0] == s[0]);
                }
            }
            lemma_insert_after_contains(d, t, x, y);
        }
        lemma_concat_no_dup(h, insert_after(d, t, x));
    }
}

} // verus!
