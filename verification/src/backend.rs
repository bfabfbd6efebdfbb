//! A minimal in-memory backend for the pane protocol: a registry of
//! contexts kept in id order, and a handler that answers each protocol
//! method over it. A context's "output" is the list of what was written to
//! it, so that capture round trips can be exercised without a process.

use vstd::prelude::*;
use vstd::seq_lib::*;
use crate::rpc::{
    CaptureParams, CaptureResult, ContextExitedParams, ContextId, ContextInfo, ContextStatus,
    InitParams, InitResult, KillParams, ListParams, ListResult, Notification, RpcError,
    SpawnAgentParams, SpawnAgentResult, WriteParams, CONTEXT_NOT_FOUND, copy_id,
};
use crate::text::{concat2, decimal, join_from, join_with, owned, str_eq, string_views, u64_to_string};

verus! {

/// Lexicographic order of character sequences by code point, a proper
/// prefix first: the order of `str`'s `Ord`.
pub open spec fn lex_lt(a: Seq<char>, b: Seq<char>) -> bool
    decreases a.len(),
{
    if a.len() == 0 {
        b.len() > 0
    } else if b.len() == 0 {
        false
    } else if a[0] != b[0] {
        a[0] < b[0]
    } else {
        lex_lt(a.drop_first(), b.drop_first())
    }
}

/// No sequence comes before itself.
pub proof fn lemma_lex_irreflexive(a: Seq<char>)
    ensures
        !lex_lt(a, a),
    decreases a.len(),
{
    if a.len() > 0 {
        lemma_lex_irreflexive(a.drop_first());
    }
}

/// Of two different sequences one comes first.
pub proof fn lemma_lex_total(a: Seq<char>, b: Seq<char>)
    ensures
        a == b || lex_lt(a, b) || lex_lt(b, a),
    decreases a.len(),
{
    if a.len() > 0 && b.len() > 0 && a[0] == b[0] {
        lemma_lex_total(a.drop_first(), b.drop_first());
        if a.drop_first() == b.drop_first() {
            assert(a =~= seq![a[0]] + a.drop_first());
            assert(b =~= seq![b[0]] + b.drop_first());
        }
    } else if a.len() == 0 && b.len() == 0 {
        assert(a =~= b);
    }
}

/// The order is transitive.
pub proof fn lemma_lex_transitive(a: Seq<char>, b: Seq<char>, c: Seq<char>)
    requires
        lex_lt(a, b),
        lex_lt(b, c),
    ensures
        lex_lt(a, c),
    decreases a.len(),
{
    if a.len() > 0 && b.len() > 0 && c.len() > 0 && a[0] == b[0] && b[0] == c[0] {
        lemma_lex_transitive(a.drop_first(), b.drop_first(), c.drop_first());
    }
}

/// The order of `str`'s `<`, on string slices.
pub fn str_lt(a: &str, b: &str) -> (r: bool)
    ensures
        r == lex_lt(a@, b@),
{
    let n = a.unicode_len();
    let m = b.unicode_len();
    let mut i: usize = 0;
    proof {
        assert(a@.skip(0) =~= a@);
        assert(b@.skip(0) =~= b@);
    }
    while i < n && i < m
        invariant
            n == a@.len(),
            m == b@.len(),
            i <= n,
            i <= m,
            lex_lt(a@, b@) == lex_lt(a@.skip(i as int), b@.skip(i as int)),
        decreases n - i,
    {
        let x = a.get_char(i);
        let y = b.get_char(i);
        proof {
            assert(a@.skip(i as int)[0] == x);
            assert(b@.skip(i as int)[0] == y);
        }
        if x != y {
            return x < y;
        }
        proof {
            assert(a@.skip(i as int).drop_first() =~= a@.skip(i + 1));
            assert(b@.skip(i as int).drop_first() =~= b@.skip(i + 1));
        }
        i = i + 1;
    }
    i == n && i < m
}

/// Ids in strictly increasing order (so all distinct).
pub open spec fn strictly_sorted(ks: Seq<Seq<char>>) -> bool {
    forall|i: int, j: int| 0 <= i < j < ks.len() ==> lex_lt(#[trigger] ks[i], #[trigger] ks[j])
}

/// A tracked context.
#[derive(Debug, Clone)]
pub struct ContextEntry {
    pub id: ContextId,
    pub name: String,
    pub status: ContextStatus,
    pub argv: Vec<String>,
    /// What was written to the context, one item per `write`; it stands in
    /// for the output a real process would produce.
    pub write_log: Vec<String>,
}

#[derive(Debug)]
struct Slot {
    key: ContextId,
    entry: ContextEntry,
}

spec fn slot_keys(s: Seq<Slot>) -> Seq<Seq<char>> {
    s.map_values(|x: Slot| x.key.0@)
}

spec fn slots_view(s: Seq<Slot>) -> Map<Seq<char>, ContextEntry> {
    Map::new(
        |k: Seq<char>| slot_keys(s).contains(k),
        |k: Seq<char>| s[slot_keys(s).index_of(k)].entry,
    )
}

spec fn slots_wf(s: Seq<Slot>) -> bool {
    &&& strictly_sorted(slot_keys(s))
    &&& forall|i: int| 0 <= i < s.len() ==> (#[trigger] s[i]).entry.id.0@ == s[i].key.0@
}

proof fn lemma_lookup(s: Seq<Slot>, i: int)
    requires
        strictly_sorted(slot_keys(s)),
        0 <= i < s.len(),
    ensures
        slots_view(s).dom().contains(s[i].key.0@),
        slots_view(s)[s[i].key.0@] == s[i].entry,
{
    let ks = slot_keys(s);
    assert(ks[i] == s[i].key.0@);
    let j = ks.index_of(ks[i]);
    if j != i {
        lemma_lex_irreflexive(ks[i]);
        if j < i {
            assert(lex_lt(ks[j], ks[i]));
        } else {
            assert(lex_lt(ks[i], ks[j]));
        }
    }
}

proof fn lemma_update_slot(s: Seq<Slot>, i: int, x: Slot)
    requires
        slots_wf(s),
        0 <= i < s.len(),
        x.key.0@ == s[i].key.0@,
    ensures
        slots_view(s.update(i, x)) == slots_view(s).insert(x.key.0@, x.entry),
        x.entry.id.0@ == x.key.0@ ==> slots_wf(s.update(i, x)),
{
    let t = s.update(i, x);
    let ks = slot_keys(s);
    let k = x.key.0@;
    assert(slot_keys(t) =~= ks);
    assert(t[i] == x);
    assert(ks[i] == k);
    assert forall|q: Seq<char>| #![auto] slots_view(t).dom().contains(q) <==> slots_view(s).insert(
        k,
        x.entry,
    ).dom().contains(q) by {
        lemma_dom(t, q);
        lemma_dom(s, q);
        if exists|j: int| 0 <= j < s.len() && s[j].key.0@ == q {
            let j = choose|j: int| 0 <= j < s.len() && s[j].key.0@ == q;
            if j != i {
                assert(t[j] == s[j]);
            }
        }
    }
    assert forall|q: Seq<char>| slots_view(t).dom().contains(q) implies slots_view(t)[q]
        == slots_view(s).insert(k, x.entry)[q] by {
        lemma_dom(t, q);
        let j = choose|j: int| 0 <= j < t.len() && t[j].key.0@ == q;
        lemma_lookup(t, j);
        if j != i {
            assert(t[j] == s[j]);
            lemma_lookup(s, j);
            lemma_lex_irreflexive(k);
            if j < i {
                assert(lex_lt(ks[j], ks[i]));
            } else {
                assert(lex_lt(ks[i], ks[j]));
            }
        }
    }
    assert(slots_view(t) =~= slots_view(s).insert(k, x.entry));
    if x.entry.id.0@ == x.key.0@ {
        assert forall|j: int| 0 <= j < t.len() implies (#[trigger] t[j]).entry.id.0@ == t[j].key.0@ by {
            if j != i {
                assert(t[j] == s[j]);
            }
        }
    }
}

proof fn lemma_dom(s: Seq<Slot>, k: Seq<char>)
    ensures
        slots_view(s).dom().contains(k) <==> exists|i: int| 0 <= i < s.len() && s[i].key.0@ == k,
{
    let ks = slot_keys(s);
    if exists|i: int| 0 <= i < s.len() && s[i].key.0@ == k {
        let i = choose|i: int| 0 <= i < s.len() && s[i].key.0@ == k;
        assert(ks[i] == k);
    }
}

/// The contexts, by id, with the sequence number of the last id handed out.
#[derive(Debug)]
pub struct ContextRegistry {
    slots: Vec<Slot>,
    next_seq: u64,
}

impl View for ContextRegistry {
    type V = Map<Seq<char>, ContextEntry>;

    closed spec fn view(&self) -> Map<Seq<char>, ContextEntry> {
        slots_view(self.slots@)
    }
}

/// What `list` reports of an entry.
pub open spec fn info_of(e: ContextEntry) -> ContextInfo {
    ContextInfo { id: e.id, name: e.name, status: e.status }
}

impl ContextRegistry {
    /// Ids are kept in order, and each entry carries its own id.
    pub closed spec fn wf(&self) -> bool {
        slots_wf(self.slots@)
    }

    /// The sequence number of the last id handed out.
    pub closed spec fn seq_spec(&self) -> u64 {
        self.next_seq
    }

    /// Every entry carries the id it is filed under.
    pub proof fn lemma_ids_match(&self, k: Seq<char>)
        requires
            self.wf(),
            self@.dom().contains(k),
        ensures
            self@[k].id.0@ == k,
    {
        lemma_dom(self.slots@, k);
        let i = choose|i: int| 0 <= i < self.slots@.len() && self.slots@[i].key.0@ == k;
        lemma_lookup(self.slots@, i);
    }

    /// A well-formed registry holds finitely many contexts, so its size
    /// (`len`) is that of its id set.
    pub proof fn lemma_finite(&self)
        requires
            self.wf(),
        ensures
            self@.dom().finite(),
    {
        self.lemma_len();
    }

    /// The number of contexts is finite and the size of the id set.
    proof fn lemma_len(&self)
        requires
            self.wf(),
        ensures
            self@.dom().finite(),
            self@.dom().len() == self.slots@.len(),
    {
        let ks = slot_keys(self.slots@);
        assert(ks.no_duplicates()) by {
            assert forall|i: int, j: int| 0 <= i < ks.len() && 0 <= j < ks.len() && i != j implies ks[i]
                != ks[j] by {
                lemma_lex_irreflexive(ks[i]);
                if i < j {
                    assert(lex_lt(ks[i], ks[j]));
                } else {
                    assert(lex_lt(ks[j], ks[i]));
                }
            }
        }
        ks.unique_seq_to_set();
        assert(self@.dom() =~= ks.to_set());
    }

    /// An empty registry.
    pub fn new() -> (r: Self)
        ensures
            r.wf(),
            r@ == Map::<Seq<char>, ContextEntry>::empty(),
            r.seq_spec() == 0,
    {
        let r = ContextRegistry { slots: Vec::new(), next_seq: 0 };
        assert(r@ =~= Map::<Seq<char>, ContextEntry>::empty());
        r
    }

    /// Hands out the next id, `ctx-<n>` for the next sequence number `n`.
    pub fn allocate_id(&mut self) -> (r: ContextId)
        requires
            old(self).seq_spec() < u64::MAX,
        ensures
            final(self).seq_spec() == old(self).seq_spec() + 1,
            r.0@ == "ctx-"@ + decimal(final(self).seq_spec() as nat),
            final(self)@ == old(self)@,
            final(self).wf() == old(self).wf(),
            id_handed_out(old(self).seq_spec(), final(self).seq_spec(), Some(r)),
    {
        self.next_seq = self.next_seq + 1;
        let n = u64_to_string(self.next_seq);
        ContextId(concat2("ctx-", n.as_str()))
    }

    /// Position of `id`, if it is filed.
    fn find(&self, id: &ContextId) -> (r: Option<usize>)
        ensures
            match r {
                Some(i) => i < self.slots@.len() && self.slots@[i as int].key.0@ == id.0@,
                None => forall|i: int| 0 <= i < self.slots@.len() ==> self.slots@[i].key.0@ != id.0@,
            },
    {
        let mut i: usize = 0;
        while i < self.slots.len()
            invariant
                i <= self.slots@.len(),
                forall|j: int| 0 <= j < i ==> self.slots@[j].key.0@ != id.0@,
            decreases self.slots@.len() - i,
        {
            if str_eq(self.slots[i].key.0.as_str(), id.0.as_str()) {
                return Some(i);
            }
            i = i + 1;
        }
        None
    }

    /// Files `entry` under its id, replacing an entry already filed there.
    pub fn insert(&mut self, entry: ContextEntry)
        requires
            old(self).wf(),
        ensures
            final(self).wf(),
            final(self)@ == old(self)@.insert(entry.id.0@, entry),
            final(self)@.dom().len() == old(self)@.dom().len() + (if old(self)@.dom().contains(
                entry.id.0@,
            ) {
                0int
            } else {
                1int
            }),
            final(self).seq_spec() == old(self).seq_spec(),
    {
        proof {
            old(self).lemma_len();
        }
        let ghost s = self.slots@;
        let ghost ks = slot_keys(s);
        let ghost k = entry.id.0@;
        let key = copy_id(&entry.id);
        let mut p: usize = 0;
        while p < self.slots.len() && str_lt(self.slots[p].key.0.as_str(), key.0.as_str())
            invariant
                self.slots@ == s,
                ks == slot_keys(s),
                key.0@ == k,
                p <= s.len(),
                forall|j: int| 0 <= j < p ==> lex_lt(#[trigger] ks[j], k),
            decreases s.len() - p,
        {
            assert(ks[p as int] == s[p as int].key.0@);
            p = p + 1;
        }
        let exists_here = p < self.slots.len() && str_eq(self.slots[p].key.0.as_str(), key.0.as_str());
        let slot = Slot { key, entry };
        if exists_here {
            proof {
                assert(ks[p as int] == s[p as int].key.0@);
                lemma_update_slot(s, p as int, slot);
            }
            self.slots.set(p, slot);
        } else {
            proof {
                if p < s.len() {
                    assert(ks[p as int] == s[p as int].key.0@);
                    lemma_lex_total(ks[p as int], k);
                }
            }
            self.slots.insert(p, slot);
            proof {
                let t = self.slots@;
                let kt = slot_keys(t);
                assert(kt =~= ks.insert(p as int, k));
                assert forall|i: int, j: int| 0 <= i < j < kt.len() implies lex_lt(
                    #[trigger] kt[i],
                    #[trigger] kt[j],
                ) by {
                    if j < p {
                    } else if j == p {
                    } else if i == p {
                        if j - 1 > p {
                            lemma_lex_transitive(k, ks[p as int], ks[j - 1]);
                        }
                    } else if i < p {
                        if j - 1 >= p {
                            assert(lex_lt(ks[i], k));
                            assert(lex_lt(k, ks[p as int]));
                            lemma_lex_transitive(ks[i], k, ks[p as int]);
                            if j - 1 > p {
                                lemma_lex_transitive(ks[i], ks[p as int], ks[j - 1]);
                            }
                        }
                    } else {
                        assert(lex_lt(ks[i - 1], ks[j - 1]));
                    }
                }
                assert forall|i: int| 0 <= i < t.len() implies (#[trigger] t[i]).entry.id.0@ == t[i].key.0@ by {
                    if i < p {
                        assert(t[i] == s[i]);
                    } else if i > p {
                        assert(t[i] == s[i - 1]);
                    }
                }
                assert(slots_wf(t));
                assert(t[p as int] == slot);
                assert forall|q: Seq<char>| #![auto] slots_view(t).dom().contains(q) <==> slots_view(
                    s,
                ).insert(k, slot.entry).dom().contains(q) by {
                    lemma_dom(t, q);
                    lemma_dom(s, q);
                    if q == k {
                        assert(t[p as int].key.0@ == q);
                    }
                    if exists|i: int| 0 <= i < s.len() && s[i].key.0@ == q {
                        let i = choose|i: int| 0 <= i < s.len() && s[i].key.0@ == q;
                        if i < p {
                            assert(t[i] == s[i]);
                        } else {
                            assert(t[i + 1] == s[i]);
                        }
                    }
                    if exists|i: int| 0 <= i < t.len() && t[i].key.0@ == q {
                        let i = choose|i: int| 0 <= i < t.len() && t[i].key.0@ == q;
                        if i < p {
                            assert(t[i] == s[i]);
                        } else if i > p {
                            assert(t[i] == s[i - 1]);
                        }
                    }
                }
                assert forall|q: Seq<char>| slots_view(t).dom().contains(q) implies slots_view(t)[q]
                    == slots_view(s).insert(k, slot.entry)[q] by {
                    lemma_dom(t, q);
                    let i = choose|i: int| 0 <= i < t.len() && t[i].key.0@ == q;
                    lemma_lookup(t, i);
                    lemma_lex_irreflexive(k);
                    if i < p {
                        assert(t[i] == s[i]);
                        lemma_lookup(s, i);
                        assert(lex_lt(ks[i], k));
                    } else if i > p {
                        assert(t[i] == s[i - 1]);
                        lemma_lookup(s, i - 1);
                        assert(lex_lt(k, ks[p as int]));
                        if i - 1 > p {
                            assert(lex_lt(ks[p as int], ks[i - 1]));
                            lemma_lex_transitive(k, ks[p as int], ks[i - 1]);
                        }
                    }
                }
                assert(slots_view(t) =~= slots_view(s).insert(k, slot.entry));
            }
        }
    }

    /// The entry filed under `id`.
    pub fn get(&self, id: &ContextId) -> (r: Option<&ContextEntry>)
        requires
            self.wf(),
        ensures
            r is Some <==> self@.dom().contains(id.0@),
            r matches Some(e) ==> *e == self@[id.0@],
    {
        proof {
            lemma_dom(self.slots@, id.0@);
        }
        match self.find(id) {
            Some(i) => {
                proof {
                    lemma_lookup(self.slots@, i as int);
                }
                Some(&self.slots[i].entry)
            },
            None => None,
        }
    }

    /// The entry filed under `id`, for changing it in place.
    pub fn get_mut(&mut self, id: &ContextId) -> (r: Option<&mut ContextEntry>)
        requires
            old(self).wf(),
        ensures
            r is Some <==> old(self)@.dom().contains(id.0@),
            r is Some ==> *r.unwrap() == old(self)@[id.0@],
            r is Some ==> final(self)@ == old(self)@.insert(id.0@, *final(r.unwrap())),
            r is Some ==> (final(r.unwrap()).id.0@ == id.0@ ==> final(self).wf()),
            r is None ==> *final(self) == *old(self),
            final(self).seq_spec() == old(self).seq_spec(),
    {
        proof {
            lemma_dom(self.slots@, id.0@);
        }
        match self.find(id) {
            Some(i) => {
                proof {
                    lemma_lookup(self.slots@, i as int);
                    let s = self.slots@;
                    assert forall|x: Slot| x.key.0@ == s[i as int].key.0@ implies slots_view(
                        #[trigger] s.update(i as int, x),
                    ) == slots_view(s).insert(x.key.0@, x.entry) && (x.entry.id.0@ == x.key.0@
                        ==> slots_wf(s.update(i as int, x))) by {
                        lemma_update_slot(s, i as int, x);
                    }
                }
                let slot = &mut self.slots[i];
                Some(&mut slot.entry)
            },
            None => None,
        }
    }

    /// Removes and returns the entry filed under `id`.
    pub fn remove(&mut self, id: &ContextId) -> (r: Option<ContextEntry>)
        requires
            old(self).wf(),
        ensures
            final(self).wf(),
            r is Some <==> old(self)@.dom().contains(id.0@),
            r matches Some(e) ==> e == old(self)@[id.0@],
            final(self)@ == old(self)@.remove(id.0@),
            final(self)@.dom().len() == old(self)@.dom().len() - (if r is Some {
                1int
            } else {
                0int
            }),
            final(self).seq_spec() == old(self).seq_spec(),
    {
        proof {
            old(self).lemma_len();
        }
        let ghost s = self.slots@;
        let ghost k = id.0@;
        proof {
            lemma_dom(s, k);
        }
        match self.find(id) {
            Some(p) => {
                proof {
                    lemma_lookup(s, p as int);
                }
                let slot = self.slots.remove(p);
                proof {
                    let t = self.slots@;
                    let ks = slot_keys(s);
                    assert(slot_keys(t) =~= ks.remove(p as int));
                    assert forall|i: int| 0 <= i < t.len() implies (#[trigger] t[i]).entry.id.0@
                        == t[i].key.0@ by {
                        if i < p {
                            assert(t[i] == s[i]);
                        } else {
                            assert(t[i] == s[i + 1]);
                        }
                    }
                    assert(slots_wf(t));
                    assert forall|q: Seq<char>| #![auto] slots_view(t).dom().contains(q)
                        <==> slots_view(s).remove(k).dom().contains(q) by {
                        lemma_dom(t, q);
                        lemma_dom(s, q);
                        if exists|i: int| 0 <= i < s.len() && s[i].key.0@ == q {
                            let i = choose|i: int| 0 <= i < s.len() && s[i].key.0@ == q;
                            if q != k {
                                if i < p {
                                    assert(t[i] == s[i]);
                                } else if i > p {
                                    assert(t[i - 1] == s[i]);
                                }
                            }
                        }
                        if exists|i: int| 0 <= i < t.len() && t[i].key.0@ == q {
                            let i = choose|i: int| 0 <= i < t.len() && t[i].key.0@ == q;
                            let j = if i < p {
                                i
                            } else {
                                i + 1
                            };
                            assert(t[i] == s[j]);
                            if q == k {
                                lemma_lex_irreflexive(k);
                                if j < p {
                                    assert(lex_lt(ks[j], ks[p as int]));
                                } else {
                                    assert(lex_lt(ks[p as int], ks[j]));
                                }
                            }
                        }
                    }
                    assert forall|q: Seq<char>| slots_view(t).dom().contains(q) implies slots_view(
                        t,
                    )[q] == slots_view(s).remove(k)[q] by {
                        lemma_dom(t, q);
                        let i = choose|i: int| 0 <= i < t.len() && t[i].key.0@ == q;
                        lemma_lookup(t, i);
                        if i < p {
                            assert(t[i] == s[i]);
                            lemma_lookup(s, i);
                        } else {
                            assert(t[i] == s[i + 1]);
                            lemma_lookup(s, i + 1);
                        }
                    }
                    assert(slots_view(t) =~= slots_view(s).remove(k));
                }
                Some(slot.entry)
            },
            None => {
                proof {
                    assert(slots_view(s).remove(k) =~= slots_view(s));
                }
                None
            },
        }
    }

    /// Number of contexts.
    pub fn len(&self) -> (r: usize)
        requires
            self.wf(),
        ensures
            r == self@.dom().len(),
    {
        proof {
            self.lemma_len();
        }
        self.slots.len()
    }

    /// Whether there is no context.
    pub fn is_empty(&self) -> (r: bool)
        requires
            self.wf(),
        ensures
            r == (self@.dom().len() == 0),
    {
        proof {
            self.lemma_len();
        }
        self.slots.len() == 0
    }

    /// What `list` reports: one item per context, in increasing id order.
    pub fn snapshot(&self) -> (r: Vec<ContextInfo>)
        requires
            self.wf(),
        ensures
            r@.len() == self@.dom().len(),
            forall|i: int, j: int| 0 <= i < j < r@.len() ==> lex_lt(#[trigger] r@[i].id.0@, #[trigger] r@[j].id.0@),
            forall|i: int| 0 <= i < r@.len() ==> self@.dom().contains((#[trigger] r@[i]).id.0@) && r@[i]
                == info_of(self@[r@[i].id.0@]),
            forall|k: Seq<char>| #[trigger] self@.dom().contains(k) ==> exists|i: int| 0 <= i < r@.len() && r@[i].id.0@ == k,
    {
        proof {
            self.lemma_len();
        }
        let ghost s = self.slots@;
        let mut out: Vec<ContextInfo> = Vec::new();
        let mut i: usize = 0;
        while i < self.slots.len()
            invariant
                s == self.slots@,
                slots_wf(s),
                i <= s.len(),
                out@.len() == i,
                forall|j: int| 0 <= j < i ==> (#[trigger] out@[j]) == info_of(s[j].entry),
            decreases s.len() - i,
        {
            let e = &self.slots[i].entry;
            out.push(ContextInfo { id: copy_id(&e.id), name: e.name.clone(), status: e.status });
            i = i + 1;
        }
        proof {
            let ks = slot_keys(s);
            assert forall|j: int| 0 <= j < out@.len() implies out@[j].id.0@ == ks[j] by {
                assert(s[j].entry.id.0@ == s[j].key.0@);
            }
            assert forall|a: int, b: int| 0 <= a < b < out@.len() implies lex_lt(
                #[trigger] out@[a].id.0@,
                #[trigger] out@[b].id.0@,
            ) by {
                assert(lex_lt(ks[a], ks[b]));
            }
            assert forall|j: int| 0 <= j < out@.len() implies self@.dom().contains(
                (#[trigger] out@[j]).id.0@,
            ) && out@[j] == info_of(self@[out@[j].id.0@]) by {
                assert(s[j].entry.id.0@ == s[j].key.0@);
                lemma_lookup(s, j);
            }
            assert forall|k: Seq<char>| #[trigger] self@.dom().contains(k) implies exists|j: int|
                0 <= j < out@.len() && out@[j].id.0@ == k by {
                lemma_dom(s, k);
                let j = choose|j: int| 0 <= j < s.len() && s[j].key.0@ == k;
                assert(s[j].entry.id.0@ == s[j].key.0@);
                assert(out@[j].id.0@ == k);
            }
        }
        out
    }
}


/// The views of a context's writes.
pub open spec fn log_of(e: ContextEntry) -> Seq<Seq<char>> {
    string_views(e.write_log@)
}

/// What `capture` reads: the last `lines` writes joined by newlines.
pub open spec fn capture_spec(log: Seq<Seq<char>>, lines: nat) -> Seq<char> {
    let start: int = if log.len() > lines {
        log.len() - lines
    } else {
        0
    };
    join_with(log.skip(start), "\n"@)
}

/// The message of an unknown context.
pub open spec fn not_found_message(id: Seq<char>) -> Seq<char> {
    "context not found: "@ + id
}

/// The error answered for an unknown context.
fn not_found(id: &ContextId) -> (r: RpcError)
    ensures
        r.code == CONTEXT_NOT_FOUND,
        r.message@ == not_found_message(id.0@),
{
    RpcError::new(CONTEXT_NOT_FOUND, concat2("context not found: ", id.0.as_str()))
}

/// The minimal backend: its own context id, the registry, and the
/// notifications not yet handed to the transport.
pub struct MinimalHandler {
    self_id: ContextId,
    registry: ContextRegistry,
    pending_notifications: Vec<Notification>,
}

/// A notification announcing that `id` exited with `code`.
pub open spec fn exited_note(n: Notification, id: Seq<char>, code: i32) -> bool {
    &&& n.jsonrpc@ == "2.0"@
    &&& n.method@ == "context_exited"@
    &&& n.params.context_id.0@ == id
    &&& n.params.exit_code == code
}

impl MinimalHandler {
    /// The handler's own context id.
    pub closed spec fn self_id_spec(&self) -> ContextId {
        self.self_id
    }

    /// The registry of contexts.
    pub closed spec fn registry_spec(&self) -> ContextRegistry {
        self.registry
    }

    /// Notifications waiting to be sent.
    pub closed spec fn pending_spec(&self) -> Seq<Notification> {
        self.pending_notifications@
    }

    /// The registry is well formed.
    pub open spec fn wf(&self) -> bool {
        self.registry_spec().wf()
    }

    /// A handler whose own context is `ctx-self`.
    pub fn new() -> (r: Self)
        ensures
            r.wf(),
            r.self_id_spec().0@ == "ctx-self"@,
            r.registry_spec()@ == Map::<Seq<char>, ContextEntry>::empty(),
            r.registry_spec().seq_spec() == 0,
            r.pending_spec().len() == 0,
    {
        Self::with_self_id(ContextId::new("ctx-self"))
    }

    /// A handler whose own context is `self_id`, with no context.
    pub fn with_self_id(self_id: ContextId) -> (r: Self)
        ensures
            r.wf(),
            r.self_id_spec() == self_id,
            r.registry_spec()@ == Map::<Seq<char>, ContextEntry>::empty(),
            r.registry_spec().seq_spec() == 0,
            r.pending_spec().len() == 0,
    {
        MinimalHandler { self_id, registry: ContextRegistry::new(), pending_notifications: Vec::new() }
    }

    /// The registry of contexts.
    pub fn registry(&self) -> (r: &ContextRegistry)
        ensures
            *r == self.registry_spec(),
    {
        &self.registry
    }

    /// Hands out the buffered notifications, oldest first, and empties the
    /// buffer.
    pub fn drain_notifications(&mut self) -> (r: Vec<Notification>)
        ensures
            r@ == old(self).pending_spec(),
            final(self).pending_spec().len() == 0,
            final(self).registry_spec() == old(self).registry_spec(),
            final(self).self_id_spec() == old(self).self_id_spec(),
    {
        let mut out: Vec<Notification> = Vec::new();
        std::mem::swap(&mut out, &mut self.pending_notifications);
        out
    }

    /// Marks context `id` exited (it stays registered until killed) and
    /// queues its `context_exited` notification; an unknown context is an
    /// error and changes nothing.
    pub fn simulate_exit(&mut self, id: &ContextId, exit_code: i32) -> (r: Result<(), RpcError>)
        requires
            old(self).wf(),
        ensures
            final(self).wf(),
            final(self).self_id_spec() == old(self).self_id_spec(),
            final(self).registry_spec().seq_spec() == old(self).registry_spec().seq_spec(),
            r is Ok <==> old(self).registry_spec()@.dom().contains(id.0@),
            r matches Err(e) ==> e.code == CONTEXT_NOT_FOUND && e.message@ == not_found_message(id.0@)
                && *final(self) == *old(self),
            r is Ok ==> ({
                let old_e = old(self).registry_spec()@[id.0@];
                &&& final(self).registry_spec()@ == old(self).registry_spec()@.insert(
                    id.0@,
                    ContextEntry { status: ContextStatus::Exited, ..old_e },
                )
                &&& final(self).pending_spec().len() == old(self).pending_spec().len() + 1
                &&& final(self).pending_spec().drop_last() == old(self).pending_spec()
                &&& exited_note(final(self).pending_spec().last(), id.0@, exit_code)
            }),
    {
        proof {
            if self.registry@.dom().contains(id.0@) {
                self.registry.lemma_ids_match(id.0@);
            }
        }
        match self.registry.get_mut(id) {
            Some(entry) => {
                entry.status = ContextStatus::Exited;
            },
            None => {
                return Err(not_found(id));
            },
        }
        let n = Notification::context_exited(ContextExitedParams { context_id: copy_id(id), exit_code });
        self.pending_notifications.push(n);
        proof {
            assert(self.pending_notifications@.drop_last() =~= old(self).pending_notifications@);
        }
        Ok(())
    }

    /// `initialize`: answers the handler's own context id.
    pub fn handle_initialize(&mut self, params: InitParams) -> (r: Result<InitResult, RpcError>)
        ensures
            r matches Ok(res) && res.self_context_id == old(self).self_id_spec(),
            *final(self) == *old(self),
    {
        Ok(InitResult { self_context_id: copy_id(&self.self_id) })
    }

    /// `spawn_agent`: registers a running context under the next id
    /// (`ctx-<n>`), named `params.name` or else `agent-<id>`; an empty
    /// `argv` is invalid and changes nothing.
    pub fn handle_spawn_agent(&mut self, params: SpawnAgentParams) -> (r: Result<
        SpawnAgentResult,
        RpcError,
    >)
        requires
            old(self).wf(),
            old(self).registry_spec().seq_spec() < u64::MAX,
        ensures
            final(self).wf(),
            final(self).self_id_spec() == old(self).self_id_spec(),
            final(self).pending_spec() == old(self).pending_spec(),
            r is Err <==> params.argv@.len() == 0,
            id_handed_out(
                old(self).registry_spec().seq_spec(),
                final(self).registry_spec().seq_spec(),
                spawn_out(r),
            ),
            r matches Err(e) ==> e.code == RpcError::INVALID_PARAMS && e.message@
                == "argv must not be empty"@ && *final(self) == *old(self),
            r matches Ok(res) ==> ({
                let n = old(self).registry_spec().seq_spec() + 1;
                let id = res.context_id;
                &&& final(self).registry_spec().seq_spec() == n
                &&& id.0@ == "ctx-"@ + decimal(n as nat)
                &&& final(self).registry_spec()@ == old(self).registry_spec()@.insert(
                    id.0@,
                    final(self).registry_spec()@[id.0@],
                )
                &&& final(self).registry_spec()@[id.0@].id == id
                &&& final(self).registry_spec()@[id.0@].name@ == (match params.name {
                    Some(nm) => nm@,
                    None => "agent-"@ + id.0@,
                })
                &&& final(self).registry_spec()@[id.0@].status == ContextStatus::Running
                &&& final(self).registry_spec()@[id.0@].argv == params.argv
                &&& log_of(final(self).registry_spec()@[id.0@]).len() == 0
            }),
    {
        if params.argv.len() == 0 {
            return Err(RpcError::new(RpcError::INVALID_PARAMS, owned("argv must not be empty")));
        }
        let id = self.registry.allocate_id();
        let name = match params.name {
            Some(nm) => nm,
            None => concat2("agent-", id.0.as_str()),
        };
        let entry = ContextEntry {
            id: copy_id(&id),
            name,
            status: ContextStatus::Running,
            argv: params.argv,
            write_log: Vec::new(),
        };
        proof {
            assert(log_of(entry).len() == 0);
        }
        self.registry.insert(entry);
        Ok(SpawnAgentResult { context_id: id })
    }

    /// `write`: appends `params.data` to the context's writes; an unknown
    /// context is an error and changes nothing.
    pub fn handle_write(&mut self, params: WriteParams) -> (r: Result<(), RpcError>)
        requires
            old(self).wf(),
        ensures
            final(self).wf(),
            final(self).self_id_spec() == old(self).self_id_spec(),
            final(self).pending_spec() == old(self).pending_spec(),
            final(self).registry_spec().seq_spec() == old(self).registry_spec().seq_spec(),
            r is Ok <==> old(self).registry_spec()@.dom().contains(params.context_id.0@),
            r matches Err(e) ==> e.code == CONTEXT_NOT_FOUND && e.message@ == not_found_message(
                params.context_id.0@,
            ) && *final(self) == *old(self),
            r is Ok ==> ({
                let k = params.context_id.0@;
                let old_e = old(self).registry_spec()@[k];
                let new_e = final(self).registry_spec()@[k];
                &&& final(self).registry_spec()@ == old(self).registry_spec()@.insert(k, new_e)
                &&& log_of(new_e) == log_of(old_e).push(params.data@)
                &&& new_e.id == old_e.id && new_e.name == old_e.name && new_e.status == old_e.status
                    && new_e.argv == old_e.argv
            }),
    {
        let k = copy_id(&params.context_id);
        proof {
            if self.registry@.dom().contains(k.0@) {
                self.registry.lemma_ids_match(k.0@);
            }
        }
        match self.registry.get_mut(&k) {
            Some(entry) => {
                let ghost before = log_of(*entry);
                entry.write_log.push(params.data);
                proof {
                    assert(log_of(*entry) =~= before.push(params.data@));
                }
            },
            None => {
                return Err(not_found(&k));
            },
        }
        Ok(())
    }

    /// `capture`: the last `params.lines` writes of the context, joined by
    /// newlines; an unknown context is an error.
    pub fn handle_capture(&mut self, params: CaptureParams) -> (r: Result<CaptureResult, RpcError>)
        requires
            old(self).wf(),
        ensures
            *final(self) == *old(self),
            r is Ok <==> old(self).registry_spec()@.dom().contains(params.context_id.0@),
            r matches Err(e) ==> e.code == CONTEXT_NOT_FOUND && e.message@ == not_found_message(
                params.context_id.0@,
            ),
            r matches Ok(c) ==> c.data@ == capture_spec(
                log_of(old(self).registry_spec()@[params.context_id.0@]),
                params.lines as nat,
            ),
    {
        match self.registry.get(&params.context_id) {
            Some(entry) => {
                let lines = params.lines as usize;
                let total = entry.write_log.len();
                let start = total.saturating_sub(lines);
                let data = join_from(entry.write_log.as_slice(), start, "\n");
                Ok(CaptureResult { data })
            },
            None => Err(not_found(&params.context_id)),
        }
    }

    /// `kill`: removes the context; an unknown context is an error.
    pub fn handle_kill(&mut self, params: KillParams) -> (r: Result<(), RpcError>)
        requires
            old(self).wf(),
        ensures
            final(self).wf(),
            final(self).self_id_spec() == old(self).self_id_spec(),
            final(self).pending_spec() == old(self).pending_spec(),
            final(self).registry_spec().seq_spec() == old(self).registry_spec().seq_spec(),
            r is Ok <==> old(self).registry_spec()@.dom().contains(params.context_id.0@),
            r matches Err(e) ==> e.code == CONTEXT_NOT_FOUND && e.message@ == not_found_message(
                params.context_id.0@,
            ),
            final(self).registry_spec()@ == old(self).registry_spec()@.remove(params.context_id.0@),
    {
        match self.registry.remove(&params.context_id) {
            Some(_) => Ok(()),
            None => Err(not_found(&params.context_id)),
        }
    }

    /// `list`: every context, in increasing id order.
    pub fn handle_list(&mut self, params: ListParams) -> (r: Result<ListResult, RpcError>)
        requires
            old(self).wf(),
        ensures
            *final(self) == *old(self),
            r matches Ok(l) && ({
                let m = old(self).registry_spec()@;
                let c = l.contexts@;
                &&& c.len() == m.dom().len()
                &&& forall|i: int, j: int| 0 <= i < j < c.len() ==> lex_lt(#[trigger] c[i].id.0@, #[trigger] c[j].id.0@)
                &&& forall|i: int| 0 <= i < c.len() ==> m.dom().contains((#[trigger] c[i]).id.0@) && c[i]
                    == info_of(m[c[i].id.0@])
                &&& forall|k: Seq<char>| #[trigger] m.dom().contains(k) ==> exists|i: int| 0 <= i < c.len() && c[i].id.0@ == k
            }),
    {
        Ok(ListResult { contexts: self.registry.snapshot() })
    }
}

impl Default for MinimalHandler {
    fn default() -> (r: Self)
        ensures
            r.wf(),
            r.self_id_spec().0@ == "ctx-self"@,
            r.registry_spec()@ == Map::<Seq<char>, ContextEntry>::empty(),
            r.pending_spec().len() == 0,
    {
        Self::new()
    }
}


/// Capturing right after a write ends with that write: the last line is the
/// write itself, preceded, when more lines are asked for and there are
/// earlier writes, by what capturing one line fewer gave before the write.
pub proof fn law_capture_after_write(log: Seq<Seq<char>>, w: Seq<char>, lines: nat)
    requires
        lines >= 1,
    ensures
        capture_spec(log.push(w), lines) == if lines == 1 || log.len() == 0 {
            w
        } else {
            capture_spec(log, (lines - 1) as nat) + "\n"@ + w
        },
{
    let n = log.len();
    let start: int = if n + 1 > lines {
        n + 1 - lines
    } else {
        0
    };
    let x = log.skip(start);
    assert(log.push(w).skip(start) =~= x.push(w));
    assert(x.push(w).drop_last() =~= x);
    if lines == 1 {
        assert(x.len() == 0);
    } else if n == 0 {
        assert(x.len() == 0);
    } else {
        let start2: int = if n > lines - 1 {
            n - (lines - 1)
        } else {
            0
        };
        assert(start2 == start);
        assert(x.len() > 0);
    }
}

/// A context that was killed is not listed: no item of a listing of the
/// registry after removing `k` carries `k`.
pub proof fn law_killed_not_listed(m: Map<Seq<char>, ContextEntry>, k: Seq<char>, listed: Seq<ContextInfo>)
    requires
        forall|i: int| 0 <= i < listed.len() ==> m.remove(k).dom().contains((#[trigger] listed[i]).id.0@),
    ensures
        forall|i: int| 0 <= i < listed.len() ==> (#[trigger] listed[i]).id.0@ != k,
{
}

/// The decimal writing of a number has at least one digit.
pub proof fn lemma_decimal_nonempty(n: nat)
    ensures
        decimal(n).len() >= 1,
    decreases n,
{
    if n >= 10 {
        lemma_decimal_nonempty(n / 10);
    }
}

/// Different numbers are written differently.
pub proof fn lemma_decimal_injective(a: nat, b: nat)
    requires
        decimal(a) == decimal(b),
    ensures
        a == b,
    decreases a,
{
    if a < 10 && b < 10 {
        let (ca, cb) = (decimal(a)[0], decimal(b)[0]);
        assert(ca == cb);
        assert(ca as u32 == ('0' as u32) + a);
        assert(cb as u32 == ('0' as u32) + b);
    } else if a < 10 {
        lemma_decimal_nonempty(b / 10);
        assert(decimal(b).len() >= 2);
    } else if b < 10 {
        lemma_decimal_nonempty(a / 10);
        assert(decimal(a).len() >= 2);
    } else {
        let (ca, cb) = (decimal(a).last(), decimal(b).last());
        assert(ca == cb);
        assert(ca as u32 == ('0' as u32) + a % 10);
        assert(cb as u32 == ('0' as u32) + b % 10);
        assert(decimal(a).drop_last() =~= decimal(a / 10));
        assert(decimal(b).drop_last() =~= decimal(b / 10));
        lemma_decimal_injective(a / 10, b / 10);
    }
}

/// Context ids handed out for different sequence numbers differ, so every
/// spawned context gets an id of its own.
pub proof fn law_allocated_ids_distinct(n1: u64, n2: u64)
    requires
        n1 != n2,
    ensures
        "ctx-"@ + decimal(n1 as nat) != "ctx-"@ + decimal(n2 as nat),
{
    reveal_strlit("ctx-");
    let (a, b) = ("ctx-"@ + decimal(n1 as nat), "ctx-"@ + decimal(n2 as nat));
    if a == b {
        assert(a.skip(4) =~= decimal(n1 as nat));
        assert(b.skip(4) =~= decimal(n2 as nat));
        lemma_decimal_injective(n1 as nat, n2 as nat);
    }
}

/// One call, as an id counter sees it: a call that hands out an id raises
/// the counter by one, every other call keeps it.
pub open spec fn counter_step(before: u64, after: u64, hands_out: bool) -> bool {
    after == before + if hands_out {
        1int
    } else {
        0int
    }
}

/// How many of the first `i` calls handed out an id.
pub open spec fn handed_out_before(hands_out: Seq<bool>, i: int) -> nat
    decreases i,
{
    if i <= 0 {
        0
    } else {
        handed_out_before(hands_out, i - 1) + if hands_out[i - 1] {
            1nat
        } else {
            0nat
        }
    }
}

proof fn lemma_counter_run(counters: Seq<u64>, hands_out: Seq<bool>, i: int)
    requires
        counters.len() == hands_out.len() + 1,
        counters[0] == 0,
        forall|k: int| 0 <= k < hands_out.len() ==> counter_step(#[trigger] counters[k], counters[k + 1], hands_out[k]),
        0 <= i < counters.len(),
    ensures
        counters[i] == handed_out_before(hands_out, i),
    decreases i,
{
    if i > 0 {
        lemma_counter_run(counters, hands_out, i - 1);
        assert(counter_step(counters[i - 1], counters[i], hands_out[i - 1]));
    }
}

proof fn lemma_handed_out_grows(hands_out: Seq<bool>, i: int, j: int)
    requires
        0 <= i < j <= hands_out.len(),
        hands_out[i],
    ensures
        handed_out_before(hands_out, j) >= handed_out_before(hands_out, i) + 1,
    decreases j - i,
{
    if j > i + 1 {
        lemma_handed_out_grows(hands_out, i, j - 1);
    }
}

/// Ids count up. Take a run of calls on a registry made by
/// `ContextRegistry::new()` (or a handler made by `MinimalHandler::new()`),
/// whose counter starts at 0: `allocate_id` (a successful
/// `handle_spawn_agent`) raises it by one and every other operation keeps
/// it, as their contracts state. With `counters[i]` the counter before call
/// `i` and `hands_out[i]` whether call `i` handed out an id, the counter
/// before call `i` is the number of ids handed out before it, so that call
/// gets `ctx-<k + 1>` after `k` earlier ids, and two calls never get the
/// same id.
pub proof fn law_ids_count_up(counters: Seq<u64>, hands_out: Seq<bool>, i: int, j: int)
    requires
        counters.len() == hands_out.len() + 1,
        counters[0] == 0,
        forall|k: int| 0 <= k < hands_out.len() ==> counter_step(#[trigger] counters[k], counters[k + 1], hands_out[k]),
        0 <= i < j < hands_out.len(),
        hands_out[i],
        hands_out[j],
    ensures
        counters[i] == handed_out_before(hands_out, i),
        counters[j] == handed_out_before(hands_out, j),
        "ctx-"@ + decimal((counters[i] + 1) as nat) != "ctx-"@ + decimal((counters[j] + 1) as nat),
{
    lemma_counter_run(counters, hands_out, i);
    lemma_counter_run(counters, hands_out, j);
    lemma_handed_out_grows(hands_out, i, j);
    reveal_strlit("ctx-");
    let (a, b) = ("ctx-"@ + decimal((counters[i] + 1) as nat), "ctx-"@ + decimal((counters[j] + 1) as nat));
    if a == b {
        assert(a.skip(4) =~= decimal((counters[i] + 1) as nat));
        assert(b.skip(4) =~= decimal((counters[j] + 1) as nat));
        lemma_decimal_injective((counters[i] + 1) as nat, (counters[j] + 1) as nat);
    }
}

/// One call on something that hands out context ids, as its counter sees
/// it: a call that hands out `id` raises the counter by one and `id` is
/// `ctx-<counter after>`; a call that hands out none keeps the counter.
pub open spec fn id_handed_out(before: u64, after: u64, out: Option<ContextId>) -> bool {
    match out {
        Some(id) => after == before + 1 && id.0@ == "ctx-"@ + decimal(after as nat),
        None => after == before,
    }
}

/// Whether each call handed out an id.
pub open spec fn hands_out_of(outs: Seq<Option<ContextId>>) -> Seq<bool> {
    outs.map_values(|o: Option<ContextId>| o is Some)
}

proof fn lemma_run_counters(counters: Seq<u64>, outs: Seq<Option<ContextId>>, i: int, j: int)
    requires
        counters.len() == outs.len() + 1,
        counters[0] == 0,
        forall|k: int| 0 <= k < outs.len() ==> id_handed_out(#[trigger] counters[k], counters[k + 1], outs[k]),
        0 <= i < j < outs.len(),
        outs[i] is Some,
        outs[j] is Some,
    ensures
        (outs[i]->0).0@ == "ctx-"@ + decimal((handed_out_before(hands_out_of(outs), i) + 1) as nat),
        (outs[j]->0).0@ == "ctx-"@ + decimal((handed_out_before(hands_out_of(outs), j) + 1) as nat),
        (outs[i]->0).0@ != (outs[j]->0).0@,
{
    let h = hands_out_of(outs);
    assert forall|k: int| 0 <= k < h.len() implies counter_step(#[trigger] counters[k], counters[k + 1], h[k]) by {
        assert(id_handed_out(counters[k], counters[k + 1], outs[k]));
    }
    law_ids_count_up(counters, h, i, j);
    assert(id_handed_out(counters[i], counters[i + 1], outs[i]));
    assert(id_handed_out(counters[j], counters[j + 1], outs[j]));
}

/// Allocated ids count up and never repeat. Take registries `regs[0]`,
/// `regs[1]`, … where `regs[0]` is fresh (`ContextRegistry::new()`, counter
/// 0) and each `regs[k + 1]` comes from `regs[k]` by one call:
/// `allocate_id` handing out `outs[k]` (its contract states
/// `id_handed_out`), or `insert`, `remove`, `get_mut` (`outs[k]` is `None`;
/// their contracts keep the counter). Then after `n` earlier allocations
/// the next one hands out `ctx-<n + 1>`, and two allocations hand out
/// different ids.
pub proof fn law_allocate_ids_count_up(regs: Seq<ContextRegistry>, outs: Seq<Option<ContextId>>, i: int, j: int)
    requires
        regs.len() == outs.len() + 1,
        regs[0].seq_spec() == 0,
        forall|k: int| 0 <= k < outs.len() ==> id_handed_out(
            (#[trigger] regs[k]).seq_spec(),
            regs[k + 1].seq_spec(),
            outs[k],
        ),
        0 <= i < j < outs.len(),
        outs[i] is Some,
        outs[j] is Some,
    ensures
        (outs[i]->0).0@ == "ctx-"@ + decimal((handed_out_before(hands_out_of(outs), i) + 1) as nat),
        (outs[j]->0).0@ == "ctx-"@ + decimal((handed_out_before(hands_out_of(outs), j) + 1) as nat),
        (outs[i]->0).0@ != (outs[j]->0).0@,
{
    let counters = regs.map_values(|r: ContextRegistry| r.seq_spec());
    assert forall|k: int| 0 <= k < outs.len() implies id_handed_out(#[trigger] counters[k], counters[k + 1], outs[k]) by {
        assert(id_handed_out(regs[k].seq_spec(), regs[k + 1].seq_spec(), outs[k]));
    }
    lemma_run_counters(counters, outs, i, j);
}

/// What a spawn hands out: the new context's id on success, nothing on an
/// error.
pub open spec fn spawn_out(r: Result<SpawnAgentResult, RpcError>) -> Option<ContextId> {
    match r {
        Ok(res) => Some(res.context_id),
        Err(_) => None,
    }
}

/// Spawned contexts are numbered in order. Take handlers `hs[0]`, `hs[1]`,
/// … where `hs[0]` is fresh (`MinimalHandler::new()`, counter 0) and each
/// `hs[k + 1]` comes from `hs[k]` by one call: `handle_spawn_agent`
/// answering with `outs[k]` as `spawn_out` reads it (its contract states
/// `id_handed_out`: a success raises the counter and names the context
/// `ctx-<counter>`, a rejected spawn keeps it), or any other handler call
/// (`outs[k]` is `None`; their contracts keep the counter). Then after `n`
/// earlier successful spawns the next one gets `ctx-<n + 1>`, and no two
/// spawns get the same id.
pub proof fn law_spawn_ids_count_up(hs: Seq<MinimalHandler>, outs: Seq<Option<ContextId>>, i: int, j: int)
    requires
        hs.len() == outs.len() + 1,
        hs[0].registry_spec().seq_spec() == 0,
        forall|k: int| 0 <= k < outs.len() ==> id_handed_out(
            (#[trigger] hs[k]).registry_spec().seq_spec(),
            hs[k + 1].registry_spec().seq_spec(),
            outs[k],
        ),
        0 <= i < j < outs.len(),
        outs[i] is Some,
        outs[j] is Some,
    ensures
        (outs[i]->0).0@ == "ctx-"@ + decimal((handed_out_before(hands_out_of(outs), i) + 1) as nat),
        (outs[j]->0).0@ == "ctx-"@ + decimal((handed_out_before(hands_out_of(outs), j) + 1) as nat),
        (outs[i]->0).0@ != (outs[j]->0).0@,
{
    let counters = hs.map_values(|h: MinimalHandler| h.registry_spec().seq_spec());
    assert forall|k: int| 0 <= k < outs.len() implies id_handed_out(#[trigger] counters[k], counters[k + 1], outs[k]) by {
        assert(id_handed_out(hs[k].registry_spec().seq_spec(), hs[k + 1].registry_spec().seq_spec(), outs[k]));
    }
    lemma_run_counters(counters, outs, i, j);
}

} // verus!
