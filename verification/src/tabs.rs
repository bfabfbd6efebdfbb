//! Tabs, each holding a split tree, with one active tab and pane ids that
//! are allocated globally across tabs.

use vstd::prelude::*;
use crate::pane_tree::{PaneId, PaneTree};
use vstd::arithmetic::div_mod::{lemma_small_mod, lemma_mod_self_0};

verus! {

/// Identifier of a tab.
#[derive(Debug, Clone, Copy, PartialEq, Eq, Hash, Structural)]
pub struct TabId(pub u32);

/// One tab: its split tree, the pane that has focus, and an optional title.
#[derive(Debug)]
pub struct Tab {
    pub id: TabId,
    pub tree: PaneTree,
    pub focused_pane: PaneId,
    pub title: Option<String>,
}

/// Some tab carries `id`.
pub open spec fn has_id(tabs: Seq<Tab>, id: TabId) -> bool {
    exists|i: int| 0 <= i < tabs.len() && #[trigger] tabs[i].id == id
}

/// `i` is the first position whose tab carries `id`.
pub open spec fn is_first_with(tabs: Seq<Tab>, id: TabId, i: int) -> bool {
    &&& 0 <= i < tabs.len()
    &&& tabs[i].id == id
    &&& forall|j: int| 0 <= j < i ==> #[trigger] tabs[j].id != id
}

/// The first position whose tab carries `id`.
pub open spec fn first_pos(tabs: Seq<Tab>, id: TabId) -> int {
    choose|i: int| is_first_with(tabs, id, i)
}

/// No two tabs carry the same id.
pub open spec fn distinct_ids(tabs: Seq<Tab>) -> bool {
    forall|i: int, j: int| 0 <= i < j < tabs.len() ==> #[trigger] tabs[i].id != #[trigger] tabs[j].id
}

/// The tab after the one carrying `id`, wrapping to the first.
pub open spec fn next_of(tabs: Seq<Tab>, id: TabId) -> TabId {
    tabs[(first_pos(tabs, id) + 1) % (tabs.len() as int)].id
}

/// The tab before the one carrying `id`, wrapping to the last.
pub open spec fn prev_of(tabs: Seq<Tab>, id: TabId) -> TabId {
    let p = first_pos(tabs, id);
    if p == 0 {
        tabs[tabs.len() - 1].id
    } else {
        tabs[p - 1].id
    }
}

/// A tab carrying `id` has a first position, and it is unique.
pub proof fn lemma_first_pos(tabs: Seq<Tab>, id: TabId)
    requires
        has_id(tabs, id),
    ensures
        is_first_with(tabs, id, first_pos(tabs, id)),
        forall|i: int| is_first_with(tabs, id, i) ==> i == first_pos(tabs, id),
{
    let w = choose|i: int| 0 <= i < tabs.len() && #[trigger] tabs[i].id == id;
    lemma_first_below(tabs, id, w);
}

proof fn lemma_first_below(tabs: Seq<Tab>, id: TabId, w: int)
    requires
        0 <= w < tabs.len(),
        tabs[w].id == id,
    ensures
        exists|i: int| is_first_with(tabs, id, i),
    decreases w,
{
    if exists|j: int| 0 <= j < w && #[trigger] tabs[j].id == id {
        let j = choose|j: int| 0 <= j < w && #[trigger] tabs[j].id == id;
        lemma_first_below(tabs, id, j);
    } else {
        assert(is_first_with(tabs, id, w));
    }
}

/// With distinct ids, the tab at `k` is the first carrying its id.
pub proof fn lemma_first_pos_distinct(tabs: Seq<Tab>, k: int)
    requires
        distinct_ids(tabs),
        0 <= k < tabs.len(),
    ensures
        first_pos(tabs, tabs[k].id) == k,
{
    assert(is_first_with(tabs, tabs[k].id, k));
    lemma_first_pos(tabs, tabs[k].id);
}

/// Every tab id is below `next_tab` and every pane of every tab below
/// `next_pane`: the ids handed out from those counters are new.
pub open spec fn ids_below(tabs: Seq<Tab>, next_tab: u32, next_pane: u32) -> bool {
    forall|i: int| 0 <= i < tabs.len() ==> {
        &&& (#[trigger] tabs[i]).id.0 < next_tab
        &&& forall|k: int| 0 <= k < tabs[i].tree.leaves().len() ==> (#[trigger] tabs[i].tree.leaves()[k]).0 < next_pane
    }
}

/// Removing a tab keeps the counters above every id in use.
pub proof fn lemma_ids_below_remove(tabs: Seq<Tab>, p: int, nt: u32, np: u32)
    requires
        ids_below(tabs, nt, np),
        0 <= p < tabs.len(),
    ensures
        ids_below(tabs.remove(p), nt, np),
{
    let r = tabs.remove(p);
    assert forall|i: int| 0 <= i < r.len() implies {
        &&& (#[trigger] r[i]).id.0 < nt
        &&& forall|k: int| 0 <= k < r[i].tree.leaves().len() ==> (#[trigger] r[i].tree.leaves()[k]).0 < np
    } by {
        if i < p {
            assert(r[i] == tabs[i]);
        } else {
            assert(r[i] == tabs[i + 1]);
        }
    }
}

/// Replacing a tab by one whose ids are below the counters keeps them
/// above every id in use.
pub proof fn lemma_ids_below_update(tabs: Seq<Tab>, p: int, t: Tab, nt: u32, np: u32)
    requires
        ids_below(tabs, nt, np),
        ids_below(seq![t], nt, np),
        0 <= p < tabs.len(),
    ensures
        ids_below(tabs.update(p, t), nt, np),
{
    let u = tabs.update(p, t);
    assert forall|i: int| 0 <= i < u.len() implies {
        &&& (#[trigger] u[i]).id.0 < nt
        &&& forall|k: int| 0 <= k < u[i].tree.leaves().len() ==> (#[trigger] u[i].tree.leaves()[k]).0 < np
    } by {
        if i == p {
            assert(u[i] == seq![t][0]);
        } else {
            assert(u[i] == tabs[i]);
        }
    }
}

/// Some tab holds pane `p`.
pub open spec fn holds_pane(tabs: Seq<Tab>, p: PaneId) -> bool {
    exists|i: int| 0 <= i < tabs.len() && (#[trigger] tabs[i]).tree.leaves().contains(p)
}

/// The tabs, the active tab and the next ids to hand out.
#[derive(Debug)]
pub struct TabSet {
    tabs: Vec<Tab>,
    active: TabId,
    next_tab_id: u32,
    next_pane_id: u32,
}

impl TabSet {
    /// The tabs, in order.
    pub closed spec fn tabs_spec(&self) -> Seq<Tab> {
        self.tabs@
    }

    /// The id of the active tab.
    pub closed spec fn active_spec(&self) -> TabId {
        self.active
    }

    /// The id the next tab gets.
    pub closed spec fn next_tab_spec(&self) -> u32 {
        self.next_tab_id
    }

    /// The id the next pane gets.
    pub closed spec fn next_pane_spec(&self) -> u32 {
        self.next_pane_id
    }

    /// There is a tab, and the active id is carried by one.
    pub open spec fn wf(&self) -> bool {
        self.tabs_spec().len() >= 1 && has_id(self.tabs_spec(), self.active_spec())
    }

    /// The counters are above every id in use.
    pub open spec fn ids_fresh(&self) -> bool {
        ids_below(self.tabs_spec(), self.next_tab_spec(), self.next_pane_spec())
    }

    /// Position of the active tab.
    pub open spec fn active_pos(&self) -> int {
        first_pos(self.tabs_spec(), self.active_spec())
    }

    /// One tab (id 0) holding one pane (id 0); the next ids are 1.
    pub fn new() -> (r: (Self, PaneId))
        ensures
            r.0.wf(),
            r.1 == PaneId(0),
            r.0.tabs_spec().len() == 1,
            r.0.tabs_spec()[0].id == TabId(0),
            r.0.tabs_spec()[0].tree.leaves() == seq![PaneId(0)],
            r.0.tabs_spec()[0].focused_pane == PaneId(0),
            r.0.tabs_spec()[0].title is None,
            r.0.active_spec() == TabId(0),
            r.0.next_tab_spec() == 1,
            r.0.next_pane_spec() == 1,
            r.0.ids_fresh(),
    {
        let initial_pane = PaneId(0);
        let initial_tab_id = TabId(0);
        let tab = Tab {
            id: initial_tab_id,
            tree: PaneTree::with_initial_pane(initial_pane),
            focused_pane: initial_pane,
            title: None,
        };
        let mut tabs: Vec<Tab> = Vec::new();
        tabs.push(tab);
        let set = TabSet { tabs, active: initial_tab_id, next_tab_id: 1, next_pane_id: 1 };
        assert(set.tabs_spec()[0].id == initial_tab_id);
        assert(set.tabs_spec()[0].tree.leaves() =~= seq![initial_pane]);
        (set, initial_pane)
    }

    /// Rebuilds a tab set from its parts; `None` when there is no tab or no
    /// tab carries `active`.
    pub fn restore(tabs: Vec<Tab>, active: TabId, next_tab_id: u32, next_pane_id: u32) -> (r:
        Option<TabSet>)
        ensures
            r is Some <==> (tabs@.len() >= 1 && has_id(tabs@, active)),
            r matches Some(s) ==> s.wf() && s.tabs_spec() == tabs@ && s.active_spec() == active
                && s.next_tab_spec() == next_tab_id && s.next_pane_spec() == next_pane_id,
    {
        let mut i: usize = 0;
        while i < tabs.len()
            invariant
                i <= tabs@.len(),
                forall|j: int| 0 <= j < i ==> #[trigger] tabs@[j].id != active,
            decreases tabs@.len() - i,
        {
            if tabs[i].id == active {
                return Some(TabSet { tabs, active, next_tab_id, next_pane_id });
            }
            i = i + 1;
        }
        None
    }

    /// Hands out the next pane id.
    pub fn alloc_pane_id(&mut self) -> (r: PaneId)
        requires
            old(self).next_pane_spec() < u32::MAX,
        ensures
            r == PaneId(old(self).next_pane_spec()),
            final(self).next_pane_spec() == old(self).next_pane_spec() + 1,
            final(self).tabs_spec() == old(self).tabs_spec(),
            final(self).active_spec() == old(self).active_spec(),
            final(self).next_tab_spec() == old(self).next_tab_spec(),
            old(self).ids_fresh() ==> final(self).ids_fresh(),
    {
        let id = PaneId(self.next_pane_id);
        self.next_pane_id = self.next_pane_id + 1;
        id
    }

    /// The tabs, in order.
    pub fn tabs(&self) -> (r: &[Tab])
        ensures
            r@ == self.tabs_spec(),
    {
        self.tabs.as_slice()
    }

    /// Number of tabs.
    pub fn tab_count(&self) -> (r: usize)
        ensures
            r == self.tabs_spec().len(),
    {
        self.tabs.len()
    }

    /// The id of the active tab.
    pub fn active_id(&self) -> (r: TabId)
        ensures
            r == self.active_spec(),
    {
        self.active
    }

    /// The id the next tab will get.
    pub fn next_tab_id(&self) -> (r: u32)
        ensures
            r == self.next_tab_spec(),
    {
        self.next_tab_id
    }

    /// The id the next pane will get.
    pub fn next_pane_id(&self) -> (r: u32)
        ensures
            r == self.next_pane_spec(),
    {
        self.next_pane_id
    }

    /// Position of the active tab.
    pub fn active_index(&self) -> (r: usize)
        requires
            self.wf(),
        ensures
            r == self.active_pos(),
            is_first_with(self.tabs_spec(), self.active_spec(), r as int),
    {
        proof {
            lemma_first_pos(self.tabs@, self.active);
        }
        let mut i: usize = 0;
        while i < self.tabs.len()
            invariant
                self.wf(),
                i <= self.active_pos(),
                is_first_with(self.tabs@, self.active, self.active_pos()),
                forall|j: int| 0 <= j < i ==> #[trigger] self.tabs@[j].id != self.active,
            decreases self.tabs@.len() - i,
        {
            if self.tabs[i].id == self.active {
                proof {
                    lemma_first_pos(self.tabs@, self.active);
                    assert(is_first_with(self.tabs@, self.active, i as int));
                }
                return i;
            }
            i = i + 1;
        }
        0
    }

    /// The active tab.
    pub fn active(&self) -> (r: &Tab)
        requires
            self.wf(),
        ensures
            *r == self.tabs_spec()[self.active_pos()],
    {
        let i = self.active_index();
        &self.tabs[i]
    }

    /// The active tab, for changing it in place.
    pub fn active_mut(&mut self) -> (r: &mut Tab)
        requires
            old(self).wf(),
        ensures
            *r == old(self).tabs_spec()[old(self).active_pos()],
            final(self).tabs_spec() == old(self).tabs_spec().update(
                old(self).active_pos(),
                *final(r),
            ),
            final(self).active_spec() == old(self).active_spec(),
            final(self).next_tab_spec() == old(self).next_tab_spec(),
            final(self).next_pane_spec() == old(self).next_pane_spec(),
    {
        let i = self.active_index();
        &mut self.tabs[i]
    }

    /// Opens a tab with one fresh pane and makes it active; returns the new
    /// tab's id and its pane's id.
    pub fn create_tab(&mut self) -> (r: (TabId, PaneId))
        requires
            old(self).next_tab_spec() < u32::MAX,
            old(self).next_pane_spec() < u32::MAX,
        ensures
            r == (TabId(old(self).next_tab_spec()), PaneId(old(self).next_pane_spec())),
            final(self).tabs_spec().len() == old(self).tabs_spec().len() + 1,
            final(self).tabs_spec().drop_last() == old(self).tabs_spec(),
            final(self).tabs_spec().last().id == r.0,
            final(self).tabs_spec().last().tree.leaves() == seq![r.1],
            final(self).tabs_spec().last().focused_pane == r.1,
            final(self).tabs_spec().last().title is None,
            final(self).active_spec() == r.0,
            final(self).next_tab_spec() == old(self).next_tab_spec() + 1,
            final(self).next_pane_spec() == old(self).next_pane_spec() + 1,
            final(self).wf(),
            // with the counters above every id in use, the new ids are new
            old(self).ids_fresh() ==> {
                &&& final(self).ids_fresh()
                &&& !has_id(old(self).tabs_spec(), r.0)
                &&& !holds_pane(old(self).tabs_spec(), r.1)
                &&& (distinct_ids(old(self).tabs_spec()) ==> distinct_ids(final(self).tabs_spec()))
            },
    {
        let new_tab_id = TabId(self.next_tab_id);
        self.next_tab_id = self.next_tab_id + 1;
        let initial_pane = self.alloc_pane_id();
        let tab = Tab {
            id: new_tab_id,
            tree: PaneTree::with_initial_pane(initial_pane),
            focused_pane: initial_pane,
            title: None,
        };
        self.tabs.push(tab);
        self.active = new_tab_id;
        proof {
            assert(self.tabs@.drop_last() =~= old(self).tabs@);
            assert(self.tabs@[self.tabs@.len() - 1].id == new_tab_id);
            if old(self).ids_fresh() {
                let n = self.tabs@.len() - 1;
                assert forall|i: int| 0 <= i < self.tabs@.len() implies {
                    &&& (#[trigger] self.tabs@[i]).id.0 < self.next_tab_id
                    &&& forall|k: int| 0 <= k < self.tabs@[i].tree.leaves().len()
                        ==> (#[trigger] self.tabs@[i].tree.leaves()[k]).0 < self.next_pane_id
                } by {
                    if i < n {
                        assert(self.tabs@[i] == old(self).tabs@[i]);
                    } else {
                        assert(self.tabs@[i].tree.leaves() =~= seq![initial_pane]);
                    }
                }
                assert(!has_id(old(self).tabs@, new_tab_id)) by {
                    if has_id(old(self).tabs@, new_tab_id) {
                        let j = choose|j: int| 0 <= j < old(self).tabs@.len() && #[trigger] old(self).tabs@[j].id == new_tab_id;
                        assert(old(self).tabs@[j].id.0 < old(self).next_tab_id);
                    }
                }
                assert(!holds_pane(old(self).tabs@, initial_pane)) by {
                    if holds_pane(old(self).tabs@, initial_pane) {
                        let j = choose|j: int| 0 <= j < old(self).tabs@.len() && (#[trigger] old(self).tabs@[j]).tree.leaves().contains(initial_pane);
                        let lv = old(self).tabs@[j].tree.leaves();
                        let k = choose|k: int| 0 <= k < lv.len() && lv[k] == initial_pane;
                        assert(old(self).tabs@[j].tree.leaves()[k].0 < old(self).next_pane_id);
                    }
                }
                if distinct_ids(old(self).tabs@) {
                    assert forall|i: int, j: int| 0 <= i < j < self.tabs@.len() implies #[trigger] self.tabs@[i].id
                        != #[trigger] self.tabs@[j].id by {
                        assert(self.tabs@[i] == old(self).tabs@[i]);
                        if j < n {
                            assert(self.tabs@[j] == old(self).tabs@[j]);
                        } else {
                            assert(old(self).tabs@[i].id.0 < old(self).next_tab_id);
                        }
                    }
                }
            }
        }
        (new_tab_id, initial_pane)
    }

    /// Closes the active tab and returns its panes; the tab now at its
    /// position (or the last tab, when it was last) becomes active. With a
    /// single tab nothing happens and no pane is returned.
    pub fn close_active(&mut self) -> (r: Vec<PaneId>)
        requires
            old(self).wf(),
        ensures
            final(self).wf(),
            final(self).next_tab_spec() == old(self).next_tab_spec(),
            final(self).next_pane_spec() == old(self).next_pane_spec(),
            old(self).ids_fresh() ==> final(self).ids_fresh(),
            old(self).tabs_spec().len() <= 1 ==> r@.len() == 0 && *final(self) == *old(self),
            old(self).tabs_spec().len() > 1 ==> {
                let p = old(self).active_pos();
                let rest = old(self).tabs_spec().remove(p);
                &&& r@ == old(self).tabs_spec()[p].tree.leaves()
                &&& final(self).tabs_spec() == rest
                &&& final(self).active_spec() == rest[if p < rest.len() {
                    p
                } else {
                    rest.len() - 1
                }].id
            },
    {
        if self.tabs.len() <= 1 {
            return Vec::new();
        }
        let idx = self.active_index();
        let removed = self.tabs.remove(idx);
        let last = self.tabs.len() - 1;
        let new_idx = if idx < last {
            idx
        } else {
            last
        };
        self.active = self.tabs[new_idx].id;
        proof {
            assert(self.tabs@[new_idx as int].id == self.active);
            if old(self).ids_fresh() {
                lemma_ids_below_remove(old(self).tabs@, idx as int, self.next_tab_id, self.next_pane_id);
            }
        }
        removed.tree.pane_ids()
    }

    /// Makes tab `target` active; `false`, with nothing changed, when no tab
    /// carries that id.
    pub fn switch_to(&mut self, target: TabId) -> (r: bool)
        ensures
            r == has_id(old(self).tabs_spec(), target),
            r ==> final(self).active_spec() == target,
            !r ==> final(self).active_spec() == old(self).active_spec(),
            final(self).tabs_spec() == old(self).tabs_spec(),
            final(self).next_tab_spec() == old(self).next_tab_spec(),
            final(self).next_pane_spec() == old(self).next_pane_spec(),
    {
        let mut i: usize = 0;
        while i < self.tabs.len()
            invariant
                *self == *old(self),
                i <= self.tabs@.len(),
                forall|j: int| 0 <= j < i ==> #[trigger] self.tabs@[j].id != target,
            decreases self.tabs@.len() - i,
        {
            if self.tabs[i].id == target {
                self.active = target;
                return true;
            }
            i = i + 1;
        }
        false
    }

    /// Activates the next tab, wrapping to the first; `false`, with nothing
    /// changed, when there is a single tab.
    pub fn switch_next(&mut self) -> (r: bool)
        requires
            old(self).wf(),
        ensures
            final(self).wf(),
            r == (old(self).tabs_spec().len() > 1),
            r ==> final(self).active_spec() == next_of(old(self).tabs_spec(), old(self).active_spec()),
            !r ==> final(self).active_spec() == old(self).active_spec(),
            final(self).tabs_spec() == old(self).tabs_spec(),
            final(self).next_tab_spec() == old(self).next_tab_spec(),
            final(self).next_pane_spec() == old(self).next_pane_spec(),
    {
        if self.tabs.len() <= 1 {
            return false;
        }
        let next = (self.active_index() + 1) % self.tabs.len();
        self.active = self.tabs[next].id;
        proof {
            assert(self.tabs@[next as int].id == self.active);
        }
        true
    }

    /// Activates the previous tab, wrapping to the last; `false`, with
    /// nothing changed, when there is a single tab.
    pub fn switch_prev(&mut self) -> (r: bool)
        requires
            old(self).wf(),
        ensures
            final(self).wf(),
            r == (old(self).tabs_spec().len() > 1),
            r ==> final(self).active_spec() == prev_of(old(self).tabs_spec(), old(self).active_spec()),
            !r ==> final(self).active_spec() == old(self).active_spec(),
            final(self).tabs_spec() == old(self).tabs_spec(),
            final(self).next_tab_spec() == old(self).next_tab_spec(),
            final(self).next_pane_spec() == old(self).next_pane_spec(),
    {
        if self.tabs.len() <= 1 {
            return false;
        }
        let cur = self.active_index();
        let prev = if cur == 0 {
            self.tabs.len() - 1
        } else {
            cur - 1
        };
        self.active = self.tabs[prev].id;
        proof {
            assert(self.tabs@[prev as int].id == self.active);
        }
        true
    }

    /// Activates the tab at 0-based position `idx`; `false`, with nothing
    /// changed, when there is no such tab.
    pub fn switch_to_index(&mut self, idx: usize) -> (r: bool)
        ensures
            r == (idx < old(self).tabs_spec().len()),
            r ==> final(self).active_spec() == old(self).tabs_spec()[idx as int].id,
            !r ==> final(self).active_spec() == old(self).active_spec(),
            final(self).tabs_spec() == old(self).tabs_spec(),
            final(self).next_tab_spec() == old(self).next_tab_spec(),
            final(self).next_pane_spec() == old(self).next_pane_spec(),
    {
        if idx < self.tabs.len() {
            self.active = self.tabs[idx].id;
            true
        } else {
            false
        }
    }
}

/// With distinct tab ids, switching to the next tab and then to the
/// previous one returns to the tab that was active.
pub proof fn law_next_then_prev_returns(tabs: Seq<Tab>, active: TabId)
    requires
        tabs.len() > 1,
        distinct_ids(tabs),
        has_id(tabs, active),
    ensures
        prev_of(tabs, next_of(tabs, active)) == active,
{
    lemma_first_pos(tabs, active);
    let p = first_pos(tabs, active);
    let q = (p + 1) % (tabs.len() as int);
    if p + 1 < tabs.len() {
        lemma_small_mod((p + 1) as nat, tabs.len());
    } else {
        lemma_mod_self_0(tabs.len() as int);
    }
    lemma_first_pos_distinct(tabs, q);
}

/// With distinct tab ids, switching to the previous tab and then to the
/// next one returns to the tab that was active.
pub proof fn law_prev_then_next_returns(tabs: Seq<Tab>, active: TabId)
    requires
        tabs.len() > 1,
        distinct_ids(tabs),
        has_id(tabs, active),
    ensures
        next_of(tabs, prev_of(tabs, active)) == active,
{
    lemma_first_pos(tabs, active);
    let p = first_pos(tabs, active);
    let q = if p == 0 {
        tabs.len() - 1
    } else {
        p - 1
    };
    lemma_first_pos_distinct(tabs, q);
    if q + 1 < tabs.len() {
        lemma_small_mod((q + 1) as nat, tabs.len());
    } else {
        lemma_mod_self_0(tabs.len() as int);
    }
}

} // verus!
