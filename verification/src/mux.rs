//! Multiplexer model: a split tree of panes per tab, tabs, focus and zoom.
//!
//! The model holds no runtime resources, only pane ids; the application maps
//! each pane id to its PTY and terminal. Pixel geometry is computed by the
//! application from the tree that [`Mux::active_root`] exposes; the split
//! ratios are carried here as the bit patterns of the application's `f32`
//! values and never interpreted.
//!
//! Split orientation:
//!  - `Orientation::LeftRight` : a vertical divider, panes left and right
//!  - `Orientation::TopBottom` : a horizontal divider, panes above and below

use vstd::prelude::*;
use crate::seqs::{
    without, insert_after, lemma_without_concat, lemma_without_contains, lemma_without_absent,
    lemma_without_no_dup, lemma_concat_no_dup, lemma_concat_no_dup_parts, lemma_contains_concat,
    lemma_insert_after_concat, lemma_insert_after_contains, lemma_insert_after_no_dup,
};

verus! {

/// Identifier of a pane.
pub type PaneId = u64;

/// Split orientation.
#[derive(Debug, Clone, Copy, PartialEq, Eq, Structural)]
pub enum Orientation {
    LeftRight,
    TopBottom,
}

/// The bit pattern of the `f32` value `0.5`, the ratio of a fresh split.
pub const HALF_RATIO: u32 = 0x3f00_0000;

/// A node of the split tree.
///
/// `ratio` is the share of the first child, stored as the bit pattern of an
/// `f32` (`f32::to_bits`).
#[derive(Debug)]
pub enum Node {
    Leaf(PaneId),
    Split { orient: Orientation, ratio: u32, first: Box<Node>, second: Box<Node> },
}



impl Node {
    /// The panes of the tree, left to right (first child before second).
    pub open spec fn leaves(self) -> Seq<PaneId>
        decreases self,
    {
        match self {
            Node::Leaf(id) => seq![id],
            Node::Split { first, second, .. } => first.leaves() + second.leaves(),
        }
    }

    /// The tree with the first leaf `target` replaced by a split of
    /// `target` (first) and `new_id` (second) at ratio one half; the flag
    /// says whether `target` was found.
    pub open spec fn split_spec(self, target: PaneId, orient: Orientation, new_id: PaneId) -> (
        Node,
        bool,
    )
        decreases self,
    {
        match self {
            Node::Leaf(id) => {
                if id == target {
                    (
                        Node::Split {
                            orient,
                            ratio: HALF_RATIO,
                            first: Box::new(Node::Leaf(id)),
                            second: Box::new(Node::Leaf(new_id)),
                        },
                        true,
                    )
                } else {
                    (self, false)
                }
            },
            Node::Split { orient: o, ratio, first, second } => {
                let (f, done) = first.split_spec(target, orient, new_id);
                if done {
                    (Node::Split { orient: o, ratio, first: Box::new(f), second }, true)
                } else {
                    let (s, done2) = second.split_spec(target, orient, new_id);
                    (Node::Split { orient: o, ratio, first, second: Box::new(s) }, done2)
                }
            },
        }
    }

    /// The tree with leaf `target` removed: a split that loses one child
    /// collapses into the other child. `None` when the whole tree is the
    /// leaf `target`.
    pub open spec fn remove_spec(self, target: PaneId) -> Option<Node>
        decreases self,
    {
        match self {
            Node::Leaf(id) => {
                if id == target {
                    None
                } else {
                    Some(self)
                }
            },
            Node::Split { orient, ratio, first, second } => {
                match first.remove_spec(target) {
                    None => Some(*second),
                    Some(nf) => {
                        match second.remove_spec(target) {
                            None => Some(nf),
                            Some(ns) => Some(
                                Node::Split {
                                    orient,
                                    ratio,
                                    first: Box::new(nf),
                                    second: Box::new(ns),
                                },
                            ),
                        }
                    },
                }
            },
        }
    }

    /// The tree with the ratio of the split reached by `path` set to
    /// `ratio` (`false` = first child, `true` = second child); `None` when
    /// the path does not end at a split.
    pub open spec fn set_ratio_spec(self, path: Seq<bool>, ratio: u32) -> Option<Node>
        decreases path.len(),
    {
        match self {
            Node::Leaf(_) => None,
            Node::Split { orient, ratio: r, first, second } => {
                if path.len() == 0 {
                    Some(Node::Split { orient, ratio, first, second })
                } else if !path[0] {
                    match first.set_ratio_spec(path.drop_first(), ratio) {
                        Some(f) => Some(Node::Split { orient, ratio: r, first: Box::new(f), second }),
                        None => None,
                    }
                } else {
                    match second.set_ratio_spec(path.drop_first(), ratio) {
                        Some(s) => Some(Node::Split { orient, ratio: r, first, second: Box::new(s) }),
                        None => None,
                    }
                }
            },
        }
    }

    /// The first pane of the tree.
    pub fn first_leaf(&self) -> (r: PaneId)
        ensures
            r == self.leaves()[0],
            self.leaves().contains(r),
        decreases self,
    {
        proof {
            lemma_leaves_nonempty(*self);
        }
        match self {
            Node::Leaf(id) => *id,
            Node::Split { first, second, .. } => {
                proof {
                    lemma_leaves_nonempty(**first);
                }
                let r = first.first_leaf();
                proof {
                    assert(self.leaves()[0] == first.leaves()[0]);
                }
                r
            },
        }
    }

    /// Appends the panes of the tree, left to right, to `out`.
    pub fn collect_leaves(&self, out: &mut Vec<PaneId>)
        ensures
            final(out)@ == old(out)@ + self.leaves(),
        decreases self,
    {
        match self {
            Node::Leaf(id) => {
                out.push(*id);
            },
            Node::Split { first, second, .. } => {
                first.collect_leaves(out);
                second.collect_leaves(out);
                proof {
                    assert(final(out)@ =~= old(out)@ + self.leaves());
                }
            },
        }
    }

    /// Replaces the first leaf `target` with a split of `target` and
    /// `new_id`; the flag says whether `target` was found.
    pub fn split_leaf(self, target: PaneId, orient: Orientation, new_id: PaneId) -> (r: (Node, bool))
        ensures
            r == self.split_spec(target, orient, new_id),
        decreases self,
    {
        match self {
            Node::Leaf(id) => {
                if id == target {
                    (
                        Node::Split {
                            orient,
                            ratio: HALF_RATIO,
                            first: Box::new(Node::Leaf(id)),
                            second: Box::new(Node::Leaf(new_id)),
                        },
                        true,
                    )
                } else {
                    (Node::Leaf(id), false)
                }
            },
            Node::Split { orient: o, ratio, first, second } => {
                let (f, done) = (*first).split_leaf(target, orient, new_id);
                proof {
                    lemma_split_leaves(*first, target, orient, new_id);
                }
                if done {
                    (Node::Split { orient: o, ratio, first: Box::new(f), second }, true)
                } else {
                    let (s, done2) = (*second).split_leaf(target, orient, new_id);
                    (Node::Split { orient: o, ratio, first: Box::new(f), second: Box::new(s) }, done2)
                }
            },
        }
    }

    /// Removes leaf `target`; a split that loses a child collapses into the
    /// other one. `None` when the whole tree is the leaf `target`.
    pub fn remove_leaf(self, target: PaneId) -> (r: Option<Node>)
        ensures
            r == self.remove_spec(target),
        decreases self,
    {
        match self {
            Node::Leaf(id) => {
                if id == target {
                    None
                } else {
                    Some(Node::Leaf(id))
                }
            },
            Node::Split { orient, ratio, first, second } => {
                match (*first).remove_leaf(target) {
                    None => Some(*second),
                    Some(nf) => {
                        match (*second).remove_leaf(target) {
                            None => Some(nf),
                            Some(ns) => Some(
                                Node::Split {
                                    orient,
                                    ratio,
                                    first: Box::new(nf),
                                    second: Box::new(ns),
                                },
                            ),
                        }
                    },
                }
            },
        }
    }

    /// Sets the ratio of the split that `path` leads to (`false` = first
    /// child, `true` = second); `Err(self)` when the path does not end at a
    /// split.
    pub fn set_ratio(self, path: &[bool], from: usize, ratio: u32) -> (r: Result<Node, Node>)
        requires
            from <= path@.len(),
        ensures
            match r {
                Ok(n) => self.set_ratio_spec(path@.skip(from as int), ratio) == Some(n),
                Err(n) => self.set_ratio_spec(path@.skip(from as int), ratio) is None && n == self,
            },
        decreases path@.len() - from,
    {
        let ghost p = path@.skip(from as int);
        match self {
            Node::Leaf(id) => Err(Node::Leaf(id)),
            Node::Split { orient, ratio: r, first, second } => {
                if from == path.len() {
                    Ok(Node::Split { orient, ratio, first, second })
                } else if !path[from] {
                    proof {
                        assert(p.drop_first() =~= path@.skip(from + 1));
                    }
                    match (*first).set_ratio(path, from + 1, ratio) {
                        Ok(f) => Ok(Node::Split { orient, ratio: r, first: Box::new(f), second }),
                        Err(f) => Err(Node::Split { orient, ratio: r, first: Box::new(f), second }),
                    }
                } else {
                    proof {
                        assert(p.drop_first() =~= path@.skip(from + 1));
                    }
                    match (*second).set_ratio(path, from + 1, ratio) {
                        Ok(s) => Ok(Node::Split { orient, ratio: r, first, second: Box::new(s) }),
                        Err(s) => Err(Node::Split { orient, ratio: r, first, second: Box::new(s) }),
                    }
                }
            },
        }
    }
}

/// A tree has at least one pane.
pub proof fn lemma_leaves_nonempty(n: Node)
    ensures
        n.leaves().len() >= 1,
    decreases n,
{
    match n {
        Node::Leaf(_) => {},
        Node::Split { first, second, .. } => {
            lemma_leaves_nonempty(*first);
            lemma_leaves_nonempty(*second);
        },
    }
}



/// Splitting a tree at `target` finds `target` exactly when it is a pane of
/// the tree; the panes then become the old ones with `new_id` right after
/// `target`, and otherwise the tree is unchanged.
pub proof fn lemma_split_leaves(n: Node, target: PaneId, orient: Orientation, new_id: PaneId)
    ensures
        n.split_spec(target, orient, new_id).1 == n.leaves().contains(target),
        n.split_spec(target, orient, new_id).1 ==> n.split_spec(target, orient, new_id).0.leaves()
            == insert_after(n.leaves(), target, new_id),
        !n.split_spec(target, orient, new_id).1 ==> n.split_spec(target, orient, new_id).0 == n,
    decreases n,
{
    match n {
        Node::Leaf(id) => {
            if id == target {
                assert(n.leaves()[0] == target);
                assert(seq![id].drop_first() =~= Seq::<PaneId>::empty());
                assert(insert_after(seq![id], target, new_id) == seq![target, new_id]
                    + seq![id].drop_first());
                assert(seq![target, new_id] + Seq::<PaneId>::empty() =~= seq![id] + seq![new_id]);
                let r = n.split_spec(target, orient, new_id).0;
                assert(r.leaves() == Node::Leaf(id).leaves() + Node::Leaf(new_id).leaves());
            } else {
                assert(!n.leaves().contains(target)) by {
                    if n.leaves().contains(target) {
                        let j = choose|j: int| 0 <= j < n.leaves().len() && n.leaves()[j] == target;
                        assert(j == 0);
                    }
                }
            }
        },
        Node::Split { orient: o, ratio, first, second } => {
            lemma_split_leaves(*first, target, orient, new_id);
            lemma_split_leaves(*second, target, orient, new_id);
            lemma_contains_concat(first.leaves(), second.leaves(), target);
            lemma_insert_after_concat(first.leaves(), second.leaves(), target, new_id);
        },
    }
}

/// Removing a pane that is not in the tree leaves the tree unchanged.
pub proof fn lemma_remove_absent(n: Node, target: PaneId)
    requires
        !n.leaves().contains(target),
    ensures
        n.remove_spec(target) == Some(n),
    decreases n,
{
    match n {
        Node::Leaf(id) => {
            assert(n.leaves()[0] == id);
        },
        Node::Split { first, second, .. } => {
            lemma_contains_concat(first.leaves(), second.leaves(), target);
            lemma_remove_absent(*first, target);
            lemma_remove_absent(*second, target);
        },
    }
}

/// In a tree whose panes are distinct, removing `target` gives `None`
/// exactly when the tree is the single pane `target`; otherwise the panes of
/// the result are the old ones without `target`, still distinct.
pub proof fn lemma_remove_leaves(n: Node, target: PaneId)
    requires
        n.leaves().no_duplicates(),
    ensures
        (n.remove_spec(target) is None) <==> n.leaves() == seq![target],
        n.remove_spec(target) matches Some(m) ==> m.leaves() == without(n.leaves(), target)
            && m.leaves().no_duplicates(),
    decreases n,
{
    match n {
        Node::Leaf(id) => {
            if id != target {
                assert(without(seq![id], target) =~= seq![id] + without(seq![id].drop_first(), target));
                assert(seq![id].drop_first().len() == 0);
                assert(seq![id] + seq![] =~= seq![id]);
                assert(n.leaves() != seq![target]) by {
                    assert(n.leaves()[0] == id);
                }
            } else {
                assert(seq![id].drop_first().len() == 0);
            }
        },
        Node::Split { orient, ratio, first, second } => {
            lemma_concat_no_dup_parts(first.leaves(), second.leaves());
            lemma_remove_leaves(*first, target);
            lemma_remove_leaves(*second, target);
            lemma_leaves_nonempty(*first);
            lemma_leaves_nonempty(*second);
            lemma_without_concat(first.leaves(), second.leaves(), target);
            assert(n.leaves() != seq![target]) by {
                assert(n.leaves().len() >= 2);
            }
            match first.remove_spec(target) {
                None => {
                    assert(first.leaves() == seq![target]);
                    assert(first.leaves().contains(target)) by {
                        assert(first.leaves()[0] == target);
                    }
                    assert(!second.leaves().contains(target));
                    lemma_without_absent(second.leaves(), target);
                    assert(without(first.leaves(), target) =~= Seq::<PaneId>::empty()) by {
                        assert(seq![target].drop_first() =~= Seq::<PaneId>::empty());
                        assert(without(Seq::<PaneId>::empty(), target) == Seq::<PaneId>::empty());
                    }
                    assert(without(n.leaves(), target) =~= second.leaves());
                },
                Some(nf) => {
                    match second.remove_spec(target) {
                        None => {
                            assert(second.leaves() == seq![target]);
                            assert(without(second.leaves(), target) =~= Seq::<PaneId>::empty()) by {
                                assert(seq![target].drop_first() =~= Seq::<PaneId>::empty());
                                assert(without(Seq::<PaneId>::empty(), target) == Seq::<PaneId>::empty());
                            }
                            assert(without(n.leaves(), target) =~= nf.leaves());
                        },
                        Some(ns) => {
                            assert forall|x: PaneId| nf.leaves().contains(x) implies !ns.leaves().contains(
                                x,
                            ) by {
                                lemma_without_contains(first.leaves(), target, x);
                                lemma_without_contains(second.leaves(), target, x);
                            }
                            lemma_concat_no_dup(nf.leaves(), ns.leaves());
                        },
                    }
                },
            }
        },
    }
}

/// The tree holds a split node of orientation `o` and ratio one half whose
/// first child is pane `a` alone and second child pane `b` alone.
pub open spec fn holds_pair(n: Node, o: Orientation, a: PaneId, b: PaneId) -> bool
    decreases n,
{
    match n {
        Node::Leaf(_) => false,
        Node::Split { orient, ratio, first, second } => (orient == o && ratio == HALF_RATIO && *first
            == Node::Leaf(a) && *second == Node::Leaf(b)) || holds_pair(*first, o, a, b) || holds_pair(
            *second,
            o,
            a,
            b,
        ),
    }
}

proof fn lemma_no_pair_without_leaf(n: Node, o: Orientation, a: PaneId, b: PaneId)
    requires
        !n.leaves().contains(b),
    ensures
        !holds_pair(n, o, a, b),
    decreases n,
{
    if let Node::Split { first, second, .. } = n {
        assert(first.leaves().len() >= 0);
        assert forall|i: int| 0 <= i < second.leaves().len() implies second.leaves()[i] != b by {
            assert(n.leaves()[first.leaves().len() + i] == second.leaves()[i]);
        }
        assert forall|i: int| 0 <= i < first.leaves().len() implies first.leaves()[i] != b by {
            assert(n.leaves()[i] == first.leaves()[i]);
        }
        if *second == Node::Leaf(b) {
            assert(second.leaves()[0] == b);
        }
        lemma_no_pair_without_leaf(*first, o, a, b);
        lemma_no_pair_without_leaf(*second, o, a, b);
    }
}

proof fn lemma_split_makes_pair(n: Node, target: PaneId, orient: Orientation, new_id: PaneId)
    requires
        n.leaves().contains(target),
    ensures
        holds_pair(n.split_spec(target, orient, new_id).0, orient, target, new_id),
    decreases n,
{
    lemma_split_leaves(n, target, orient, new_id);
    match n {
        Node::Leaf(id) => {
            assert(n.leaves()[0] == target);
        },
        Node::Split { orient: o, ratio, first, second } => {
            lemma_split_leaves(*first, target, orient, new_id);
            if first.leaves().contains(target) {
                lemma_split_makes_pair(*first, target, orient, new_id);
            } else {
                let k = choose|k: int| 0 <= k < n.leaves().len() && n.leaves()[k] == target;
                assert(second.leaves()[k - first.leaves().len()] == target);
                lemma_split_makes_pair(*second, target, orient, new_id);
            }
        },
    }
}

/// Splitting pane `target` with orientation `orient` (left/right or
/// top/bottom) puts the new pane beside it that way: when the tree holds
/// `target` and not yet `new_id`, the split succeeds and the result holds a
/// split of orientation `orient`, ratio one half, with `target` first
/// (left or top) and `new_id` second (right or bottom); before the split no
/// such node was there.
pub proof fn law_split_orientation(n: Node, target: PaneId, orient: Orientation, new_id: PaneId)
    requires
        n.leaves().contains(target),
        !n.leaves().contains(new_id),
    ensures
        n.split_spec(target, orient, new_id).1,
        holds_pair(n.split_spec(target, orient, new_id).0, orient, target, new_id),
        !holds_pair(n, orient, target, new_id),
        forall|o: Orientation| o != orient ==> !holds_pair(n.split_spec(target, orient, new_id).0, o, target, new_id),
{
    lemma_split_leaves(n, target, orient, new_id);
    lemma_split_makes_pair(n, target, orient, new_id);
    lemma_no_pair_without_leaf(n, orient, target, new_id);
    assert forall|o: Orientation| o != orient implies !holds_pair(
        n.split_spec(target, orient, new_id).0,
        o,
        target,
        new_id,
    ) by {
        lemma_pair_only_new(n, target, orient, new_id, o);
    }
}

proof fn lemma_pair_only_new(n: Node, target: PaneId, orient: Orientation, new_id: PaneId, o: Orientation)
    requires
        !n.leaves().contains(new_id),
        o != orient,
    ensures
        !holds_pair(n.split_spec(target, orient, new_id).0, o, target, new_id),
    decreases n,
{
    lemma_split_leaves(n, target, orient, new_id);
    lemma_no_pair_without_leaf(n, o, target, new_id);
    match n {
        Node::Leaf(id) => {
            assert(!holds_pair(Node::Leaf(id), o, target, new_id));
            assert(!holds_pair(Node::Leaf(new_id), o, target, new_id));
        },
        Node::Split { orient: so, ratio, first, second } => {
            assert forall|i: int| 0 <= i < first.leaves().len() implies first.leaves()[i] != new_id by {
                assert(n.leaves()[i] == first.leaves()[i]);
            }
            assert forall|i: int| 0 <= i < second.leaves().len() implies second.leaves()[i] != new_id by {
                assert(n.leaves()[first.leaves().len() + i] == second.leaves()[i]);
            }
            lemma_split_leaves(*first, target, orient, new_id);
            lemma_split_leaves(*second, target, orient, new_id);
            lemma_pair_only_new(*first, target, orient, new_id, o);
            lemma_pair_only_new(*second, target, orient, new_id, o);
            lemma_no_pair_without_leaf(*second, o, target, new_id);
            let (f, done) = first.split_spec(target, orient, new_id);
            if done {
                // the untouched second child cannot hold the new pane
                if *second == Node::Leaf(new_id) {
                    assert(second.leaves()[0] == new_id);
                }
            } else {
                let (s, _) = second.split_spec(target, orient, new_id);
                if s == Node::Leaf(new_id) {
                    assert(s.leaves()[0] == new_id);
                    assert(second.leaves() == s.leaves());
                    assert(second.leaves()[0] == new_id);
                }
            }
        },
    }
}

/// Splitting pane `target` off into a fresh pane `new_id` and then removing
/// `new_id` gives back the tree as it was: closing a pane right after it was
/// split off undoes the split.
pub proof fn law_split_then_remove_restores(
    n: Node,
    target: PaneId,
    orient: Orientation,
    new_id: PaneId,
)
    requires
        n.leaves().contains(target),
        !n.leaves().contains(new_id),
    ensures
        n.split_spec(target, orient, new_id).0.remove_spec(new_id) == Some(n),
    decreases n,
{
    match n {
        Node::Leaf(id) => {
            assert(n.leaves()[0] == id);
            assert(id == target) by {
                let j = choose|j: int| 0 <= j < n.leaves().len() && n.leaves()[j] == target;
                assert(j == 0);
            }
            assert(id != new_id);
            let sp = n.split_spec(target, orient, new_id).0;
            assert(Node::Leaf(id).remove_spec(new_id) == Some(Node::Leaf(id)));
            assert(Node::Leaf(new_id).remove_spec(new_id) is None);
            assert(sp == Node::Split {
                orient,
                ratio: HALF_RATIO,
                first: Box::new(Node::Leaf(id)),
                second: Box::new(Node::Leaf(new_id)),
            });
        },
        Node::Split { orient: o, ratio, first, second } => {
            lemma_contains_concat(first.leaves(), second.leaves(), target);
            lemma_contains_concat(first.leaves(), second.leaves(), new_id);
            lemma_split_leaves(*first, target, orient, new_id);
            if first.leaves().contains(target) {
                law_split_then_remove_restores(*first, target, orient, new_id);
                lemma_remove_absent(*second, new_id);
            } else {
                law_split_then_remove_restores(*second, target, orient, new_id);
                lemma_remove_absent(*first, new_id);
            }
        },
    }
}

/// Setting a split ratio changes no pane of the tree.
pub proof fn lemma_set_ratio_leaves(n: Node, path: Seq<bool>, ratio: u32)
    ensures
        n.set_ratio_spec(path, ratio) matches Some(m) ==> m.leaves() == n.leaves(),
    decreases path.len(),
{
    match n {
        Node::Leaf(_) => {},
        Node::Split { first, second, .. } => {
            if path.len() > 0 {
                lemma_set_ratio_leaves(*first, path.drop_first(), ratio);
                lemma_set_ratio_leaves(*second, path.drop_first(), ratio);
            }
        },
    }
}


/// One tab: its split tree, the focused pane and the zoomed pane, if any.
#[derive(Debug)]
pub struct Tab {
    pub root: Node,
    pub active: PaneId,
    /// The zoomed (full-window) pane; only it is shown while set.
    pub zoomed: Option<PaneId>,
}

/// A tab is well formed: distinct panes, and the focused and zoomed panes
/// are panes of the tab.
pub open spec fn tab_wf(t: Tab) -> bool {
    &&& t.root.leaves().no_duplicates()
    &&& t.root.leaves().contains(t.active)
    &&& (t.zoomed matches Some(z) ==> t.root.leaves().contains(z))
}

/// Every tab is well formed, no pane belongs to two tabs, and every pane id
/// is below `next`.
pub open spec fn tabs_ok(tabs: Seq<Tab>, next: u64) -> bool {
    &&& forall|i: int| 0 <= i < tabs.len() ==> tab_wf(#[trigger] tabs[i])
    &&& forall|i: int, j: int, x: PaneId|
        #![trigger tabs[i].root.leaves().contains(x), tabs[j].root.leaves().contains(x)]
        0 <= i < tabs.len() && 0 <= j < tabs.len() && i != j && tabs[i].root.leaves().contains(x)
            ==> !tabs[j].root.leaves().contains(x)
    &&& forall|i: int, x: PaneId|
        0 <= i < tabs.len() && #[trigger] tabs[i].root.leaves().contains(x) ==> x < next
}

/// The panes of all tabs, tab by tab.
pub open spec fn all_leaves(tabs: Seq<Tab>) -> Seq<PaneId>
    decreases tabs.len(),
{
    if tabs.len() == 0 {
        Seq::empty()
    } else {
        all_leaves(tabs.drop_last()) + tabs.last().root.leaves()
    }
}

/// Result of closing a pane.
#[derive(Debug, Clone, PartialEq, Eq, Structural)]
pub enum CloseResult {
    /// Only the pane closed (its id); focus moved within the same tab.
    Pane(PaneId),
    /// The whole tab closed (id of the closed pane); another tab is shown.
    Tab(PaneId),
    /// The last pane closed (its id): the application should exit.
    LastPane(PaneId),
}

/// The multiplexer model: tabs of split trees, the active tab, and the next
/// pane id to hand out.
pub struct Mux {
    tabs: Vec<Tab>,
    active_tab: usize,
    next_id: PaneId,
}

proof fn lemma_tabs_ok_update(tabs: Seq<Tab>, k: int, nt: Tab, n1: u64, n2: u64)
    requires
        tabs_ok(tabs, n1),
        0 <= k < tabs.len(),
        tab_wf(nt),
        n1 <= n2,
        forall|x: PaneId|
            nt.root.leaves().contains(x) ==> tabs[k].root.leaves().contains(x) || (n1 <= x < n2),
    ensures
        tabs_ok(tabs.update(k, nt), n2),
{
    let t2 = tabs.update(k, nt);
    assert forall|i: int| 0 <= i < t2.len() implies tab_wf(#[trigger] t2[i]) by {
        if i != k {
            assert(t2[i] == tabs[i]);
        }
    }
    assert forall|i: int, j: int, x: PaneId|
        0 <= i < t2.len() && 0 <= j < t2.len() && i != j && t2[i].root.leaves().contains(x) implies !t2[j].root.leaves().contains(x) by {
        if t2[j].root.leaves().contains(x) {
            if i == k {
                assert(tabs[j].root.leaves().contains(x));
                assert(x < n1);
            } else if j == k {
                assert(tabs[i].root.leaves().contains(x));
                assert(x < n1);
            } else {
                assert(tabs[i].root.leaves().contains(x));
            }
        }
    }
    assert forall|i: int, x: PaneId| 0 <= i < t2.len() && #[trigger] t2[i].root.leaves().contains(x) implies x < n2 by {
        if i != k {
            assert(tabs[i].root.leaves().contains(x));
        } else if tabs[k].root.leaves().contains(x) {
        }
    }
}

proof fn lemma_tabs_ok_remove(tabs: Seq<Tab>, k: int, n: u64)
    requires
        tabs_ok(tabs, n),
        0 <= k < tabs.len(),
    ensures
        tabs_ok(tabs.remove(k), n),
{
    let t2 = tabs.remove(k);
    assert forall|i: int| 0 <= i < t2.len() implies tab_wf(#[trigger] t2[i]) by {
        if i < k {
            assert(t2[i] == tabs[i]);
        } else {
            assert(t2[i] == tabs[i + 1]);
        }
    }
    assert forall|i: int, j: int, x: PaneId|
        0 <= i < t2.len() && 0 <= j < t2.len() && i != j && t2[i].root.leaves().contains(x) implies !t2[j].root.leaves().contains(x) by {
        let ii = if i < k { i } else { i + 1 };
        let jj = if j < k { j } else { j + 1 };
        assert(t2[i] == tabs[ii]);
        assert(t2[j] == tabs[jj]);
        assert(tabs[ii].root.leaves().contains(x));
    }
    assert forall|i: int, x: PaneId| 0 <= i < t2.len() && #[trigger] t2[i].root.leaves().contains(x) implies x < n by {
        let ii = if i < k { i } else { i + 1 };
        assert(t2[i] == tabs[ii]);
        assert(tabs[ii].root.leaves().contains(x));
    }
}

proof fn lemma_tabs_ok_push(tabs: Seq<Tab>, nt: Tab, n1: u64, n2: u64)
    requires
        tabs_ok(tabs, n1),
        tab_wf(nt),
        n1 <= n2,
        forall|x: PaneId| nt.root.leaves().contains(x) ==> n1 <= x < n2,
    ensures
        tabs_ok(tabs.push(nt), n2),
{
    let t2 = tabs.push(nt);
    let k = tabs.len() as int;
    assert forall|i: int| 0 <= i < t2.len() implies tab_wf(#[trigger] t2[i]) by {
        if i < k {
            assert(t2[i] == tabs[i]);
        }
    }
    assert forall|i: int, j: int, x: PaneId|
        0 <= i < t2.len() && 0 <= j < t2.len() && i != j && t2[i].root.leaves().contains(x) implies !t2[j].root.leaves().contains(x) by {
        if t2[j].root.leaves().contains(x) {
            if i == k {
                assert(t2[j] == tabs[j]);
                assert(tabs[j].root.leaves().contains(x));
            } else if j == k {
                assert(t2[i] == tabs[i]);
                assert(tabs[i].root.leaves().contains(x));
            } else {
                assert(t2[i] == tabs[i]);
                assert(t2[j] == tabs[j]);
                assert(tabs[i].root.leaves().contains(x));
            }
        }
    }
    assert forall|i: int, x: PaneId| 0 <= i < t2.len() && #[trigger] t2[i].root.leaves().contains(x) implies x < n2 by {
        if i < k {
            assert(t2[i] == tabs[i]);
            assert(tabs[i].root.leaves().contains(x));
        }
    }
}

/// `v` contains `x`.
pub fn vec_contains(v: &Vec<PaneId>, x: PaneId) -> (r: bool)
    ensures
        r == v@.contains(x),
{
    let mut i: usize = 0;
    while i < v.len()
        invariant
            i <= v@.len(),
            forall|j: int| 0 <= j < i ==> v@[j] != x,
        decreases v@.len() - i,
    {
        if v[i] == x {
            proof {
                assert(v@[i as int] == x);
            }
            return true;
        }
        i = i + 1;
    }
    false
}

/// Position of the first `x` in `v`.
pub fn vec_position(v: &Vec<PaneId>, x: PaneId) -> (r: Option<usize>)
    ensures
        match r {
            Some(i) => i < v@.len() && v@[i as int] == x && forall|j: int| 0 <= j < i ==> v@[j] != x,
            None => !v@.contains(x),
        },
{
    let mut i: usize = 0;
    while i < v.len()
        invariant
            i <= v@.len(),
            forall|j: int| 0 <= j < i ==> v@[j] != x,
        decreases v@.len() - i,
    {
        if v[i] == x {
            return Some(i);
        }
        i = i + 1;
    }
    None
}

impl Mux {
    /// The tabs, in order.
    pub closed spec fn tabs(&self) -> Seq<Tab> {
        self.tabs@
    }

    /// Index of the active tab.
    pub closed spec fn active_index(&self) -> int {
        self.active_tab as int
    }

    /// The id the next new pane will get.
    pub closed spec fn next_pane_id(&self) -> u64 {
        self.next_id
    }

    /// The model is consistent: the active index is valid while a tab is
    /// left, and the tabs satisfy [`tabs_ok`].
    pub open spec fn wf(&self) -> bool {
        &&& (self.tabs().len() == 0 || self.active_index() < self.tabs().len())
        &&& 0 <= self.active_index()
        &&& tabs_ok(self.tabs(), self.next_pane_id())
    }

    /// The active tab.
    pub open spec fn cur(&self) -> Tab {
        self.tabs()[self.active_index()]
    }

    /// A first tab with the first pane (id 1). Returns the model and that id.
    pub fn new() -> (r: (Self, PaneId))
        ensures
            r.1 == 1,
            r.0.wf(),
            r.0.tabs() == seq![(Tab { root: Node::Leaf(1), active: 1, zoomed: None })],
            r.0.active_index() == 0,
            r.0.next_pane_id() == 2,
    {
        let first: PaneId = 1;
        let mut tabs: Vec<Tab> = Vec::new();
        tabs.push(Tab { root: Node::Leaf(first), active: first, zoomed: None });
        let mux = Mux { tabs, active_tab: 0, next_id: first + 1 };
        proof {
            let t = mux.tabs@[0];
            assert(t.root.leaves() == seq![1u64]);
            assert(t.root.leaves()[0] == 1);
            assert(t.root.leaves().no_duplicates());
            assert forall|i: int, x: PaneId| 0 <= i < mux.tabs@.len() && #[trigger] mux.tabs@[i].root.leaves().contains(x) implies x < 2 by {
                let j = choose|j: int| 0 <= j < mux.tabs@[i].root.leaves().len() && mux.tabs@[i].root.leaves()[j] == x;
                assert(j == 0);
            }
        }
        (mux, first)
    }

    /// The focused pane of the active tab.
    pub fn active_pane(&self) -> (r: PaneId)
        requires
            self.wf(),
            self.tabs().len() > 0,
        ensures
            r == self.cur().active,
    {
        self.tabs[self.active_tab].active
    }

    /// Number of tabs.
    pub fn tab_count(&self) -> (r: usize)
        ensures
            r == self.tabs().len(),
    {
        self.tabs.len()
    }

    /// Index of the active tab.
    pub fn active_tab_index(&self) -> (r: usize)
        ensures
            r == self.active_index(),
    {
        self.active_tab
    }

    /// The split tree of the active tab (for the application's layout).
    pub fn active_root(&self) -> (r: &Node)
        requires
            self.wf(),
            self.tabs().len() > 0,
        ensures
            *r == self.cur().root,
    {
        &self.tabs[self.active_tab].root
    }

    /// The zoomed pane of the active tab, if any.
    pub fn zoomed_pane(&self) -> (r: Option<PaneId>)
        requires
            self.wf(),
            self.tabs().len() > 0,
        ensures
            r == self.cur().zoomed,
    {
        self.tabs[self.active_tab].zoomed
    }

    /// The panes of the active tab, left to right (the panes to render).
    pub fn active_tab_panes(&self) -> (r: Vec<PaneId>)
        requires
            self.wf(),
            self.tabs().len() > 0,
        ensures
            r@ == self.cur().root.leaves(),
    {
        let mut v: Vec<PaneId> = Vec::new();
        self.tabs[self.active_tab].root.collect_leaves(&mut v);
        proof {
            assert(v@ =~= self.cur().root.leaves());
        }
        v
    }

    /// The panes of all tabs, tab by tab (for releasing resources).
    pub fn all_panes(&self) -> (r: Vec<PaneId>)
        ensures
            r@ == all_leaves(self.tabs()),
    {
        let mut v: Vec<PaneId> = Vec::new();
        let mut i: usize = 0;
        while i < self.tabs.len()
            invariant
                i <= self.tabs@.len(),
                v@ == all_leaves(self.tabs@.take(i as int)),
            decreases self.tabs@.len() - i,
        {
            self.tabs[i].root.collect_leaves(&mut v);
            proof {
                assert(self.tabs@.take(i + 1).drop_last() =~= self.tabs@.take(i as int));
            }
            i = i + 1;
        }
        proof {
            assert(self.tabs@.take(self.tabs@.len() as int) =~= self.tabs@);
        }
        v
    }

    /// Whether the active tab has a zoomed pane.
    pub fn is_zoomed(&self) -> (r: bool)
        requires
            self.wf(),
            self.tabs().len() > 0,
        ensures
            r == self.cur().zoomed is Some,
    {
        self.tabs[self.active_tab].zoomed.is_some()
    }
}


impl Mux {
    /// Splits the focused pane of the active tab; the new pane gets the next
    /// id, comes right after the old one and takes the focus. Zoom ends.
    pub fn split_active(&mut self, orient: Orientation) -> (new_id: PaneId)
        requires
            old(self).wf(),
            old(self).tabs().len() > 0,
            old(self).next_pane_id() < u64::MAX,
        ensures
            final(self).wf(),
            new_id == old(self).next_pane_id(),
            final(self).next_pane_id() == new_id + 1,
            final(self).active_index() == old(self).active_index(),
            final(self).tabs() == old(self).tabs().update(
                old(self).active_index(),
                (Tab {
                    root: old(self).cur().root.split_spec(old(self).cur().active, orient, new_id).0,
                    active: new_id,
                    zoomed: None,
                }),
            ),
            final(self).cur().root.leaves() == insert_after(
                old(self).cur().root.leaves(),
                old(self).cur().active,
                new_id,
            ),
    {
        let new_id = self.next_id;
        self.next_id = self.next_id + 1;
        let ai = self.active_tab;
        let t = self.tabs.remove(ai);
        let Tab { root, active, zoomed: _ } = t;
        let ghost r0 = root;
        let (root2, _found) = root.split_leaf(active, orient, new_id);
        proof {
            lemma_split_leaves(r0, active, orient, new_id);
            let l0 = r0.leaves();
            let l1 = root2.leaves();
            assert(l0.contains(active));
            assert(!l0.contains(new_id)) by {
                if l0.contains(new_id) {
                    assert(old(self).tabs()[ai as int].root.leaves().contains(new_id));
                }
            }
            assert forall|x: PaneId| l1.contains(x) implies l0.contains(x) || (new_id <= x < new_id
                + 1) by {
                lemma_insert_after_contains(l0, active, new_id, x);
            }
            lemma_insert_after_no_dup(l0, active, new_id);
            lemma_insert_after_contains(l0, active, new_id, new_id);
            let nt = Tab { root: root2, active: new_id, zoomed: None };
            lemma_tabs_ok_update(old(self).tabs(), ai as int, nt, new_id, (new_id + 1) as u64);
            assert(self.tabs@.insert(ai as int, nt) =~= old(self).tabs().update(ai as int, nt));
        }
        self.tabs.insert(ai, Tab { root: root2, active: new_id, zoomed: None });
        new_id
    }

    /// Toggles zoom of the focused pane of the active tab: off when that
    /// pane is zoomed, otherwise that pane becomes the zoomed one.
    pub fn toggle_zoom(&mut self)
        requires
            old(self).wf(),
            old(self).tabs().len() > 0,
        ensures
            final(self).wf(),
            final(self).active_index() == old(self).active_index(),
            final(self).next_pane_id() == old(self).next_pane_id(),
            final(self).tabs() == old(self).tabs().update(
                old(self).active_index(),
                (Tab {
                    root: old(self).cur().root,
                    active: old(self).cur().active,
                    zoomed: if old(self).cur().zoomed == Some(old(self).cur().active) {
                        None
                    } else {
                        Some(old(self).cur().active)
                    },
                }),
            ),
    {
        let ai = self.active_tab;
        let t = self.tabs.remove(ai);
        let Tab { root, active, zoomed } = t;
        let z = if zoomed == Some(active) {
            None
        } else {
            Some(active)
        };
        let nt = Tab { root, active, zoomed: z };
        proof {
            lemma_tabs_ok_update(old(self).tabs(), ai as int, nt, self.next_id, self.next_id);
            assert(self.tabs@.insert(ai as int, nt) =~= old(self).tabs().update(ai as int, nt));
        }
        self.tabs.insert(ai, nt);
    }

    /// A new tab with one new pane, which becomes the active tab. Returns
    /// the new pane's id.
    pub fn new_tab(&mut self) -> (new_id: PaneId)
        requires
            old(self).wf(),
            old(self).next_pane_id() < u64::MAX,
        ensures
            final(self).wf(),
            new_id == old(self).next_pane_id(),
            final(self).next_pane_id() == new_id + 1,
            final(self).tabs() == old(self).tabs().push(
                (Tab { root: Node::Leaf(new_id), active: new_id, zoomed: None }),
            ),
            final(self).active_index() == old(self).tabs().len(),
    {
        let new_id = self.next_id;
        self.next_id = self.next_id + 1;
        let nt = Tab { root: Node::Leaf(new_id), active: new_id, zoomed: None };
        proof {
            assert(nt.root.leaves() == seq![new_id]);
            assert(nt.root.leaves()[0] == new_id);
            assert forall|x: PaneId| nt.root.leaves().contains(x) implies new_id <= x < new_id + 1 by {
                let j = choose|j: int| 0 <= j < nt.root.leaves().len() && nt.root.leaves()[j] == x;
                assert(j == 0);
            }
            lemma_tabs_ok_push(old(self).tabs(), nt, new_id, (new_id + 1) as u64);
        }
        self.tabs.push(nt);
        self.active_tab = self.tabs.len() - 1;
        new_id
    }

    /// Switches to the next tab, wrapping around (no-op with one tab).
    pub fn next_tab(&mut self)
        requires
            old(self).wf(),
        ensures
            final(self).wf(),
            final(self).tabs() == old(self).tabs(),
            final(self).next_pane_id() == old(self).next_pane_id(),
            final(self).active_index() == if old(self).tabs().len() > 1 {
                (old(self).active_index() + 1) % (old(self).tabs().len() as int)
            } else {
                old(self).active_index()
            },
    {
        if self.tabs.len() > 1 {
            self.active_tab = (self.active_tab + 1) % self.tabs.len();
        }
    }

    /// Switches to the previous tab, wrapping around (no-op with one tab).
    pub fn prev_tab(&mut self)
        requires
            old(self).wf(),
        ensures
            final(self).wf(),
            final(self).tabs() == old(self).tabs(),
            final(self).next_pane_id() == old(self).next_pane_id(),
            final(self).active_index() == if old(self).tabs().len() > 1 {
                (old(self).active_index() + old(self).tabs().len() - 1) % (
                old(self).tabs().len() as int)
            } else {
                old(self).active_index()
            },
    {
        let n = self.tabs.len();
        if n > 1 {
            let a = self.active_tab;
            self.active_tab = if a == 0 {
                n - 1
            } else {
                a - 1
            };
            proof {
                let len = n as int;
                if a == 0 {
                    assert((0 + len - 1) % len == len - 1) by (nonlinear_arith)
                        requires len > 1;
                } else {
                    assert((a + len - 1) % len == a - 1) by (nonlinear_arith)
                        requires 0 < a < len;
                }
            }
        }
    }

    /// Moves the focus of the active tab to the next pane, wrapping around
    /// (no-op with fewer than two panes).
    pub fn focus_next(&mut self)
        requires
            old(self).wf(),
            old(self).tabs().len() > 0,
        ensures
            final(self).wf(),
            final(self).active_index() == old(self).active_index(),
            final(self).next_pane_id() == old(self).next_pane_id(),
            old(self).cur().root.leaves().len() < 2 ==> final(self).tabs() == old(self).tabs(),
            old(self).cur().root.leaves().len() >= 2 ==> forall|i: int|
                0 <= i < old(self).cur().root.leaves().len() && #[trigger] old(
                    self,
                ).cur().root.leaves()[i] == old(self).cur().active ==> final(self).tabs() == old(self).tabs().update(
                    old(self).active_index(),
                    (Tab {
                        root: old(self).cur().root,
                        active: old(self).cur().root.leaves()[(i + 1) % old(
                            self,
                        ).cur().root.leaves().len() as int],
                        zoomed: old(self).cur().zoomed,
                    }),
                ),
    {
        let leaves = self.active_tab_panes();
        if leaves.len() < 2 {
            return;
        }
        let ai = self.active_tab;
        let cur = self.tabs[ai].active;
        let idx = match vec_position(&leaves, cur) {
            Some(i) => i,
            None => 0,
        };
        let next = leaves[(idx + 1) % leaves.len()];
        let t = self.tabs.remove(ai);
        let Tab { root, active: _, zoomed } = t;
        let nt = Tab { root, active: next, zoomed };
        proof {
            let l = leaves@;
            assert(l.contains(cur));
            assert(l.no_duplicates());
            assert(l[idx as int] == cur);
            assert forall|i: int| 0 <= i < l.len() && l[i] == cur implies i == idx by {}
            assert(l.contains(next));
            lemma_tabs_ok_update(old(self).tabs(), ai as int, nt, self.next_id, self.next_id);
            assert(self.tabs@.insert(ai as int, nt) =~= old(self).tabs().update(ai as int, nt));
        }
        self.tabs.insert(ai, nt);
    }

    /// Focuses pane `id` when it is a pane of the active tab (click);
    /// otherwise nothing changes.
    pub fn focus(&mut self, id: PaneId)
        requires
            old(self).wf(),
            old(self).tabs().len() > 0,
        ensures
            final(self).wf(),
            final(self).active_index() == old(self).active_index(),
            final(self).next_pane_id() == old(self).next_pane_id(),
            !old(self).cur().root.leaves().contains(id) ==> final(self).tabs() == old(self).tabs(),
            old(self).cur().root.leaves().contains(id) ==> final(self).tabs() == old(
                self,
            ).tabs().update(
                old(self).active_index(),
                (Tab { root: old(self).cur().root, active: id, zoomed: old(self).cur().zoomed }),
            ),
    {
        let leaves = self.active_tab_panes();
        if vec_contains(&leaves, id) {
            let ai = self.active_tab;
            let t = self.tabs.remove(ai);
            let Tab { root, active: _, zoomed } = t;
            let nt = Tab { root, active: id, zoomed };
            proof {
                lemma_tabs_ok_update(old(self).tabs(), ai as int, nt, self.next_id, self.next_id);
                assert(self.tabs@.insert(ai as int, nt) =~= old(self).tabs().update(ai as int, nt));
            }
            self.tabs.insert(ai, nt);
        }
    }

    /// Index of the tab holding pane `id`.
    fn find_tab(&self, id: PaneId) -> (r: Option<usize>)
        requires
            self.wf(),
        ensures
            match r {
                Some(i) => i < self.tabs().len() && self.tabs()[i as int].root.leaves().contains(
                    id,
                ),
                None => forall|i: int|
                    0 <= i < self.tabs().len() ==> !self.tabs()[i].root.leaves().contains(id),
            },
    {
        let mut i: usize = 0;
        while i < self.tabs.len()
            invariant
                i <= self.tabs@.len(),
                forall|j: int| 0 <= j < i ==> !self.tabs@[j].root.leaves().contains(id),
            decreases self.tabs@.len() - i,
        {
            let mut v: Vec<PaneId> = Vec::new();
            self.tabs[i].root.collect_leaves(&mut v);
            proof {
                assert(v@ =~= self.tabs@[i as int].root.leaves());
            }
            if vec_contains(&v, id) {
                return Some(i);
            }
            i = i + 1;
        }
        None
    }

    /// Closes pane `id`, in whichever tab it is (shell exit, kill).
    ///
    /// An unknown id changes nothing and gives `Pane(id)`. When the pane was
    /// the only one of its tab the tab goes: `LastPane(id)` if no tab is
    /// left, else `Tab(id)`. Otherwise the split holding it collapses, the
    /// focus moves to the tab's first pane if it was on `id`, zoom ends, and
    /// the result is `Pane(id)`.
    pub fn close_pane(&mut self, id: PaneId) -> (r: CloseResult)
        requires
            old(self).wf(),
        ensures
            final(self).wf(),
            final(self).next_pane_id() == old(self).next_pane_id(),
            (forall|i: int|
                0 <= i < old(self).tabs().len() ==> !old(self).tabs()[i].root.leaves().contains(id))
                ==> r == CloseResult::Pane(id) && final(self).tabs() == old(self).tabs()
                && final(self).active_index() == old(self).active_index(),
            forall|ti: int|
                0 <= ti < old(self).tabs().len() && old(self).tabs()[ti].root.leaves().contains(id)
                    ==> match old(self).tabs()[ti].root.remove_spec(id) {
                    None => {
                        &&& final(self).tabs() == old(self).tabs().remove(ti)
                        &&& r == (if final(self).tabs().len() == 0 {
                            CloseResult::LastPane(id)
                        } else {
                            CloseResult::Tab(id)
                        })
                        &&& final(self).tabs().len() > 0 ==> final(self).active_index() == (
                        if old(self).active_index() > ti {
                            old(self).active_index() - 1
                        } else if old(self).active_index() == ti && old(self).active_index()
                            >= final(self).tabs().len() {
                            final(self).tabs().len() - 1
                        } else {
                            old(self).active_index()
                        })
                    },
                    Some(m) => {
                        &&& r == CloseResult::Pane(id)
                        &&& final(self).active_index() == old(self).active_index()
                        &&& final(self).tabs() == old(self).tabs().update(
                            ti,
                            (Tab {
                                root: m,
                                active: if old(self).tabs()[ti].active == id {
                                    m.leaves()[0]
                                } else {
                                    old(self).tabs()[ti].active
                                },
                                zoomed: None,
                            }),
                        )
                    },
                },
    {
        let found = self.find_tab(id);
        let ti = match found {
            None => {
                return CloseResult::Pane(id);
            },
            Some(ti) => ti,
        };
        proof {
            assert forall|tj: int|
                0 <= tj < old(self).tabs().len() && old(self).tabs()[tj].root.leaves().contains(
                    id,
                ) implies tj == ti by {
                if tj != ti {
                    assert(old(self).tabs()[ti as int].root.leaves().contains(id));
                }
            }
        }
        let t = self.tabs.remove(ti);
        let Tab { root, active, zoomed: _ } = t;
        let ghost r0 = root;
        proof {
            lemma_remove_leaves(r0, id);
            lemma_tabs_ok_remove(old(self).tabs(), ti as int, self.next_id);
        }
        match root.remove_leaf(id) {
            None => {
                if self.tabs.len() == 0 {
                    return CloseResult::LastPane(id);
                }
                if self.active_tab > ti {
                    self.active_tab = self.active_tab - 1;
                } else if self.active_tab == ti && self.active_tab >= self.tabs.len() {
                    self.active_tab = self.tabs.len() - 1;
                }
                CloseResult::Tab(id)
            },
            Some(new_root) => {
                let na = new_root.first_leaf();
                let a2 = if active == id {
                    na
                } else {
                    active
                };
                let nt = Tab { root: new_root, active: a2, zoomed: None };
                proof {
                    let l0 = r0.leaves();
                    let l1 = new_root.leaves();
                    assert forall|x: PaneId| l1.contains(x) implies l0.contains(x) || (self.next_id
                        <= x < self.next_id) by {
                        lemma_without_contains(l0, id, x);
                    }
                    if active != id {
                        lemma_without_contains(l0, id, active);
                    }
                    lemma_tabs_ok_update(old(self).tabs(), ti as int, nt, self.next_id, self.next_id);
                    assert(self.tabs@.insert(ti as int, nt) =~= old(self).tabs().update(
                        ti as int,
                        nt,
                    ));
                }
                self.tabs.insert(ti, nt);
                CloseResult::Pane(id)
            },
        }
    }

    /// Closes the focused pane of the active tab (see [`Mux::close_pane`]).
    pub fn close_active(&mut self) -> (r: CloseResult)
        requires
            old(self).wf(),
            old(self).tabs().len() > 0,
        ensures
            final(self).wf(),
            final(self).next_pane_id() == old(self).next_pane_id(),
            match old(self).cur().root.remove_spec(old(self).cur().active) {
                None => {
                    &&& final(self).tabs() == old(self).tabs().remove(old(self).active_index())
                    &&& r == (if final(self).tabs().len() == 0 {
                        CloseResult::LastPane(old(self).cur().active)
                    } else {
                        CloseResult::Tab(old(self).cur().active)
                    })
                    &&& final(self).tabs().len() > 0 ==> final(self).active_index() == (
                    if old(self).active_index() >= final(self).tabs().len() {
                        final(self).tabs().len() - 1
                    } else {
                        old(self).active_index()
                    })
                },
                Some(m) => {
                    &&& r == CloseResult::Pane(old(self).cur().active)
                    &&& final(self).active_index() == old(self).active_index()
                    &&& final(self).tabs() == old(self).tabs().update(
                        old(self).active_index(),
                        (Tab { root: m, active: m.leaves()[0], zoomed: None }),
                    )
                },
            },
    {
        let id = self.active_pane();
        proof {
            assert(old(self).tabs()[old(self).active_index()].root.leaves().contains(id));
        }
        self.close_pane(id)
    }

    /// Closes the active tab. Returns its panes and whether it was the last
    /// tab (the application should then exit).
    pub fn close_tab(&mut self) -> (r: (Vec<PaneId>, bool))
        requires
            old(self).wf(),
            old(self).tabs().len() > 0,
        ensures
            final(self).wf(),
            final(self).next_pane_id() == old(self).next_pane_id(),
            r.0@ == old(self).cur().root.leaves(),
            final(self).tabs() == old(self).tabs().remove(old(self).active_index()),
            r.1 == (final(self).tabs().len() == 0),
            final(self).active_index() == if !r.1 && old(self).active_index()
                >= final(self).tabs().len() {
                final(self).tabs().len() - 1
            } else {
                old(self).active_index()
            },
    {
        let ids = self.active_tab_panes();
        let _removed = self.tabs.remove(self.active_tab);
        proof {
            lemma_tabs_ok_remove(old(self).tabs(), old(self).active_index(), self.next_id);
        }
        let last = self.tabs.len() == 0;
        if !last && self.active_tab >= self.tabs.len() {
            self.active_tab = self.tabs.len() - 1;
        }
        (ids, last)
    }

    /// Sets the ratio (an `f32` bit pattern) of the split of the active tab
    /// that `path` leads to (`false` = first child, `true` = second child),
    /// as the application decides while a divider is dragged. Returns
    /// whether the path ends at a split; otherwise nothing changes.
    pub fn set_split_ratio(&mut self, path: &[bool], ratio: u32) -> (r: bool)
        requires
            old(self).wf(),
            old(self).tabs().len() > 0,
        ensures
            final(self).wf(),
            final(self).active_index() == old(self).active_index(),
            final(self).next_pane_id() == old(self).next_pane_id(),
            r == old(self).cur().root.set_ratio_spec(path@, ratio) is Some,
            match old(self).cur().root.set_ratio_spec(path@, ratio) {
                Some(n) => final(self).tabs() == old(self).tabs().update(
                    old(self).active_index(),
                    (Tab { root: n, active: old(self).cur().active, zoomed: old(self).cur().zoomed }),
                ),
                None => final(self).tabs() == old(self).tabs(),
            },
    {
        let ai = self.active_tab;
        let t = self.tabs.remove(ai);
        let Tab { root, active, zoomed } = t;
        let ghost r0 = root;
        proof {
            assert(path@.skip(0) =~= path@);
            lemma_set_ratio_leaves(r0, path@, ratio);
        }
        match root.set_ratio(path, 0, ratio) {
            Ok(n) => {
                let nt = Tab { root: n, active, zoomed };
                proof {
                    lemma_tabs_ok_update(old(self).tabs(), ai as int, nt, self.next_id, self.next_id);
                    assert(self.tabs@.insert(ai as int, nt) =~= old(self).tabs().update(
                        ai as int,
                        nt,
                    ));
                }
                self.tabs.insert(ai, nt);
                true
            },
            Err(n) => {
                let nt = Tab { root: n, active, zoomed };
                proof {
                    assert(self.tabs@.insert(ai as int, nt) =~= old(self).tabs());
                }
                self.tabs.insert(ai, nt);
                false
            },
        }
    }
}

/// Switching to the next tab and then to the previous one comes back to the
/// tab one started from.
pub proof fn law_next_then_prev_tab(len: int, a: int)
    requires
        0 <= a < len,
    ensures
        (if len > 1 {
            let n = (a + 1) % len;
            (n + len - 1) % len
        } else {
            a
        }) == a,
{
    if len > 1 {
        if a + 1 < len {
            assert((a + 1) % len == a + 1) by (nonlinear_arith)
                requires 0 <= a + 1 < len;
            assert((a + 1 + len - 1) % len == a) by (nonlinear_arith)
                requires 0 <= a < len, len > 1;
        } else {
            assert((a + 1) % len == 0) by (nonlinear_arith)
                requires a + 1 == len, len > 1;
            assert((0 + len - 1) % len == a) by (nonlinear_arith)
                requires a == len - 1, len > 1;
        }
    }
}

/// Toggling zoom twice restores the zoom state when it was off or on the
/// focused pane.
pub proof fn law_toggle_zoom_twice(zoomed: Option<PaneId>, active: PaneId)
    requires
        zoomed is None || zoomed == Some(active),
    ensures
        ({
            let once = if zoomed == Some(active) {
                None
            } else {
                Some(active)
            };
            if once == Some(active) {
                None
            } else {
                Some(active)
            }
        }) == zoomed,
{
}

} // verus!
