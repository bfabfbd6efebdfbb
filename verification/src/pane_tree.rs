//! The split tree of one tab: panes named by `PaneId`, splits carrying a
//! direction and the first child's share (as the bit pattern of an `f32`).

use vstd::prelude::*;
use crate::seqs::{insert_after, lemma_contains_concat, lemma_insert_after_concat};

verus! {

/// Identifier of a pane, unique across all tabs.
#[derive(Debug, Clone, Copy, PartialEq, Eq, Hash, Structural)]
pub struct PaneId(pub u32);

/// Direction of a split.
#[derive(Debug, Clone, Copy, PartialEq, Eq, Structural)]
pub enum SplitDirection {
    Horizontal,
    Vertical,
}

/// The bit pattern of the `f32` value `0.5`, the share of a fresh split.
pub const EVEN_RATIO: u32 = 0x3f00_0000;

/// A node of the split tree.
#[derive(Debug)]
pub enum PaneNode {
    Leaf(PaneId),
    Split { direction: SplitDirection, ratio: u32, first: Box<PaneNode>, second: Box<PaneNode> },
}

impl PaneNode {
    /// The panes of the subtree, first child before second.
    pub open spec fn leaves(self) -> Seq<PaneId>
        decreases self,
    {
        match self {
            PaneNode::Leaf(id) => seq![id],
            PaneNode::Split { first, second, .. } => first.leaves() + second.leaves(),
        }
    }

    /// The subtree with its first leaf `target` replaced by an even split of
    /// `target` (first) and `new_id` (second); the flag says whether
    /// `target` was found.
    pub open spec fn split_spec(self, target: PaneId, direction: SplitDirection, new_id: PaneId) -> (
        PaneNode,
        bool,
    )
        decreases self,
    {
        match self {
            PaneNode::Leaf(id) => {
                if id == target {
                    (
                        PaneNode::Split {
                            direction,
                            ratio: EVEN_RATIO,
                            first: Box::new(PaneNode::Leaf(id)),
                            second: Box::new(PaneNode::Leaf(new_id)),
                        },
                        true,
                    )
                } else {
                    (self, false)
                }
            },
            PaneNode::Split { direction: d, ratio, first, second } => {
                let (f, done) = first.split_spec(target, direction, new_id);
                if done {
                    (PaneNode::Split { direction: d, ratio, first: Box::new(f), second }, true)
                } else {
                    let (s, done2) = second.split_spec(target, direction, new_id);
                    (PaneNode::Split { direction: d, ratio, first, second: Box::new(s) }, done2)
                }
            },
        }
    }

    /// Appends the panes of the subtree to `out`.
    fn collect(&self, out: &mut Vec<PaneId>)
        ensures
            final(out)@ == old(out)@ + self.leaves(),
        decreases self,
    {
        match self {
            PaneNode::Leaf(id) => {
                out.push(*id);
            },
            PaneNode::Split { first, second, .. } => {
                (**first).collect(out);
                (**second).collect(out);
                proof {
                    assert(final(out)@ =~= old(out)@ + self.leaves());
                }
            },
        }
    }

    /// Replaces the first leaf `target` by an even split of `target` and
    /// `new_id`; the flag says whether `target` was found.
    fn split_leaf(self, target: PaneId, direction: SplitDirection, new_id: PaneId) -> (r: (
        PaneNode,
        bool,
    ))
        ensures
            r == self.split_spec(target, direction, new_id),
        decreases self,
    {
        match self {
            PaneNode::Leaf(id) => {
                if id == target {
                    (
                        PaneNode::Split {
                            direction,
                            ratio: EVEN_RATIO,
                            first: Box::new(PaneNode::Leaf(id)),
                            second: Box::new(PaneNode::Leaf(new_id)),
                        },
                        true,
                    )
                } else {
                    (PaneNode::Leaf(id), false)
                }
            },
            PaneNode::Split { direction: d, ratio, first, second } => {
                let (f, done) = (*first).split_leaf(target, direction, new_id);
                proof {
                    lemma_split_spec(*first, target, direction, new_id);
                }
                if done {
                    (PaneNode::Split { direction: d, ratio, first: Box::new(f), second }, true)
                } else {
                    let (s, done2) = (*second).split_leaf(target, direction, new_id);
                    (
                        PaneNode::Split { direction: d, ratio, first: Box::new(f), second: Box::new(s) },
                        done2,
                    )
                }
            },
        }
    }
}

/// Splitting finds `target` exactly when it is a pane of the subtree; the
/// panes then become the old ones with `new_id` right after `target`, and
/// otherwise the subtree is unchanged.
pub proof fn lemma_split_spec(n: PaneNode, target: PaneId, direction: SplitDirection, new_id: PaneId)
    ensures
        n.split_spec(target, direction, new_id).1 == n.leaves().contains(target),
        n.split_spec(target, direction, new_id).1 ==> n.split_spec(target, direction, new_id).0.leaves()
            == insert_after(n.leaves(), target, new_id),
        !n.split_spec(target, direction, new_id).1 ==> n.split_spec(target, direction, new_id).0 == n,
    decreases n,
{
    match n {
        PaneNode::Leaf(id) => {
            if id == target {
                assert(seq![id].drop_first() =~= Seq::<PaneId>::empty());
                assert(insert_after(seq![id], target, new_id) == seq![target, new_id]
                    + seq![id].drop_first());
                assert(seq![target, new_id] + Seq::<PaneId>::empty() =~= seq![id] + seq![new_id]);
                let r = n.split_spec(target, direction, new_id).0;
                assert(r.leaves() == PaneNode::Leaf(id).leaves() + PaneNode::Leaf(new_id).leaves());
            } else {
                assert(!n.leaves().contains(target)) by {
                    if n.leaves().contains(target) {
                        let j = choose|j: int| 0 <= j < n.leaves().len() && n.leaves()[j] == target;
                        assert(j == 0);
                    }
                }
            }
        },
        PaneNode::Split { first, second, .. } => {
            lemma_split_spec(*first, target, direction, new_id);
            lemma_split_spec(*second, target, direction, new_id);
            lemma_contains_concat(first.leaves(), second.leaves(), target);
            lemma_insert_after_concat(first.leaves(), second.leaves(), target, new_id);
        },
    }
}

/// Trees with the same root are equal.
pub proof fn lemma_tree_eq(a: PaneTree, b: PaneTree)
    requires
        a.root_spec() == b.root_spec(),
    ensures
        a == b,
{
}

/// The split tree of a tab.
#[derive(Debug)]
pub struct PaneTree {
    root: PaneNode,
}

impl PaneTree {
    /// The root node.
    pub closed spec fn root_spec(&self) -> PaneNode {
        self.root
    }

    /// The panes of the tree, in order.
    pub open spec fn leaves(&self) -> Seq<PaneId> {
        self.root_spec().leaves()
    }

    /// A tree of one pane.
    pub fn with_initial_pane(id: PaneId) -> (r: PaneTree)
        ensures
            r.root_spec() == PaneNode::Leaf(id),
            r.leaves() == seq![id],
    {
        PaneTree { root: PaneNode::Leaf(id) }
    }

    /// The tree with the given root.
    pub fn from_node(node: PaneNode) -> (r: PaneTree)
        ensures
            r.root_spec() == node,
    {
        PaneTree { root: node }
    }

    /// The root node.
    pub fn root_node(&self) -> (r: &PaneNode)
        ensures
            *r == self.root_spec(),
    {
        &self.root
    }

    /// Splits pane `target` evenly, `new_id` becoming its second half;
    /// `false`, with the tree unchanged, when `target` is not a pane of it.
    pub fn split(&mut self, target: PaneId, direction: SplitDirection, new_id: PaneId) -> (r: bool)
        ensures
            r == old(self).leaves().contains(target),
            final(self).root_spec() == old(self).root_spec().split_spec(target, direction, new_id).0,
            r ==> final(self).leaves() == insert_after(old(self).leaves(), target, new_id),
            !r ==> *final(self) == *old(self),
    {
        let mut root = PaneNode::Leaf(target);
        std::mem::swap(&mut root, &mut self.root);
        let (n, done) = root.split_leaf(target, direction, new_id);
        proof {
            lemma_split_spec(root, target, direction, new_id);
        }
        self.root = n;
        done
    }

    /// The panes of the tree, in order.
    pub fn pane_ids(&self) -> (r: Vec<PaneId>)
        ensures
            r@ == self.leaves(),
    {
        let mut out: Vec<PaneId> = Vec::new();
        self.root.collect(&mut out);
        proof {
            assert(out@ =~= self.leaves());
        }
        out
    }

    /// Number of panes.
    pub fn pane_count(&self) -> (r: usize)
        ensures
            r == self.leaves().len(),
    {
        self.pane_ids().len()
    }
}

} // verus!
