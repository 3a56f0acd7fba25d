//! Geometry projection: the read-only folds of a layout tree against a
//! viewport rectangle that give every pane and every split its region, and
//! the work-list traversal that lists every split identifier.

use vstd::prelude::*;

use crate::geometry::Axis;
use crate::geometry::Rect;
use crate::geometry::Size;
use crate::geometry::lemma_split_within;
use crate::geometry::spec_split;
use crate::node::Node;
use crate::node::Pane;
use crate::node::Split;

verus! {

/// The whole viewport as a rectangle at the origin.
pub open spec fn full_rect(size: Size) -> Rect {
    Rect { x: 0, y: 0, width: size.width, height: size.height }
}

/// The panes of the tree with their regions, in depth-first order (child `a`
/// before child `b`): at every split the current rectangle is divided along
/// the split's axis, and every leaf records the rectangle it ends up with.
pub open spec fn spec_region_seq(n: Node, spacing: u32, current: Rect) -> Seq<(Pane, Rect)>
    decreases n,
{
    match n {
        Node::Pane(p) => seq![(p, current)],
        Node::Split { axis, ratio, a, b, .. } => {
            let (ra, rb) = spec_split(axis, current, ratio, spacing);
            spec_region_seq(*a, spacing, ra) + spec_region_seq(*b, spacing, rb)
        },
    }
}

/// The splits of the tree, each with its axis, the undivided rectangle of its
/// whole subtree, and its ratio, in depth-first order (a split before its
/// children, child `a` before child `b`).
pub open spec fn spec_split_seq(n: Node, spacing: u32, current: Rect) -> Seq<
    (Split, (Axis, Rect, u32)),
>
    decreases n,
{
    match n {
        Node::Pane(_) => Seq::empty(),
        Node::Split { id, axis, ratio, a, b } => {
            let (ra, rb) = spec_split(axis, current, ratio, spacing);
            seq![(id, (axis, current, ratio))] + spec_split_seq(*a, spacing, ra) + spec_split_seq(
                *b,
                spacing,
                rb,
            )
        },
    }
}

/// A sequence of keyed entries read as a mapping: a later entry for a key
/// overwrites an earlier one.
pub open spec fn entries_map<K, V>(s: Seq<(K, V)>) -> Map<K, V>
    decreases s.len(),
{
    if s.len() == 0 {
        Map::empty()
    } else {
        entries_map(s.drop_last()).insert(s.last().0, s.last().1)
    }
}

/// The split identifiers of the tree in the order the work-list traversal
/// emits them: a split's identifier first, then the splits of child `b`, then
/// those of child `a`.
pub open spec fn spec_splits(n: Node) -> Seq<Split>
    decreases n,
{
    match n {
        Node::Pane(_) => Seq::empty(),
        Node::Split { id, a, b, .. } => seq![id] + spec_splits(*b) + spec_splits(*a),
    }
}

/// The split identifiers still owed by a stack of pending subtrees, the top
/// of the stack first.
pub open spec fn splits_of_stack(s: Seq<&Node>) -> Seq<Split>
    decreases s.len(),
{
    if s.len() == 0 {
        Seq::empty()
    } else {
        spec_splits(*s.last()) + splits_of_stack(s.drop_last())
    }
}

/// How many nodes the tree holds; the work-list traversal shrinks this bound.
pub open spec fn node_count(n: Node) -> nat
    decreases n,
{
    match n {
        Node::Pane(_) => 1,
        Node::Split { a, b, .. } => 1 + node_count(*a) + node_count(*b),
    }
}

/// The nodes still pending on a stack, counted together.
pub open spec fn stack_count(s: Seq<&Node>) -> nat
    decreases s.len(),
{
    if s.len() == 0 {
        0
    } else {
        node_count(*s.last()) + stack_count(s.drop_last())
    }
}

/// Pushing a pending subtree adds its splits, and its node count, in front of
/// what the stack already owes.
proof fn lemma_stack_push(s: Seq<&Node>, n: &Node)
    ensures
        splits_of_stack(s.push(n)) == spec_splits(*n) + splits_of_stack(s),
        stack_count(s.push(n)) == node_count(*n) + stack_count(s),
{
    assert(s.push(n).drop_last() =~= s);
    assert(s.push(n).last() == n);
}

/// An empty stack owes nothing.
proof fn lemma_stack_empty()
    ensures
        splits_of_stack(Seq::<&Node>::empty()) == Seq::<Split>::empty(),
        stack_count(Seq::<&Node>::empty()) == 0,
{
}

impl Node {
    /// Records, under `regions`, the rectangle of every pane of this subtree
    /// laid out inside `current`.
    fn compute_regions(&self, spacing: u32, current: &Rect, regions: &mut Vec<(Pane, Rect)>)
        requires
            current.fits_coords(),
        ensures
            final(regions)@ == old(regions)@ + spec_region_seq(*self, spacing, *current),
        decreases self,
    {
        match self {
            Node::Split { axis, ratio, a, b, .. } => {
                proof {
                    lemma_split_within(*axis, *current, *ratio, spacing);
                }
                let (region_a, region_b) = axis.split(current, *ratio, spacing);
                a.compute_regions(spacing, &region_a, regions);
                b.compute_regions(spacing, &region_b, regions);
                proof {
                    assert(regions@ =~= old(regions)@ + spec_region_seq(
                        *self,
                        spacing,
                        *current,
                    ));
                }
            },
            Node::Pane(pane) => {
                regions.push((*pane, *current));
                proof {
                    assert(regions@ =~= old(regions)@ + spec_region_seq(
                        *self,
                        spacing,
                        *current,
                    ));
                }
            },
        }
    }

    /// Records, under `splits`, the axis, undivided rectangle and ratio of
    /// every split of this subtree laid out inside `current`.
    fn compute_splits(
        &self,
        spacing: u32,
        current: &Rect,
        splits: &mut Vec<(Split, (Axis, Rect, u32))>,
    )
        requires
            current.fits_coords(),
        ensures
            final(splits)@ == old(splits)@ + spec_split_seq(*self, spacing, *current),
        decreases self,
    {
        match self {
            Node::Split { id, axis, ratio, a, b } => {
                proof {
                    lemma_split_within(*axis, *current, *ratio, spacing);
                }
                let (region_a, region_b) = axis.split(current, *ratio, spacing);
                splits.push((*id, (*axis, *current, *ratio)));
                a.compute_splits(spacing, &region_a, splits);
                b.compute_splits(spacing, &region_b, splits);
                proof {
                    assert(splits@ =~= old(splits)@ + spec_split_seq(*self, spacing, *current));
                }
            },
            Node::Pane(_) => {
                proof {
                    assert(splits@ =~= old(splits)@ + spec_split_seq(*self, spacing, *current));
                }
            },
        }
    }

    /// The rectangular region of every pane of the tree, given the spacing
    /// between panes and the total available space. Each pane present exactly
    /// once in the tree is listed exactly once; read as a mapping, a
    /// duplicated pane keeps its last rectangle.
    pub fn pane_regions(&self, spacing: u32, size: Size) -> (r: Vec<(Pane, Rect)>)
        ensures
            r@ == spec_region_seq(*self, spacing, full_rect(size)),
    {
        let mut regions: Vec<(Pane, Rect)> = Vec::new();
        self.compute_regions(
            spacing,
            &Rect { x: 0, y: 0, width: size.width, height: size.height },
            &mut regions,
        );
        proof {
            assert(regions@ =~= spec_region_seq(*self, spacing, full_rect(size)));
        }
        regions
    }

    /// The axis, undivided rectangular region and ratio of every split of the
    /// tree, given the spacing between panes and the total available space.
    pub fn split_regions(&self, spacing: u32, size: Size) -> (r: Vec<(Split, (Axis, Rect, u32))>)
        ensures
            r@ == spec_split_seq(*self, spacing, full_rect(size)),
    {
        let mut splits: Vec<(Split, (Axis, Rect, u32))> = Vec::new();
        self.compute_splits(
            spacing,
            &Rect { x: 0, y: 0, width: size.width, height: size.height },
            &mut splits,
        );
        proof {
            assert(splits@ =~= spec_split_seq(*self, spacing, full_rect(size)));
        }
        splits
    }

    /// Every split identifier of the tree, by an explicit work list seeded
    /// with the root: each step takes one pending node, and a split yields its
    /// identifier and leaves both children pending. Children are enqueued `a`
    /// then `b` but processed last in first out, so a split's `b` subtree is
    /// visited before its `a` subtree.
    pub fn splits(&self) -> (r: Vec<Split>)
        ensures
            r@ == spec_splits(*self),
    {
        let mut out: Vec<Split> = Vec::new();
        let mut unvisited_nodes: Vec<&Node> = Vec::new();
        unvisited_nodes.push(self);
        proof {
            lemma_stack_empty();
            lemma_stack_push(Seq::<&Node>::empty(), self);
            assert(out@ + splits_of_stack(unvisited_nodes@) =~= spec_splits(*self));
        }
        while unvisited_nodes.len() > 0
            invariant
                out@ + splits_of_stack(unvisited_nodes@) == spec_splits(*self),
            decreases stack_count(unvisited_nodes@),
        {
            let ghost before = unvisited_nodes@;
            let node = unvisited_nodes.pop().unwrap();
            proof {
                assert(before.drop_last().push(before.last()) =~= before);
                lemma_stack_push(before.drop_last(), before.last());
                assert(unvisited_nodes@ =~= before.drop_last());
            }
            match node {
                Node::Split { id, a, b, .. } => {
                    let ghost popped = unvisited_nodes@;
                    out.push(*id);
                    unvisited_nodes.push(&**a);
                    unvisited_nodes.push(&**b);
                    proof {
                        lemma_stack_push(popped, &**a);
                        lemma_stack_push(popped.push(&**a), &**b);
                        assert(unvisited_nodes@ =~= popped.push(&**a).push(&**b));
                        assert(out@ + splits_of_stack(unvisited_nodes@) =~= spec_splits(*self));
                    }
                },
                _ => {
                    proof {
                        assert(out@ + splits_of_stack(unvisited_nodes@) =~= spec_splits(*self));
                    }
                },
            }
        }
        proof {
            lemma_stack_empty();
            assert(unvisited_nodes@ =~= Seq::<&Node>::empty());
            assert(out@ =~= spec_splits(*self));
        }
        out
    }
}

} // verus!
