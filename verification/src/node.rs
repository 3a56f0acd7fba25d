//! The layout tree: a binary tree whose leaves name panes and whose internal
//! nodes name splits, together with the structural edits that grow, resize
//! and shrink it.

use vstd::prelude::*;

use crate::geometry::Axis;
use crate::geometry::RATIO_HALF;

verus! {

/// An opaque identifier for a leaf content region.
#[derive(Clone, Copy, Debug, PartialEq, Eq, Structural, Hash)]
pub struct Pane(pub u64);

/// An opaque identifier for an internal division point of the layout tree.
#[derive(Clone, Copy, Debug, PartialEq, Eq, Structural, Hash)]
pub struct Split(pub u64);

/// A node of the layout tree: either a region divided in two, or a region
/// taken by a single pane. `ratio`, in hundred-thousandths, is the share of
/// the divided space allotted to child `a` (the left or top region) before
/// the gutter is subtracted; child `b` is the right or bottom region.
#[derive(Debug)]
pub enum Node {
    Split { id: Split, axis: Axis, ratio: u32, a: Box<Node>, b: Box<Node> },
    Pane(Pane),
}

/// Every pane named by a leaf of the tree.
pub open spec fn pane_set(n: Node) -> Set<Pane>
    decreases n,
{
    match n {
        Node::Pane(p) => set![p],
        Node::Split { a, b, .. } => pane_set(*a).union(pane_set(*b)),
    }
}

/// Every pane of the tree in depth-first order, child `a` before child `b`.
pub open spec fn pane_seq(n: Node) -> Seq<Pane>
    decreases n,
{
    match n {
        Node::Pane(p) => seq![p],
        Node::Split { a, b, .. } => pane_seq(*a) + pane_seq(*b),
    }
}

/// Every split named by an internal node of the tree.
pub open spec fn split_set(n: Node) -> Set<Split>
    decreases n,
{
    match n {
        Node::Pane(_) => Set::empty(),
        Node::Split { id, a, b, .. } => split_set(*a).union(split_set(*b)).insert(id),
    }
}

/// Whether some leaf of the tree is the pane `p`.
pub open spec fn contains_pane(n: Node, p: Pane) -> bool {
    pane_set(n).contains(p)
}

/// Whether some internal node of the tree carries the split `s`.
pub open spec fn contains_split(n: Node, s: Split) -> bool {
    split_set(n).contains(s)
}

/// No pane labels more than one leaf: within every split, the two children
/// name disjoint sets of panes.
pub open spec fn unique_panes(n: Node) -> bool
    decreases n,
{
    match n {
        Node::Pane(_) => true,
        Node::Split { a, b, .. } => {
            &&& unique_panes(*a)
            &&& unique_panes(*b)
            &&& pane_set(*a).disjoint(pane_set(*b))
        },
    }
}

/// No split labels more than one internal node: within every split, its own
/// identifier is fresh and the two children name disjoint sets of splits.
pub open spec fn unique_splits(n: Node) -> bool
    decreases n,
{
    match n {
        Node::Pane(_) => true,
        Node::Split { id, a, b, .. } => {
            &&& unique_splits(*a)
            &&& unique_splits(*b)
            &&& split_set(*a).disjoint(split_set(*b))
            &&& !split_set(*a).contains(id)
            &&& !split_set(*b).contains(id)
        },
    }
}

/// The pane of a leaf, or nothing for a split.
pub open spec fn spec_pane(n: Node) -> Option<Pane> {
    match n {
        Node::Pane(p) => Some(p),
        Node::Split { .. } => None,
    }
}

/// The leftmost (topmost) pane of the tree: the leaf reached by always
/// descending into child `a`.
pub open spec fn spec_first_pane(n: Node) -> Pane
    decreases n,
{
    match n {
        Node::Pane(p) => p,
        Node::Split { a, .. } => spec_first_pane(*a),
    }
}

/// The subtree rooted at the first internal node carrying the split `s`,
/// searching the node itself, then child `a`, then child `b`.
pub open spec fn locate_split(n: Node, s: Split) -> Option<Node>
    decreases n,
{
    match n {
        Node::Pane(_) => None,
        Node::Split { id, a, b, .. } => {
            if id == s {
                Some(n)
            } else if locate_split(*a, s) is Some {
                locate_split(*a, s)
            } else {
                locate_split(*b, s)
            }
        },
    }
}

/// The tree after the first leaf taken by `pane` (searching child `a` before
/// child `b`) is replaced by `repl`; a tree without that pane is left as it
/// is.
pub open spec fn replace_pane(n: Node, pane: Pane, repl: Node) -> Node
    decreases n,
{
    match n {
        Node::Pane(p) => {
            if p == pane {
                repl
            } else {
                n
            }
        },
        Node::Split { id, axis, ratio, a, b } => {
            if contains_pane(*a, pane) {
                Node::Split { id, axis, ratio, a: Box::new(replace_pane(*a, pane, repl)), b }
            } else if contains_pane(*b, pane) {
                Node::Split { id, axis, ratio, a, b: Box::new(replace_pane(*b, pane, repl)) }
            } else {
                n
            }
        },
    }
}

/// The tree after the first internal node carrying the split `s` (the node
/// itself, then child `a`, then child `b`) is replaced by `repl`; a tree
/// without that split is left as it is.
pub open spec fn replace_split(n: Node, s: Split, repl: Node) -> Node
    decreases n,
{
    match n {
        Node::Pane(_) => n,
        Node::Split { id, axis, ratio, a, b } => {
            if id == s {
                repl
            } else if contains_split(*a, s) {
                Node::Split { id, axis, ratio, a: Box::new(replace_split(*a, s, repl)), b }
            } else if contains_split(*b, s) {
                Node::Split { id, axis, ratio, a, b: Box::new(replace_split(*b, s, repl)) }
            } else {
                n
            }
        },
    }
}

/// The tree after overwriting the ratio of the first internal node carrying
/// the split `s` (the node itself, then child `a`, then child `b`); a tree
/// without that split is left as it is.
pub open spec fn spec_resize(n: Node, s: Split, percentage: u32) -> Node
    decreases n,
{
    match n {
        Node::Pane(_) => n,
        Node::Split { id, axis, ratio, a, b } => {
            if id == s {
                Node::Split { id, axis, ratio: percentage, a, b }
            } else if contains_split(*a, s) {
                Node::Split { id, axis, ratio, a: Box::new(spec_resize(*a, s, percentage)), b }
            } else if contains_split(*b, s) {
                Node::Split { id, axis, ratio, a, b: Box::new(spec_resize(*b, s, percentage)) }
            } else {
                n
            }
        },
    }
}

/// The collapse that removes the pane `p`, together with the pane reported in
/// its place: at the split whose child is exactly the leaf `p`, the split is
/// replaced by its other child, and the leftmost pane of that child is
/// reported. Nothing is removed from a tree whose root is a leaf, or where
/// the pane is absent.
pub open spec fn spec_remove(n: Node, p: Pane) -> Option<(Node, Pane)>
    decreases n,
{
    match n {
        Node::Pane(_) => None,
        Node::Split { id, axis, ratio, a, b } => {
            if *a == Node::Pane(p) {
                Some((*b, spec_first_pane(*b)))
            } else if *b == Node::Pane(p) {
                Some((*a, spec_first_pane(*a)))
            } else if spec_remove(*a, p) is Some {
                let (na, q) = spec_remove(*a, p).unwrap();
                Some((Node::Split { id, axis, ratio, a: Box::new(na), b }, q))
            } else if spec_remove(*b, p) is Some {
                let (nb, q) = spec_remove(*b, p).unwrap();
                Some((Node::Split { id, axis, ratio, a, b: Box::new(nb) }, q))
            } else {
                None
            }
        },
    }
}

/// The offset a content hash starts from.
pub const HASH_SEED: u64 = 0xcbf2_9ce4_8422_2325;

/// The multiplier a content hash folds each value in with.
pub const HASH_PRIME: u64 = 0x0000_0100_0000_01b3;

/// One step of the content hash: the next value folded into the running hash.
pub open spec fn spec_mix(h: u64, v: u64) -> u64 {
    (((h ^ v) as nat * HASH_PRIME as nat) % 0x1_0000_0000_0000_0000nat) as u64
}

/// The tag a node variant contributes to the content hash.
pub open spec fn spec_axis_tag(axis: Axis) -> u64 {
    match axis {
        Axis::Horizontal => 0,
        Axis::Vertical => 1,
    }
}

/// The content hash of the tree: a leaf hashes by its pane alone; a split
/// folds in its identifier, axis, ratio and the hashes of both children.
/// Because ratios are already held in hundred-thousandths, hashing the ratio
/// as it is quantizes at exactly that precision: layouts recomputed with
/// negligible drift in their ratios keep the same hash.
pub open spec fn spec_hash(n: Node) -> u64
    decreases n,
{
    match n {
        Node::Pane(p) => spec_mix(spec_mix(HASH_SEED, 1), p.0),
        Node::Split { id, axis, ratio, a, b } => spec_mix(
            spec_mix(
                spec_mix(
                    spec_mix(
                        spec_mix(spec_mix(HASH_SEED, 2), id.0),
                        spec_axis_tag(axis),
                    ),
                    ratio as u64,
                ),
                spec_hash(*a),
            ),
            spec_hash(*b),
        ),
    }
}

/// Whether `after` is a tree the transform `f` can turn `before` into when it
/// is applied to every node bottom up: children are rewritten first, then the
/// node rebuilt from the rewritten children is handed to `f` itself.
pub open spec fn spec_updated<F: Fn(Node) -> Node>(f: F, before: Node, after: Node) -> bool
    decreases before,
{
    match before {
        Node::Pane(_) => call_ensures(f, (before,), after),
        Node::Split { id, axis, ratio, a, b } => exists|na: Node, nb: Node|
            {
                &&& spec_updated(f, *a, na)
                &&& spec_updated(f, *b, nb)
                &&& #[trigger] call_ensures(
                    f,
                    (Node::Split { id, axis, ratio, a: Box::new(na), b: Box::new(nb) },),
                    after,
                )
            },
    }
}

/// The tree after replacing the first leaf taken by `pane` (searching child
/// `a` before child `b`) with an even split whose first child is that leaf
/// and whose second child is `new_node`; a tree without that pane is left as
/// it is.
pub open spec fn spec_split_at(n: Node, pane: Pane, id: Split, axis: Axis, new_node: Node) -> Node
    decreases n,
{
    match n {
        Node::Pane(p) => {
            if p == pane {
                Node::Split {
                    id,
                    axis,
                    ratio: RATIO_HALF,
                    a: Box::new(n),
                    b: Box::new(new_node),
                }
            } else {
                n
            }
        },
        Node::Split { id: own, axis: own_axis, ratio, a, b } => {
            if contains_pane(*a, pane) {
                Node::Split {
                    id: own,
                    axis: own_axis,
                    ratio,
                    a: Box::new(spec_split_at(*a, pane, id, axis, new_node)),
                    b,
                }
            } else if contains_pane(*b, pane) {
                Node::Split {
                    id: own,
                    axis: own_axis,
                    ratio,
                    a,
                    b: Box::new(spec_split_at(*b, pane, id, axis, new_node)),
                }
            } else {
                n
            }
        },
    }
}

/// Splitting at a pane the tree does not contain leaves the tree as it is.
pub proof fn lemma_split_at_absent(n: Node, pane: Pane, id: Split, axis: Axis, new_node: Node)
    requires
        !contains_pane(n, pane),
    ensures
        spec_split_at(n, pane, id, axis, new_node) == n,
{
}

/// Resizing a split that the tree does not contain leaves the tree as it is.
pub proof fn lemma_resize_absent(n: Node, s: Split, percentage: u32)
    requires
        !contains_split(n, s),
    ensures
        spec_resize(n, s, percentage) == n,
    decreases n,
{
}

/// The search for a split succeeds exactly when the tree contains it.
pub proof fn lemma_locate_split_some(n: Node, s: Split)
    ensures
        locate_split(n, s) is Some <==> contains_split(n, s),
    decreases n,
{
    match n {
        Node::Pane(_) => {},
        Node::Split { id, a, b, .. } => {
            lemma_locate_split_some(*a, s);
            lemma_locate_split_some(*b, s);
        },
    }
}

impl Node {
    /// The pane taken by this node, if it is a leaf.
    pub fn pane(&self) -> (r: Option<Pane>)
        ensures
            r == spec_pane(*self),
    {
        match self {
            Node::Split { .. } => None,
            Node::Pane(pane) => Some(*pane),
        }
    }

    /// The leftmost (topmost) pane of this subtree.
    pub fn first_pane(&self) -> (r: Pane)
        ensures
            r == spec_first_pane(*self),
        decreases self,
    {
        match self {
            Node::Split { a, .. } => a.first_pane(),
            Node::Pane(pane) => *pane,
        }
    }

    /// Whether some leaf of this subtree is the pane.
    pub fn has_pane(&self, pane: Pane) -> (r: bool)
        ensures
            r == contains_pane(*self, pane),
        decreases self,
    {
        match self {
            Node::Pane(p) => *p == pane,
            Node::Split { a, b, .. } => a.has_pane(pane) || b.has_pane(pane),
        }
    }

    /// Searches the tree depth first, child `a` before child `b`, for the
    /// leaf taken by `pane`, to mutate it in place: the found node is exactly
    /// that leaf, the search succeeds exactly when the pane is present, and
    /// whatever the caller makes of the returned node takes the leaf's place
    /// in the tree.
    pub fn find_mut(&mut self, pane: Pane) -> (r: Option<&mut Node>)
        ensures
            match r {
                Some(m) => {
                    &&& contains_pane(*old(self), pane)
                    &&& *m == Node::Pane(pane)
                    &&& *final(self) == replace_pane(*old(self), pane, *final(m))
                },
                None => !contains_pane(*old(self), pane) && *final(self) == *old(self),
            },
        decreases *old(self),
    {
        match self {
            Node::Pane(p) => {
                if *p == pane {
                    Some(self)
                } else {
                    None
                }
            },
            Node::Split { a, b, .. } => {
                if a.has_pane(pane) {
                    a.find_mut(pane)
                } else {
                    b.find_mut(pane)
                }
            },
        }
    }

    /// Searches the tree depth first, child `a` before child `b`, for the
    /// leaf taken by `pane`: the found node is always exactly that leaf, and
    /// the search succeeds exactly when the pane is present.
    pub fn find(&self, pane: Pane) -> (r: Option<&Node>)
        ensures
            match r {
                Some(n) => contains_pane(*self, pane) && *n == Node::Pane(pane),
                None => !contains_pane(*self, pane),
            },
        decreases self,
    {
        match self {
            Node::Split { a, b, .. } => {
                let in_a = a.find(pane);
                if in_a.is_some() {
                    in_a
                } else {
                    b.find(pane)
                }
            },
            Node::Pane(p) => {
                if *p == pane {
                    Some(self)
                } else {
                    None
                }
            },
        }
    }

    /// Whether some internal node of this subtree carries the split.
    pub fn has_split(&self, split: Split) -> (r: bool)
        ensures
            r == contains_split(*self, split),
        decreases self,
    {
        match self {
            Node::Pane(_) => false,
            Node::Split { id, a, b, .. } => *id == split || a.has_split(split) || b.has_split(
                split,
            ),
        }
    }

    /// Searches the tree depth first, the node itself before child `a` before
    /// child `b`, for the internal node carrying `split`, to mutate it in
    /// place: the found node is the subtree rooted at that split, the search
    /// succeeds exactly when the split is present, and whatever the caller
    /// makes of the returned node takes that subtree's place in the tree.
    pub fn find_split_mut(&mut self, split: Split) -> (r: Option<&mut Node>)
        ensures
            match r {
                Some(m) => {
                    &&& contains_split(*old(self), split)
                    &&& *m == locate_split(*old(self), split).unwrap()
                    &&& *final(self) == replace_split(*old(self), split, *final(m))
                },
                None => !contains_split(*old(self), split) && *final(self) == *old(self),
            },
        decreases *old(self),
    {
        proof {
            lemma_locate_split_some(*self, split);
        }
        let is_target = match &*self {
            Node::Split { id, .. } => *id == split,
            _ => false,
        };
        if is_target {
            return Some(self);
        }
        match self {
            Node::Split { a, b, .. } => {
                proof {
                    lemma_locate_split_some(**a, split);
                    lemma_locate_split_some(**b, split);
                }
                if a.has_split(split) {
                    a.find_split_mut(split)
                } else {
                    b.find_split_mut(split)
                }
            },
            Node::Pane(_) => None,
        }
    }

    /// Searches the tree depth first, the node itself before child `a` before
    /// child `b`, for the internal node carrying `split`: the search succeeds
    /// exactly when the split is present.
    pub fn find_split(&self, split: Split) -> (r: Option<&Node>)
        ensures
            match r {
                Some(n) => contains_split(*self, split) && *n == locate_split(
                    *self,
                    split,
                ).unwrap(),
                None => !contains_split(*self, split),
            },
        decreases self,
    {
        proof {
            lemma_locate_split_some(*self, split);
        }
        match self {
            Node::Split { id, a, b, .. } => {
                if *id == split {
                    Some(self)
                } else {
                    proof {
                        lemma_locate_split_some(**a, split);
                        lemma_locate_split_some(**b, split);
                    }
                    let in_a = a.find_split(split);
                    if in_a.is_some() {
                        in_a
                    } else {
                        b.find_split(split)
                    }
                }
            },
            Node::Pane(_) => None,
        }
    }

    /// Replaces this node by a split of its region: child `a` is a copy of
    /// what the node was immediately before the call, child `b` is the given
    /// new node, and the space is divided evenly to begin with.
    pub fn split(&mut self, id: Split, axis: Axis, new_node: Node)
        ensures
            *final(self) == (Node::Split {
                id,
                axis,
                ratio: RATIO_HALF,
                a: Box::new(*old(self)),
                b: Box::new(new_node),
            }),
    {
        *self = Node::Split {
            id,
            axis,
            ratio: RATIO_HALF,
            a: Box::new(self.clone()),
            b: Box::new(new_node),
        };
    }

    /// Splits the region of the first leaf taken by `pane` (searching child
    /// `a` before child `b`): the leaf becomes an even split holding itself
    /// and a copy of `new_node`, and whether the pane was found is reported;
    /// a tree without that pane is left untouched.
    pub fn split_pane(&mut self, pane: Pane, id: Split, axis: Axis, new_node: &Node) -> (done: bool)
        ensures
            done == contains_pane(*old(self), pane),
            *final(self) == spec_split_at(*old(self), pane, id, axis, *new_node),
        decreases *old(self),
    {
        let is_target = match &*self {
            Node::Pane(p) => *p == pane,
            _ => false,
        };
        if is_target {
            self.split(id, axis, new_node.clone());
            return true;
        }
        match self {
            Node::Split { a, b, .. } => {
                if a.split_pane(pane, id, axis, new_node) {
                    true
                } else {
                    proof {
                        lemma_split_at_absent(**a, pane, id, axis, *new_node);
                    }
                    b.split_pane(pane, id, axis, new_node)
                }
            },
            Node::Pane(_) => false,
        }
    }

    /// Overwrites the ratio of the first internal node carrying `split` (the
    /// node itself, then child `a`, then child `b`) and reports whether such a
    /// node was found; a tree without that split is left untouched. The
    /// percentage is taken as given, in hundred-thousandths.
    pub fn resize(&mut self, split: Split, percentage: u32) -> (done: bool)
        ensures
            done == contains_split(*old(self), split),
            *final(self) == spec_resize(*old(self), split, percentage),
        decreases *old(self),
    {
        match self {
            Node::Split { id, ratio, a, b, .. } => {
                if *id == split {
                    *ratio = percentage;
                    true
                } else if a.resize(split, percentage) {
                    true
                } else {
                    proof {
                        lemma_resize_absent(**a, split, percentage);
                    }
                    b.resize(split, percentage)
                }
            },
            Node::Pane(_) => false,
        }
    }

    /// Removes the pane: the split whose child is exactly the leaf `pane` is
    /// collapsed into its other child (searching child `a` before child `b`
    /// at every level), and the leftmost pane of that child is returned as
    /// the new first pane. A tree that does not contain the pane — in
    /// particular a tree whose root is its only leaf — is left untouched and
    /// nothing is returned.
    pub fn remove(&mut self, pane: Pane) -> (r: Option<Pane>)
        ensures
            match spec_remove(*old(self), pane) {
                Some((n, q)) => r == Some(q) && *final(self) == n,
                None => r is None && *final(self) == *old(self),
            },
        decreases *old(self),
    {
        match self {
            Node::Split { a, b, .. } => {
                let a_leaf = match a.pane() {
                    Some(q) => q == pane,
                    None => false,
                };
                if a_leaf {
                    let repl = (**b).clone();
                    *self = repl;
                    Some(self.first_pane())
                } else {
                    let b_leaf = match b.pane() {
                        Some(q) => q == pane,
                        None => false,
                    };
                    if b_leaf {
                        let repl = (**a).clone();
                        *self = repl;
                        Some(self.first_pane())
                    } else {
                        let in_a = a.remove(pane);
                        if in_a.is_some() {
                            in_a
                        } else {
                            b.remove(pane)
                        }
                    }
                }
            },
            Node::Pane(_) => None,
        }
    }
}

/// One step of the content hash.
fn mix(h: u64, v: u64) -> (r: u64)
    ensures
        r == spec_mix(h, v),
{
    (h ^ v).wrapping_mul(HASH_PRIME)
}

impl Node {
    /// The content hash of the tree, for detecting layout changes cheaply:
    /// two structurally equal trees hash alike, and ratios take part at the
    /// precision they are held in (hundred-thousandths).
    pub fn hash(&self) -> (r: u64)
        ensures
            r == spec_hash(*self),
        decreases self,
    {
        match self {
            Node::Pane(p) => mix(mix(HASH_SEED, 1), p.0),
            Node::Split { id, axis, ratio, a, b } => {
                let tag = match axis {
                    Axis::Horizontal => 0,
                    Axis::Vertical => 1,
                };
                let h = mix(mix(mix(mix(HASH_SEED, 2), id.0), tag), *ratio as u64);
                mix(mix(h, a.hash()), b.hash())
            },
        }
    }

    /// Applies the transform to every node of the tree, children before
    /// parent and the root included, rebuilding each split from its rewritten
    /// children before handing it on.
    pub fn update<F: Fn(Node) -> Node + Copy>(&mut self, f: F)
        requires
            forall|n: Node| #[trigger] call_requires(f, (n,)),
        ensures
            spec_updated(f, *old(self), *final(self)),
        decreases *old(self),
    {
        let mut taken = Node::Pane(Pane(0));
        core::mem::swap(self, &mut taken);
        match taken {
            Node::Split { id, axis, ratio, mut a, mut b } => {
                let ghost a0 = *a;
                let ghost b0 = *b;
                a.update(f);
                b.update(f);
                let ghost na = *a;
                let ghost nb = *b;
                let rebuilt = Node::Split { id, axis, ratio, a, b };
                let result = f(rebuilt);
                proof {
                    assert(spec_updated(f, a0, na));
                    assert(spec_updated(f, b0, nb));
                    assert(call_ensures(
                        f,
                        (Node::Split { id, axis, ratio, a: Box::new(na), b: Box::new(nb) },),
                        result,
                    ));
                    assert(*old(self) == (Node::Split {
                        id,
                        axis,
                        ratio,
                        a: Box::new(a0),
                        b: Box::new(b0),
                    }));
                    assert(spec_updated(f, *old(self), result));
                }
                *self = result;
            },
            leaf => {
                *self = f(leaf);
            },
        }
    }
}

impl Clone for Node {
    /// An exact structural copy of the tree.
    fn clone(&self) -> (r: Node)
        ensures
            r == *self,
        decreases self,
    {
        match self {
            Node::Split { id, axis, ratio, a, b } => Node::Split {
                id: *id,
                axis: *axis,
                ratio: *ratio,
                a: Box::new((&**a).clone()),
                b: Box::new((&**b).clone()),
            },
            Node::Pane(p) => Node::Pane(*p),
        }
    }
}

} // verus!
