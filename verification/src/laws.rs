//! The laws the layout engine keeps, proved once and for all: what the
//! projected regions cover, how they nest, and how the structural edits and
//! the projections relate.

use vstd::prelude::*;

use crate::geometry::Axis;
use crate::geometry::Rect;
use crate::geometry::spec_split;
use crate::geometry::lemma_split_tiles;
use crate::geometry::lemma_split_within;
use crate::geometry::RATIO_HALF;
use crate::node::Node;
use crate::node::Pane;
use crate::node::Split;
use crate::node::contains_pane;
use crate::node::contains_split;
use crate::node::pane_seq;
use crate::node::pane_set;
use crate::node::split_set;
use crate::node::spec_first_pane;
use crate::node::spec_remove;
use crate::node::spec_resize;
use crate::node::unique_panes;
use crate::node::unique_splits;
use crate::regions::entries_map;
use crate::regions::spec_region_seq;
use crate::regions::spec_split_seq;
use crate::regions::spec_splits;

verus! {

/// An element is in a concatenation exactly when it is in one of the parts.
pub proof fn lemma_concat_contains<T>(a: Seq<T>, b: Seq<T>, x: T)
    ensures
        (a + b).contains(x) <==> a.contains(x) || b.contains(x),
{
    if a.contains(x) {
        let i = choose|i: int| 0 <= i < a.len() && a[i] == x;
        assert((a + b)[i] == x);
    }
    if b.contains(x) {
        let i = choose|i: int| 0 <= i < b.len() && b[i] == x;
        assert((a + b)[a.len() + i] == x);
    }
    if (a + b).contains(x) {
        let i = choose|i: int| 0 <= i < (a + b).len() && (a + b)[i] == x;
        if i < a.len() {
            assert(a[i] == x);
        } else {
            assert(b[i - a.len()] == x);
        }
    }
}

/// Splitting a leaf and at once removing the new sibling pane restores the
/// original tree exactly, and reports the original subtree's first pane: the
/// round trip of growing by `split` and shrinking by `remove` is the
/// identity, so the restored tree is structurally and hash equal to what it
/// grew from.
pub proof fn lemma_split_then_remove(n: Node, id: Split, axis: Axis, new_pane: Pane)
    requires
        !contains_pane(n, new_pane),
    ensures
        spec_remove(
            Node::Split {
                id,
                axis,
                ratio: RATIO_HALF,
                a: Box::new(n),
                b: Box::new(Node::Pane(new_pane)),
            },
            new_pane,
        ) == Some((n, spec_first_pane(n))),
{
    assert(pane_set(Node::Pane(new_pane)).contains(new_pane));
}

/// Removing the sole pane of a single-leaf tree removes nothing: a tree is
/// never collapsed below one pane, and the caller sees the pane as absent.
pub proof fn lemma_remove_sole_pane(p: Pane)
    ensures
        spec_remove(Node::Pane(p), p) is None,
{
}

/// The work-list traversal names a split exactly when the tree contains it,
/// whatever order it emits identifiers in.
pub proof fn lemma_splits_complete(n: Node)
    ensures
        forall|s: Split| #[trigger] spec_splits(n).contains(s) <==> contains_split(n, s),
        forall|s: Split| spec_splits(n).contains(s) <==> #[trigger] contains_split(n, s),
    decreases n,
{
    match n {
        Node::Pane(_) => {},
        Node::Split { id, a, b, .. } => {
            lemma_splits_complete(*a);
            lemma_splits_complete(*b);
            assert forall|s: Split| spec_splits(n).contains(s) <==> contains_split(n, s) by {
                assert(spec_splits(n) == seq![id] + spec_splits(*b) + spec_splits(*a));
                lemma_concat_contains(seq![id] + spec_splits(*b), spec_splits(*a), s);
                lemma_concat_contains(seq![id], spec_splits(*b), s);
                assert(seq![id][0] == id);
                if s == id {
                    assert(seq![id].contains(s));
                }
                assert(spec_splits(*a).contains(s) <==> contains_split(*a, s));
                assert(spec_splits(*b).contains(s) <==> contains_split(*b, s));
                assert(split_set(n) == split_set(*a).union(split_set(*b)).insert(id));
            }
        },
    }
}

/// The region fold lists exactly the panes of the tree, in depth-first order:
/// one entry for each leaf, keyed by its pane.
pub proof fn lemma_region_seq_panes(n: Node, spacing: u32, rect: Rect)
    ensures
        spec_region_seq(n, spacing, rect).map_values(|e: (Pane, Rect)| e.0) == pane_seq(n),
    decreases n,
{
    let firsts = |e: (Pane, Rect)| e.0;
    match n {
        Node::Pane(p) => {
            assert(spec_region_seq(n, spacing, rect).map_values(firsts) =~= pane_seq(n));
        },
        Node::Split { axis, ratio, a, b, .. } => {
            let (ra, rb) = spec_split(axis, rect, ratio, spacing);
            lemma_region_seq_panes(*a, spacing, ra);
            lemma_region_seq_panes(*b, spacing, rb);
            assert(spec_region_seq(n, spacing, rect).map_values(firsts) =~= pane_seq(n));
        },
    }
}

/// A pane stands in the leaf list exactly when the tree contains it.
pub proof fn lemma_pane_seq_complete(n: Node)
    ensures
        forall|p: Pane| #[trigger] pane_seq(n).contains(p) <==> contains_pane(n, p),
        forall|p: Pane| pane_seq(n).contains(p) <==> #[trigger] contains_pane(n, p),
    decreases n,
{
    match n {
        Node::Pane(q) => {
            assert forall|p: Pane| pane_seq(n).contains(p) <==> contains_pane(n, p) by {
                assert(pane_seq(n)[0] == q);
            }
        },
        Node::Split { a, b, .. } => {
            lemma_pane_seq_complete(*a);
            lemma_pane_seq_complete(*b);
            assert forall|p: Pane| pane_seq(n).contains(p) <==> contains_pane(n, p) by {
                assert(pane_seq(n) == pane_seq(*a) + pane_seq(*b));
                lemma_concat_contains(pane_seq(*a), pane_seq(*b), p);
                assert(pane_seq(*a).contains(p) <==> contains_pane(*a, p));
                assert(pane_seq(*b).contains(p) <==> contains_pane(*b, p));
                assert(pane_set(n) == pane_set(*a).union(pane_set(*b)));
            }
        },
    }
}

/// Under the uniqueness invariant, no pane is listed twice: together with the
/// region fold listing exactly the panes, every distinct pane receives
/// exactly one rectangle.
pub proof fn lemma_pane_seq_distinct(n: Node)
    requires
        unique_panes(n),
    ensures
        forall|i: int, j: int|
            0 <= i < j < pane_seq(n).len() ==> pane_seq(n)[i] != pane_seq(n)[j],
    decreases n,
{
    match n {
        Node::Pane(_) => {},
        Node::Split { a, b, .. } => {
            lemma_pane_seq_distinct(*a);
            lemma_pane_seq_distinct(*b);
            lemma_pane_seq_complete(*a);
            lemma_pane_seq_complete(*b);
            let sa = pane_seq(*a);
            let sb = pane_seq(*b);
            let whole = pane_seq(n);
            assert(whole == sa + sb);
            assert forall|i: int, j: int|
                0 <= i < j < whole.len() implies whole[i] != whole[j] by {
                if j < sa.len() {
                    assert(whole[i] == sa[i] && whole[j] == sa[j]);
                } else if i >= sa.len() {
                    assert(whole[i] == sb[i - sa.len()] && whole[j] == sb[j - sa.len()]);
                } else {
                    assert(whole[i] == sa[i] && whole[j] == sb[j - sa.len()]);
                    assert(sa.contains(sa[i]));
                    assert(sb.contains(sb[j - sa.len()]));
                    assert(pane_set(*a).contains(sa[i]));
                    assert(pane_set(*b).contains(sb[j - sa.len()]));
                }
            }
        },
    }
}

/// Under the uniqueness invariant, no split is listed twice: the traversal
/// yields every split identifier exactly once.
pub proof fn lemma_splits_distinct(n: Node)
    requires
        unique_splits(n),
    ensures
        forall|i: int, j: int|
            0 <= i < j < spec_splits(n).len() ==> spec_splits(n)[i] != spec_splits(n)[j],
    decreases n,
{
    match n {
        Node::Pane(_) => {},
        Node::Split { id, a, b, .. } => {
            lemma_splits_distinct(*a);
            lemma_splits_distinct(*b);
            lemma_splits_complete(*a);
            lemma_splits_complete(*b);
            let sb = spec_splits(*b);
            let sa = spec_splits(*a);
            let whole = spec_splits(n);
            assert(whole == seq![id] + sb + sa);
            assert forall|i: int, j: int|
                0 <= i < j < whole.len() implies whole[i] != whole[j] by {
                if i == 0 {
                    assert(whole[0] == id);
                    if j < 1 + sb.len() {
                        assert(whole[j] == sb[j - 1]);
                        assert(sb.contains(sb[j - 1]));
                        assert(split_set(*b).contains(sb[j - 1]));
                    } else {
                        assert(whole[j] == sa[j - 1 - sb.len()]);
                        assert(sa.contains(sa[j - 1 - sb.len()]));
                        assert(split_set(*a).contains(sa[j - 1 - sb.len()]));
                    }
                } else if j < 1 + sb.len() {
                    assert(whole[i] == sb[i - 1] && whole[j] == sb[j - 1]);
                } else if i >= 1 + sb.len() {
                    assert(whole[i] == sa[i - 1 - sb.len()] && whole[j] == sa[j - 1 - sb.len()]);
                } else {
                    assert(whole[i] == sb[i - 1] && whole[j] == sa[j - 1 - sb.len()]);
                    assert(sb.contains(sb[i - 1]));
                    assert(sa.contains(sa[j - 1 - sb.len()]));
                    assert(split_set(*b).contains(sb[i - 1]));
                    assert(split_set(*a).contains(sa[j - 1 - sb.len()]));
                }
            }
        },
    }
}

/// The areas of a list of pane regions, added up entry by entry.
pub open spec fn sum_areas(s: Seq<(Pane, Rect)>) -> int
    decreases s.len(),
{
    if s.len() == 0 {
        0
    } else {
        sum_areas(s.drop_last()) + s.last().1.area()
    }
}

/// Whether every gutter the layout runs fits in the span it divides: at every
/// split, the spacing is no wider than the divided rectangle's extent along
/// the split axis.
pub open spec fn gutters_fit(n: Node, spacing: u32, rect: Rect) -> bool
    decreases n,
{
    match n {
        Node::Pane(_) => true,
        Node::Split { axis, ratio, a, b, .. } => {
            let (ra, rb) = spec_split(axis, rect, ratio, spacing);
            &&& (match axis {
                Axis::Horizontal => spacing <= rect.height,
                Axis::Vertical => spacing <= rect.width,
            })
            &&& gutters_fit(*a, spacing, ra)
            &&& gutters_fit(*b, spacing, rb)
        },
    }
}

/// The area taken by the gutters of the layout: every split contributes a
/// band of the spacing's width across its rectangle.
pub open spec fn gutter_area(n: Node, spacing: u32, rect: Rect) -> int
    decreases n,
{
    match n {
        Node::Pane(_) => 0,
        Node::Split { axis, ratio, a, b, .. } => {
            let (ra, rb) = spec_split(axis, rect, ratio, spacing);
            (match axis {
                Axis::Horizontal => spacing * rect.width,
                Axis::Vertical => spacing * rect.height,
            }) + gutter_area(*a, spacing, ra) + gutter_area(*b, spacing, rb)
        },
    }
}

/// Summed areas distribute over concatenation.
pub proof fn lemma_sum_areas_concat(a: Seq<(Pane, Rect)>, b: Seq<(Pane, Rect)>)
    ensures
        sum_areas(a + b) == sum_areas(a) + sum_areas(b),
    decreases b.len(),
{
    if b.len() == 0 {
        assert(a + b =~= a);
    } else {
        assert((a + b).drop_last() =~= a + b.drop_last());
        assert((a + b).last() == b.last());
        lemma_sum_areas_concat(a, b.drop_last());
    }
}

/// The pane regions and the gutters together tile the viewport exactly: no
/// area is lost and none is handed out twice, as long as every gutter fits in
/// the span it divides.
pub proof fn lemma_pane_regions_tile(n: Node, spacing: u32, rect: Rect)
    requires
        rect.fits_coords(),
        gutters_fit(n, spacing, rect),
    ensures
        sum_areas(spec_region_seq(n, spacing, rect)) + gutter_area(n, spacing, rect)
            == rect.area(),
    decreases n,
{
    match n {
        Node::Pane(p) => {
            let entries = spec_region_seq(n, spacing, rect);
            assert(entries == seq![(p, rect)]);
            assert(entries.drop_last() =~= Seq::<(Pane, Rect)>::empty());
            assert(sum_areas(Seq::<(Pane, Rect)>::empty()) == 0);
            assert(entries.last() == (p, rect));
            assert(sum_areas(entries) == rect.area());
        },
        Node::Split { axis, ratio, a, b, .. } => {
            let (ra, rb) = spec_split(axis, rect, ratio, spacing);
            lemma_split_within(axis, rect, ratio, spacing);
            lemma_split_tiles(axis, rect, ratio, spacing);
            lemma_pane_regions_tile(*a, spacing, ra);
            lemma_pane_regions_tile(*b, spacing, rb);
            lemma_sum_areas_concat(
                spec_region_seq(*a, spacing, ra),
                spec_region_seq(*b, spacing, rb),
            );
        },
    }
}

/// Every pane region lies inside the viewport, with its far corner still in
/// the coordinate space.
pub proof fn lemma_pane_regions_within(n: Node, spacing: u32, rect: Rect)
    requires
        rect.fits_coords(),
    ensures
        forall|i: int|
            0 <= i < spec_region_seq(n, spacing, rect).len() ==> (#[trigger] spec_region_seq(
                n,
                spacing,
                rect,
            )[i]).1.within(rect) && spec_region_seq(n, spacing, rect)[i].1.fits_coords(),
    decreases n,
{
    match n {
        Node::Pane(_) => {},
        Node::Split { axis, ratio, a, b, .. } => {
            let (ra, rb) = spec_split(axis, rect, ratio, spacing);
            lemma_split_within(axis, rect, ratio, spacing);
            lemma_pane_regions_within(*a, spacing, ra);
            lemma_pane_regions_within(*b, spacing, rb);
            let sa = spec_region_seq(*a, spacing, ra);
            let sb = spec_region_seq(*b, spacing, rb);
            let whole = spec_region_seq(n, spacing, rect);
            assert forall|i: int|
                0 <= i < whole.len() implies (#[trigger] whole[i]).1.within(rect)
                && whole[i].1.fits_coords() by {
                if i < sa.len() {
                    assert(whole[i] == sa[i]);
                } else {
                    assert(whole[i] == sb[i - sa.len()]);
                }
            }
        },
    }
}

/// Two distinct entries of the pane regions never overlap: the regions on the
/// two sides of every split are separated, so each point of the viewport
/// belongs to at most one pane.
pub proof fn lemma_pane_regions_disjoint(n: Node, spacing: u32, rect: Rect)
    requires
        rect.fits_coords(),
    ensures
        forall|i: int, j: int|
            0 <= i < j < spec_region_seq(n, spacing, rect).len() ==> (#[trigger] spec_region_seq(
                n,
                spacing,
                rect,
            )[i]).1.disjoint((#[trigger] spec_region_seq(n, spacing, rect)[j]).1),
    decreases n,
{
    match n {
        Node::Pane(_) => {},
        Node::Split { axis, ratio, a, b, .. } => {
            let (ra, rb) = spec_split(axis, rect, ratio, spacing);
            lemma_split_within(axis, rect, ratio, spacing);
            lemma_pane_regions_disjoint(*a, spacing, ra);
            lemma_pane_regions_disjoint(*b, spacing, rb);
            lemma_pane_regions_within(*a, spacing, ra);
            lemma_pane_regions_within(*b, spacing, rb);
            let sa = spec_region_seq(*a, spacing, ra);
            let sb = spec_region_seq(*b, spacing, rb);
            let whole = spec_region_seq(n, spacing, rect);
            assert forall|i: int, j: int|
                0 <= i < j < whole.len() implies (#[trigger] whole[i]).1.disjoint(
                (#[trigger] whole[j]).1) by {
                if j < sa.len() {
                    assert(whole[i] == sa[i]);
                    assert(whole[j] == sa[j]);
                } else if i >= sa.len() {
                    assert(whole[i] == sb[i - sa.len()]);
                    assert(whole[j] == sb[j - sa.len()]);
                } else {
                    assert(whole[i] == sa[i]);
                    assert(whole[j] == sb[j - sa.len()]);
                    assert(sa[i].1.within(ra));
                    assert(sb[j - sa.len()].1.within(rb));
                    assert(ra.disjoint(rb));
                }
            }
        },
    }
}

/// Reading a concatenation of entries as a mapping joins the two halves, the
/// later half winning on shared keys.
pub proof fn lemma_entries_map_concat<K, V>(a: Seq<(K, V)>, b: Seq<(K, V)>)
    ensures
        entries_map(a + b) == entries_map(a).union_prefer_right(entries_map(b)),
    decreases b.len(),
{
    if b.len() == 0 {
        assert(a + b =~= a);
        assert(entries_map(a).union_prefer_right(entries_map(b)) =~= entries_map(a));
    } else {
        assert((a + b).drop_last() =~= a + b.drop_last());
        assert((a + b).last() == b.last());
        lemma_entries_map_concat(a, b.drop_last());
        assert(entries_map(a).union_prefer_right(entries_map(b.drop_last())).insert(
            b.last().0,
            b.last().1,
        ) =~= entries_map(a).union_prefer_right(
            entries_map(b.drop_last()).insert(b.last().0, b.last().1),
        ));
    }
}

/// A single entry read as a mapping.
pub proof fn lemma_entries_map_singleton<K, V>(e: (K, V))
    ensures
        entries_map(seq![e]) == Map::<K, V>::empty().insert(e.0, e.1),
{
    assert(seq![e].drop_last() =~= Seq::<(K, V)>::empty());
    assert(entries_map(Seq::<(K, V)>::empty()) == Map::<K, V>::empty());
    assert(seq![e].last() == e);
}

/// The split mapping is keyed by exactly the splits of the tree.
pub proof fn lemma_split_entries_dom(n: Node, spacing: u32, rect: Rect)
    ensures
        entries_map(spec_split_seq(n, spacing, rect)).dom() == split_set(n),
    decreases n,
{
    match n {
        Node::Pane(_) => {
            assert(entries_map(spec_split_seq(n, spacing, rect)).dom() =~= split_set(n));
        },
        Node::Split { id, axis, ratio, a, b } => {
            let (ra, rb) = spec_split(axis, rect, ratio, spacing);
            let own = seq![(id, (axis, rect, ratio))];
            let sa = spec_split_seq(*a, spacing, ra);
            let sb = spec_split_seq(*b, spacing, rb);
            lemma_split_entries_dom(*a, spacing, ra);
            lemma_split_entries_dom(*b, spacing, rb);
            lemma_entries_map_concat(own + sa, sb);
            lemma_entries_map_concat(own, sa);
            lemma_entries_map_singleton((id, (axis, rect, ratio)));
            assert(entries_map(spec_split_seq(n, spacing, rect)).dom() =~= split_set(n));
        },
    }
}

/// The region mapping is keyed by exactly the panes of the tree.
pub proof fn lemma_region_entries_dom(n: Node, spacing: u32, rect: Rect)
    ensures
        entries_map(spec_region_seq(n, spacing, rect)).dom() == pane_set(n),
    decreases n,
{
    match n {
        Node::Pane(p) => {
            lemma_entries_map_singleton((p, rect));
            assert(spec_region_seq(n, spacing, rect) == seq![(p, rect)]);
            assert(entries_map(spec_region_seq(n, spacing, rect)).dom() =~= pane_set(n));
        },
        Node::Split { axis, ratio, a, b, .. } => {
            let (ra, rb) = spec_split(axis, rect, ratio, spacing);
            lemma_region_entries_dom(*a, spacing, ra);
            lemma_region_entries_dom(*b, spacing, rb);
            lemma_entries_map_concat(
                spec_region_seq(*a, spacing, ra),
                spec_region_seq(*b, spacing, rb),
            );
            assert(entries_map(spec_region_seq(n, spacing, rect)).dom() =~= pane_set(n));
        },
    }
}

/// How the two projections hang together, read as mappings: each subtree laid
/// out inside `rect` records, for a leaf, exactly `rect` under its pane, and,
/// for a split, exactly `rect` (with its axis and ratio) under its
/// identifier, its children laid out inside the two regions `rect` divides
/// into. A split's recorded rectangle is thereby the union of its children's
/// effective rectangles plus the gutter between them.
pub open spec fn consistent(
    n: Node,
    spacing: u32,
    rect: Rect,
    smap: Map<Split, (Axis, Rect, u32)>,
    pmap: Map<Pane, Rect>,
) -> bool
    decreases n,
{
    match n {
        Node::Pane(p) => pmap.contains_key(p) && pmap[p] == rect,
        Node::Split { id, axis, ratio, a, b } => {
            let (ra, rb) = spec_split(axis, rect, ratio, spacing);
            &&& smap.contains_key(id)
            &&& smap[id] == (axis, rect, ratio)
            &&& consistent(*a, spacing, ra, smap, pmap)
            &&& consistent(*b, spacing, rb, smap, pmap)
        },
    }
}

/// Consistency carries over to any pair of mappings that agree on the
/// subtree's own splits and panes.
proof fn lemma_consistent_weaken(
    n: Node,
    spacing: u32,
    rect: Rect,
    smap1: Map<Split, (Axis, Rect, u32)>,
    pmap1: Map<Pane, Rect>,
    smap2: Map<Split, (Axis, Rect, u32)>,
    pmap2: Map<Pane, Rect>,
)
    requires
        consistent(n, spacing, rect, smap1, pmap1),
        forall|s: Split|
            #[trigger] split_set(n).contains(s) ==> smap2.contains_key(s) && smap2[s] == smap1[s],
        forall|p: Pane|
            #[trigger] pane_set(n).contains(p) ==> pmap2.contains_key(p) && pmap2[p] == pmap1[p],
    ensures
        consistent(n, spacing, rect, smap2, pmap2),
    decreases n,
{
    match n {
        Node::Pane(p) => {
            assert(pane_set(n).contains(p));
        },
        Node::Split { id, axis, ratio, a, b } => {
            let (ra, rb) = spec_split(axis, rect, ratio, spacing);
            assert(split_set(n).contains(id));
            assert forall|s: Split|
                #[trigger] split_set(*a).contains(s) implies smap2.contains_key(s) && smap2[s]
                == smap1[s] by {
                assert(split_set(n).contains(s));
            }
            assert forall|s: Split|
                #[trigger] split_set(*b).contains(s) implies smap2.contains_key(s) && smap2[s]
                == smap1[s] by {
                assert(split_set(n).contains(s));
            }
            assert forall|p: Pane|
                #[trigger] pane_set(*a).contains(p) implies pmap2.contains_key(p) && pmap2[p]
                == pmap1[p] by {
                assert(pane_set(n).contains(p));
            }
            assert forall|p: Pane|
                #[trigger] pane_set(*b).contains(p) implies pmap2.contains_key(p) && pmap2[p]
                == pmap1[p] by {
                assert(pane_set(n).contains(p));
            }
            lemma_consistent_weaken(*a, spacing, ra, smap1, pmap1, smap2, pmap2);
            lemma_consistent_weaken(*b, spacing, rb, smap1, pmap1, smap2, pmap2);
        },
    }
}

/// The split regions are hierarchically consistent with the pane regions:
/// read as mappings, every split's recorded rectangle is the undivided
/// rectangle of its subtree, and the rectangles its children are recorded
/// with (a pane's region, or a nested split's rectangle) are exactly the two
/// regions that rectangle divides into — so the recorded rectangle is their
/// union plus the gutter.
pub proof fn lemma_split_regions_consistent(n: Node, spacing: u32, rect: Rect)
    requires
        unique_panes(n),
        unique_splits(n),
    ensures
        consistent(
            n,
            spacing,
            rect,
            entries_map(spec_split_seq(n, spacing, rect)),
            entries_map(spec_region_seq(n, spacing, rect)),
        ),
    decreases n,
{
    match n {
        Node::Pane(p) => {
            lemma_entries_map_singleton((p, rect));
            assert(spec_region_seq(n, spacing, rect) == seq![(p, rect)]);
        },
        Node::Split { id, axis, ratio, a, b } => {
            let (ra, rb) = spec_split(axis, rect, ratio, spacing);
            let own = seq![(id, (axis, rect, ratio))];
            let sa = spec_split_seq(*a, spacing, ra);
            let sb = spec_split_seq(*b, spacing, rb);
            let pa = spec_region_seq(*a, spacing, ra);
            let pb = spec_region_seq(*b, spacing, rb);
            let smap = entries_map(spec_split_seq(n, spacing, rect));
            let pmap = entries_map(spec_region_seq(n, spacing, rect));
            lemma_split_regions_consistent(*a, spacing, ra);
            lemma_split_regions_consistent(*b, spacing, rb);
            lemma_split_entries_dom(*a, spacing, ra);
            lemma_split_entries_dom(*b, spacing, rb);
            lemma_region_entries_dom(*a, spacing, ra);
            lemma_region_entries_dom(*b, spacing, rb);
            lemma_entries_map_concat(own + sa, sb);
            lemma_entries_map_concat(own, sa);
            lemma_entries_map_concat(pa, pb);
            lemma_entries_map_singleton((id, (axis, rect, ratio)));
            assert(spec_split_seq(n, spacing, rect) == own + sa + sb);
            assert(spec_region_seq(n, spacing, rect) == pa + pb);
            assert(!split_set(*a).contains(id) && !split_set(*b).contains(id));
            assert(smap.contains_key(id) && smap[id] == (axis, rect, ratio));
            assert forall|s: Split|
                split_set(*a).contains(s) implies smap.contains_key(s) && smap[s]
                == entries_map(sa)[s] by {
                assert(!entries_map(sb).dom().contains(s));
                assert(entries_map(sa).dom().contains(s));
            }
            assert forall|s: Split|
                split_set(*b).contains(s) implies smap.contains_key(s) && smap[s]
                == entries_map(sb)[s] by {
                assert(entries_map(sb).dom().contains(s));
            }
            assert forall|p: Pane|
                pane_set(*a).contains(p) implies pmap.contains_key(p) && pmap[p]
                == entries_map(pa)[p] by {
                assert(!entries_map(pb).dom().contains(p));
                assert(entries_map(pa).dom().contains(p));
            }
            assert forall|p: Pane|
                pane_set(*b).contains(p) implies pmap.contains_key(p) && pmap[p]
                == entries_map(pb)[p] by {
                assert(entries_map(pb).dom().contains(p));
            }
            lemma_consistent_weaken(
                *a,
                spacing,
                ra,
                entries_map(sa),
                entries_map(pa),
                smap,
                pmap,
            );
            lemma_consistent_weaken(
                *b,
                spacing,
                rb,
                entries_map(sb),
                entries_map(pb),
                smap,
                pmap,
            );
        },
    }
}

/// Resizing a split renames no split: the tree keeps exactly the splits it
/// had.
pub proof fn lemma_resize_split_set(n: Node, s: Split, percentage: u32)
    ensures
        split_set(spec_resize(n, s, percentage)) == split_set(n),
    decreases n,
{
    match n {
        Node::Pane(_) => {},
        Node::Split { id, axis, ratio, a, b } => {
            lemma_resize_split_set(*a, s, percentage);
            lemma_resize_split_set(*b, s, percentage);
            assert(split_set(spec_resize(n, s, percentage)) =~= split_set(n));
        },
    }
}

/// After a resize, the split regions report the new ratio for the resized
/// split, under its unchanged axis and unchanged rectangle.
pub proof fn lemma_resize_reported(n: Node, spacing: u32, rect: Rect, s: Split, percentage: u32)
    requires
        unique_splits(n),
        contains_split(n, s),
    ensures
        ({
            let before = entries_map(spec_split_seq(n, spacing, rect));
            let after = entries_map(spec_split_seq(spec_resize(n, s, percentage), spacing, rect));
            &&& after.contains_key(s)
            &&& after[s] == (before[s].0, before[s].1, percentage)
        }),
    decreases n,
{
    match n {
        Node::Pane(_) => {},
        Node::Split { id, axis, ratio, a, b } => {
            let (ra, rb) = spec_split(axis, rect, ratio, spacing);
            let own = seq![(id, (axis, rect, ratio))];
            let sa = spec_split_seq(*a, spacing, ra);
            let sb = spec_split_seq(*b, spacing, rb);
            lemma_entries_map_concat(own + sa, sb);
            lemma_entries_map_concat(own, sa);
            lemma_entries_map_singleton((id, (axis, rect, ratio)));
            lemma_split_entries_dom(*a, spacing, ra);
            lemma_split_entries_dom(*b, spacing, rb);
            let before = entries_map(spec_split_seq(n, spacing, rect));
            if id == s {
                let (na, nb) = spec_split(axis, rect, percentage, spacing);
                let own2 = seq![(id, (axis, rect, percentage))];
                let sa2 = spec_split_seq(*a, spacing, na);
                let sb2 = spec_split_seq(*b, spacing, nb);
                lemma_entries_map_concat(own2 + sa2, sb2);
                lemma_entries_map_concat(own2, sa2);
                lemma_entries_map_singleton((id, (axis, rect, percentage)));
                lemma_split_entries_dom(*a, spacing, na);
                lemma_split_entries_dom(*b, spacing, nb);
                assert(spec_resize(n, s, percentage) == (Node::Split {
                    id,
                    axis,
                    ratio: percentage,
                    a,
                    b,
                }));
                assert(before[s] == (axis, rect, ratio));
            } else if contains_split(*a, s) {
                lemma_resize_reported(*a, spacing, ra, s, percentage);
                lemma_resize_split_set(*a, s, percentage);
                let sa2 = spec_split_seq(spec_resize(*a, s, percentage), spacing, ra);
                lemma_entries_map_concat(own + sa2, sb);
                lemma_entries_map_concat(own, sa2);
                lemma_split_entries_dom(spec_resize(*a, s, percentage), spacing, ra);
                assert(spec_resize(n, s, percentage) == (Node::Split {
                    id,
                    axis,
                    ratio,
                    a: Box::new(spec_resize(*a, s, percentage)),
                    b,
                }));
                assert(!split_set(*b).contains(s));
                assert(before[s] == entries_map(sa)[s]);
            } else {
                assert(contains_split(*b, s));
                lemma_resize_reported(*b, spacing, rb, s, percentage);
                lemma_resize_split_set(*b, s, percentage);
                let sb2 = spec_split_seq(spec_resize(*b, s, percentage), spacing, rb);
                lemma_entries_map_concat(own + sa, sb2);
                lemma_split_entries_dom(spec_resize(*b, s, percentage), spacing, rb);
                assert(spec_resize(n, s, percentage) == (Node::Split {
                    id,
                    axis,
                    ratio,
                    a,
                    b: Box::new(spec_resize(*b, s, percentage)),
                }));
                assert(before[s] == entries_map(sb)[s]);
            }
        },
    }
}

} // verus!
