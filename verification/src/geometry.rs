//! Rectangles, viewport sizes, and the axis partition that cuts one rectangle
//! into two along a split, leaving a gutter of the given spacing between them.

use vstd::prelude::*;

verus! {

/// The whole of a division ratio: ratios are fractions in hundred-thousandths,
/// so `0` allots nothing to the first child and `RATIO_ONE` allots everything.
pub const RATIO_ONE: u32 = 100_000;

/// An even division: half of the usable space to either child.
pub const RATIO_HALF: u32 = 50_000;

/// A rectangular region, in integer device coordinates. `x` and `y` place its
/// top-left corner; the region covers the half-open spans
/// `[x, x + width)` and `[y, y + height)`.
#[derive(Clone, Copy, Debug, PartialEq, Eq, Structural)]
pub struct Rect {
    pub x: u32,
    pub y: u32,
    pub width: u32,
    pub height: u32,
}

/// The dimensions of a viewport.
#[derive(Clone, Copy, Debug, PartialEq, Eq, Structural)]
pub struct Size {
    pub width: u32,
    pub height: u32,
}

/// The direction along which a split divides its rectangle: a `Horizontal`
/// split stacks its children top and bottom, a `Vertical` split places them
/// side by side.
#[derive(Clone, Copy, Debug, PartialEq, Eq, Structural)]
pub enum Axis {
    Horizontal,
    Vertical,
}

impl Rect {
    /// How many units of area the rectangle covers.
    pub open spec fn area(self) -> int {
        self.width * self.height
    }

    /// Whether the rectangle lies inside `outer`.
    pub open spec fn within(self, outer: Rect) -> bool {
        &&& outer.x <= self.x
        &&& self.x + self.width <= outer.x + outer.width
        &&& outer.y <= self.y
        &&& self.y + self.height <= outer.y + outer.height
    }

    /// Whether the two rectangles share no point (their half-open spans are
    /// separated on at least one axis).
    pub open spec fn disjoint(self, other: Rect) -> bool {
        ||| self.x + self.width <= other.x
        ||| other.x + other.width <= self.x
        ||| self.y + self.height <= other.y
        ||| other.y + other.height <= self.y
    }

    /// Whether the rectangle's far corner stays within the coordinate space.
    pub open spec fn fits_coords(self) -> bool {
        &&& self.x + self.width <= u32::MAX
        &&& self.y + self.height <= u32::MAX
    }
}

/// How a span of `total` units is cut in two: the length handed to the first
/// child, the offset at which the second child starts, and the length handed
/// to the second child. The first child receives `ratio` hundred-thousandths
/// of the usable span (the span minus the gutter), rounded down; a ratio
/// beyond `RATIO_ONE` is clamped to the whole usable span; a gutter wider
/// than the span leaves both children empty.
pub open spec fn spec_cut(total: u32, ratio: u32, spacing: u32) -> (u32, u32, u32) {
    if spacing <= total {
        let usable = (total - spacing) as u32;
        let raw = usable * ratio / (RATIO_ONE as int);
        let a_len = (if raw > usable { usable as int } else { raw }) as u32;
        (a_len, (a_len + spacing) as u32, (total - a_len - spacing) as u32)
    } else {
        (0u32, total, 0u32)
    }
}

/// The two rectangles a split produces: its rectangle cut along `axis`, the
/// first child at the top or left, the second past a gutter of `spacing`.
pub open spec fn spec_split(axis: Axis, rect: Rect, ratio: u32, spacing: u32) -> (Rect, Rect) {
    match axis {
        Axis::Horizontal => {
            let (a_len, offset, b_len) = spec_cut(rect.height, ratio, spacing);
            (
                Rect { x: rect.x, y: rect.y, width: rect.width, height: a_len },
                Rect { x: rect.x, y: (rect.y + offset) as u32, width: rect.width, height: b_len },
            )
        },
        Axis::Vertical => {
            let (a_len, offset, b_len) = spec_cut(rect.width, ratio, spacing);
            (
                Rect { x: rect.x, y: rect.y, width: a_len, height: rect.height },
                Rect { x: (rect.x + offset) as u32, y: rect.y, width: b_len, height: rect.height },
            )
        },
    }
}

/// Cuts a span of `total` units at `ratio`, leaving a gutter of `spacing`.
fn cut(total: u32, ratio: u32, spacing: u32) -> (r: (u32, u32, u32))
    ensures
        r == spec_cut(total, ratio, spacing),
{
    if spacing <= total {
        let usable = total - spacing;
        proof {
            vstd::arithmetic::mul::lemma_mul_upper_bound(
                usable as int,
                u32::MAX as int,
                ratio as int,
                u32::MAX as int,
            );
        }
        let raw = (usable as u64) * (ratio as u64) / (RATIO_ONE as u64);
        let a_len = if raw > usable as u64 {
            usable
        } else {
            raw as u32
        };
        (a_len, a_len + spacing, total - a_len - spacing)
    } else {
        (0, total, 0)
    }
}

impl Axis {
    /// Divides `rect` into the two regions of a split along this axis: the
    /// first child receives `ratio` hundred-thousandths of the usable space,
    /// the second child the rest, and a gutter of `spacing` runs between them.
    pub fn split(&self, rect: &Rect, ratio: u32, spacing: u32) -> (r: (Rect, Rect))
        requires
            rect.fits_coords(),
        ensures
            r == spec_split(*self, *rect, ratio, spacing),
    {
        match self {
            Axis::Horizontal => {
                let (a_len, offset, b_len) = cut(rect.height, ratio, spacing);
                (
                    Rect { x: rect.x, y: rect.y, width: rect.width, height: a_len },
                    Rect { x: rect.x, y: rect.y + offset, width: rect.width, height: b_len },
                )
            },
            Axis::Vertical => {
                let (a_len, offset, b_len) = cut(rect.width, ratio, spacing);
                (
                    Rect { x: rect.x, y: rect.y, width: a_len, height: rect.height },
                    Rect { x: rect.x + offset, y: rect.y, width: b_len, height: rect.height },
                )
            },
        }
    }
}

/// The cut hands out exactly the span: first child, gutter and second child
/// together make up `total` again, whatever the ratio, as long as the gutter
/// fits in the span.
pub proof fn lemma_cut_tiles(total: u32, ratio: u32, spacing: u32)
    requires
        spacing <= total,
    ensures
        spec_cut(total, ratio, spacing).0 + spacing + spec_cut(total, ratio, spacing).2 == total,
        spec_cut(total, ratio, spacing).1 == spec_cut(total, ratio, spacing).0 + spacing,
{
}

/// The first child's share is exactly `ratio` hundred-thousandths of the
/// usable span, rounded down, and the second child receives the remainder.
pub proof fn lemma_cut_proportion(total: u32, ratio: u32, spacing: u32)
    requires
        spacing <= total,
        ratio <= RATIO_ONE,
    ensures
        spec_cut(total, ratio, spacing).0 == (total - spacing) * ratio / (RATIO_ONE as int),
        spec_cut(total, ratio, spacing).2 == (total - spacing) - spec_cut(total, ratio, spacing).0,
{
    let usable = total - spacing;
    assert(usable * ratio / (RATIO_ONE as int) <= usable) by {
        vstd::arithmetic::mul::lemma_mul_inequality(ratio as int, RATIO_ONE as int, usable as int);
        vstd::arithmetic::mul::lemma_mul_is_commutative(usable as int, ratio as int);
        vstd::arithmetic::div_mod::lemma_div_multiples_vanish(usable as int, RATIO_ONE as int);
        vstd::arithmetic::div_mod::lemma_div_is_ordered(
            usable * ratio,
            usable * (RATIO_ONE as int),
            RATIO_ONE as int,
        );
    }
}

/// Raising the ratio never shrinks the first child nor grows the second: the
/// two spans on either side of a split move monotonically with the ratio.
pub proof fn lemma_cut_monotone(total: u32, ratio_lo: u32, ratio_hi: u32, spacing: u32)
    requires
        ratio_lo <= ratio_hi,
    ensures
        spec_cut(total, ratio_lo, spacing).0 <= spec_cut(total, ratio_hi, spacing).0,
        spec_cut(total, ratio_lo, spacing).2 >= spec_cut(total, ratio_hi, spacing).2,
{
    if spacing <= total {
        let usable = (total - spacing) as int;
        vstd::arithmetic::mul::lemma_mul_inequality(ratio_lo as int, ratio_hi as int, usable);
        vstd::arithmetic::mul::lemma_mul_is_commutative(usable, ratio_lo as int);
        vstd::arithmetic::mul::lemma_mul_is_commutative(usable, ratio_hi as int);
        vstd::arithmetic::div_mod::lemma_div_is_ordered(
            usable * ratio_lo,
            usable * ratio_hi,
            RATIO_ONE as int,
        );
    }
}

/// Raising a split's ratio never shrinks its first region nor grows its
/// second: the sizes on either side of the split move monotonically with the
/// ratio, along the split axis, while the extent across it stays the whole.
pub proof fn lemma_split_monotone(
    axis: Axis,
    rect: Rect,
    ratio_lo: u32,
    ratio_hi: u32,
    spacing: u32,
)
    requires
        ratio_lo <= ratio_hi,
    ensures
        ({
            let (lo_a, lo_b) = spec_split(axis, rect, ratio_lo, spacing);
            let (hi_a, hi_b) = spec_split(axis, rect, ratio_hi, spacing);
            match axis {
                Axis::Horizontal => lo_a.height <= hi_a.height && lo_b.height >= hi_b.height
                    && lo_a.width == hi_a.width == rect.width,
                Axis::Vertical => lo_a.width <= hi_a.width && lo_b.width >= hi_b.width
                    && lo_a.height == hi_a.height == rect.height,
            }
        }),
{
    match axis {
        Axis::Horizontal => lemma_cut_monotone(rect.height, ratio_lo, ratio_hi, spacing),
        Axis::Vertical => lemma_cut_monotone(rect.width, ratio_lo, ratio_hi, spacing),
    }
}

/// The two regions of a split lie inside the divided rectangle and share no
/// point, whatever the ratio and spacing.
pub proof fn lemma_split_within(axis: Axis, rect: Rect, ratio: u32, spacing: u32)
    requires
        rect.fits_coords(),
    ensures
        spec_split(axis, rect, ratio, spacing).0.within(rect),
        spec_split(axis, rect, ratio, spacing).1.within(rect),
        spec_split(axis, rect, ratio, spacing).0.fits_coords(),
        spec_split(axis, rect, ratio, spacing).1.fits_coords(),
        spec_split(axis, rect, ratio, spacing).0.disjoint(
            spec_split(axis, rect, ratio, spacing).1,
        ),
{
}

/// The split hands out exactly the divided rectangle: along the split axis the
/// two regions and the gutter together make up the whole span, and across it
/// both regions keep the rectangle's full extent. Stated over the areas, the
/// two regions and the gutter tile the rectangle exactly.
pub proof fn lemma_split_tiles(axis: Axis, rect: Rect, ratio: u32, spacing: u32)
    requires
        rect.fits_coords(),
        axis == Axis::Horizontal ==> spacing <= rect.height,
        axis == Axis::Vertical ==> spacing <= rect.width,
    ensures
        ({
            let (a, b) = spec_split(axis, rect, ratio, spacing);
            match axis {
                Axis::Horizontal => a.area() + b.area() + spacing * rect.width == rect.area(),
                Axis::Vertical => a.area() + b.area() + spacing * rect.height == rect.area(),
            }
        }),
{
    let (a, b) = spec_split(axis, rect, ratio, spacing);
    match axis {
        Axis::Horizontal => {
            assert(a.height + spacing + b.height == rect.height) by {
                lemma_cut_tiles(rect.height, ratio, spacing);
            }
            assert(rect.width * a.height + rect.width * b.height + spacing * rect.width
                == rect.width * rect.height) by (nonlinear_arith)
                requires
                    a.height + spacing + b.height == rect.height,
            ;
            assert(a.area() == rect.width * a.height);
            assert(b.area() == rect.width * b.height);
        },
        Axis::Vertical => {
            assert(a.width + spacing + b.width == rect.width) by {
                lemma_cut_tiles(rect.width, ratio, spacing);
            }
            assert(a.width * rect.height + b.width * rect.height + spacing * rect.height
                == rect.width * rect.height) by (nonlinear_arith)
                requires
                    a.width + spacing + b.width == rect.width,
            ;
            assert(a.area() == a.width * rect.height);
            assert(b.area() == b.width * rect.height);
        },
    }
}

} // verus!
