//! The projection front end a drawing backend consumes: a renderer holds the
//! viewport and the spacing between panes, and turns a layout tree into the
//! rectangles to draw each frame.

use vstd::prelude::*;

use crate::geometry::Axis;
use crate::geometry::Rect;
use crate::geometry::Size;
use crate::node::Node;
use crate::node::Pane;
use crate::node::Split;
use crate::regions::full_rect;
use crate::regions::spec_region_seq;
use crate::regions::spec_split_seq;

verus! {

/// Projects layout trees onto one viewport: the regions it hands out are what
/// a drawing backend consumes to paint each pane and each split divider.
pub struct Renderer {
    /// The viewport the layout is projected onto.
    pub viewport: Size,
    /// The gutter left between panes, in the same units as the viewport.
    pub spacing: u32,
}

impl Renderer {
    /// A renderer for the given viewport and spacing.
    pub fn new(viewport: Size, spacing: u32) -> (r: Renderer)
        ensures
            r.viewport == viewport,
            r.spacing == spacing,
    {
        Renderer { viewport, spacing }
    }

    /// The rectangle of every pane of the tree on this renderer's viewport.
    pub fn pane_rectangles(&self, tree: &Node) -> (r: Vec<(Pane, Rect)>)
        ensures
            r@ == spec_region_seq(*tree, self.spacing, full_rect(self.viewport)),
    {
        tree.pane_regions(self.spacing, self.viewport)
    }

    /// The axis, rectangle and ratio of every split of the tree on this
    /// renderer's viewport.
    pub fn split_rectangles(&self, tree: &Node) -> (r: Vec<(Split, (Axis, Rect, u32))>)
        ensures
            r@ == spec_split_seq(*tree, self.spacing, full_rect(self.viewport)),
    {
        tree.split_regions(self.spacing, self.viewport)
    }
}

} // verus!
