//! A split-pane layout engine.
//!
//! A binary tree describes how a rectangular viewport is recursively divided:
//! every leaf names a pane, every internal node names a split with an axis and
//! a division ratio. Folding the tree against the viewport yields the concrete
//! rectangle of every pane and of every split; structural edits (splitting a
//! region, resizing a split, removing a pane) keep the tree consistent.
//!
//! Ratios are held in hundred-thousandths (`RATIO_ONE` is the whole), and all
//! geometry is integer arithmetic, so every result is exact and stable.

pub mod geometry;
pub mod laws;
pub mod node;
pub mod regions;
pub mod renderer;

pub use node::Node;
pub use node::Pane;
pub use node::Split;
pub use geometry::Axis;
pub use geometry::Rect;
pub use geometry::Size;
pub use geometry::RATIO_ONE;
pub use renderer::Renderer;
