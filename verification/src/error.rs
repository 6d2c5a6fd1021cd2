use vstd::prelude::*;

verus! {

/// Why a primitive, or a whole batch of primitives, cannot be indexed.
#[derive(Debug, PartialEq, Eq, Structural, Clone, Copy)]
pub enum GeometryError {
    /// A primitive has no extent in one axis, a path has fewer than two points or an odd
    /// stroke width, or two consecutive path points are identical or not axis-aligned.
    InvalidGeometry,
    /// A path turns back on itself at one of its interior vertices.
    InvalidPathTurn,
    /// An aggregate bounding box was asked of no primitives at all.
    EmptyBatch,
}

} // verus!
