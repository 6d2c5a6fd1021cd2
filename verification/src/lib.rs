//! Spatial indexing of two-dimensional layout primitives on a uniform tile grid.
//!
//! Rectangles, polygons and stroked rectilinear paths are bounded (`bbox`, `shapes`,
//! `path_to_poly`), a dense grid of tiles is laid over their common bounding box (`tiling`),
//! and every primitive is added, by its index, to each tile that it overlaps (`binning`,
//! `overlap`). `utils` summarises how the primitives spread over the tiles, and
//! `guarantees` states what a consumer of the index can rely on.

pub mod bbox;
pub mod binning;
pub mod error;
pub mod guarantees;
pub mod overlap;
pub mod path_to_poly;
pub mod shapes;
pub mod tiling;
pub mod types;
pub mod utils;
