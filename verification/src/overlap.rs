use vstd::prelude::*;
use geo::Intersects;
use crate::types::{GeoPolygon, GeoRect, GeoShapeEnum};

verus! {

/// Coordinates of this magnitude and beyond are not handed to the polygon overlap test:
/// its 64-bit cross products of coordinate differences would no longer be exact.
pub const GEO_COORD_LIMIT: i64 = 1_073_741_824;

/// Whether a coordinate pair is small enough for the polygon overlap test.
pub open spec fn in_geo_range(c: (int, int)) -> bool {
    &&& -GEO_COORD_LIMIT < c.0 < GEO_COORD_LIMIT
    &&& -GEO_COORD_LIMIT < c.1 < GEO_COORD_LIMIT
}

/// Whether every vertex of a ring is small enough for the polygon overlap test.
pub open spec fn ring_in_geo_range(ring: Seq<(int, int)>) -> bool {
    forall|i: int| 0 <= i < ring.len() ==> in_geo_range(#[trigger] ring[i])
}

/// What `geo` answers when asked whether the polygon with the given ring of vertices (and
/// no holes) intersects the rectangle with the given lower-left and upper-right corner.
pub uninterp spec fn geo_polygon_intersects_rect(
    ring: Seq<(int, int)>,
    rect_min: (int, int),
    rect_max: (int, int),
) -> bool;

/// Whether a geometry and a closed rectangle have a point in common.
pub open spec fn geo_overlaps(shape: GeoShapeEnum, cell: GeoRect) -> bool {
    match shape {
        GeoShapeEnum::Rect(r) => r.overlaps(&cell),
        GeoShapeEnum::Polygon(p) => geo_polygon_intersects_rect(
            p.ring(),
            cell.min.pair(),
            cell.max.pair(),
        ),
    }
}

/// Whether a geometry can be tested against `cell`.
pub open spec fn geo_testable(shape: GeoShapeEnum, cell: GeoRect) -> bool {
    match shape {
        GeoShapeEnum::Rect(r) => r.wf() && cell.wf(),
        GeoShapeEnum::Polygon(p) => {
            &&& cell.wf()
            &&& ring_in_geo_range(p.ring())
            &&& in_geo_range(cell.min.pair())
            &&& in_geo_range(cell.max.pair())
        },
    }
}

/// `geo`'s `Intersects` between two `geo::Rect<i64>`: two rectangles intersect exactly when
/// their closed intervals overlap in both axes.
#[verifier::external_body]
fn rect_intersects_rect(a: &GeoRect, b: &GeoRect) -> (hit: bool)
    requires
        a.wf(),
        b.wf(),
    ensures
        hit == a.overlaps(b),
{
    let a = geo::Rect::new((a.min.x, a.min.y), (a.max.x, a.max.y));
    let b = geo::Rect::new((b.min.x, b.min.y), (b.max.x, b.max.y));
    a.intersects(&b)
}

/// `geo`'s `Intersects` between a `geo::Polygon<i64>` without holes and a `geo::Rect<i64>`.
/// The answer is a function of the vertices and the corners alone; nothing more is claimed
/// of it. Coordinates are kept below `GEO_COORD_LIMIT`, where `geo`'s integer arithmetic
/// cannot overflow.
#[verifier::external_body]
fn polygon_intersects_rect(polygon: &GeoPolygon, rect: &GeoRect) -> (hit: bool)
    requires
        rect.wf(),
        ring_in_geo_range(polygon.ring()),
        in_geo_range(rect.min.pair()),
        in_geo_range(rect.max.pair()),
    ensures
        hit == geo_polygon_intersects_rect(polygon.ring(), rect.min.pair(), rect.max.pair()),
{
    let ring: Vec<(i64, i64)> = polygon.exterior.iter().map(|c| (c.x, c.y)).collect();
    let polygon = geo::Polygon::new(geo::LineString::from(ring), vec![]);
    let rect = geo::Rect::new((rect.min.x, rect.min.y), (rect.max.x, rect.max.y));
    polygon.intersects(&rect)
}

/// The exact overlap test between a geometry and the extents of a tile.
pub fn intersects(shape: &GeoShapeEnum, cell: &GeoRect) -> (hit: bool)
    requires
        geo_testable(*shape, *cell),
    ensures
        hit == geo_overlaps(*shape, *cell),
{
    match shape {
        GeoShapeEnum::Rect(r) => rect_intersects_rect(r, cell),
        GeoShapeEnum::Polygon(p) => polygon_intersects_rect(p, cell),
    }
}

} // verus!
