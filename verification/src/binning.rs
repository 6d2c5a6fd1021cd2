use vstd::prelude::*;
use crate::bbox::{lemma_positive_extent, max_int, min_int, CalculateBoundingBox, Corners};
use crate::error::GeometryError;
use crate::overlap::{
    geo_overlaps, geo_polygon_intersects_rect, geo_testable, in_geo_range, intersects,
    ring_in_geo_range, GEO_COORD_LIMIT,
};
use crate::path_to_poly::{coords, coords_of, make_path_into_polygon, point_fits};
use crate::shapes::{
    all_representable, batch_extent, shape_extent, shape_vertices, Point, Shape,
};
use crate::tiling::{
    build_tilemap, grid_columns, grid_rows, is_cell, is_grid, lemma_ceil_div,
    lemma_cell_bounds, shift_of, tilemap_shift,
};
use crate::types::{record_overlap, GeoCoord, GeoPolygon, GeoRect, GeoShapeEnum, Tile, Tilemap};
use crate::utils::{get_grid_shape, lemma_grid_shape};

verus! {

/// A coordinate pair moved by `d`.
pub open spec fn moved(c: (int, int), d: (int, int)) -> (int, int) {
    (c.0 + d.0, c.1 + d.1)
}

/// Every coordinate pair of a sequence moved by `d`.
pub open spec fn moved_all(vs: Seq<(int, int)>, d: (int, int)) -> Seq<(int, int)> {
    Seq::new(vs.len(), |i: int| moved(vs[i], d))
}

/// `v` forced into `[0, hi]`.
pub open spec fn clamped(v: int, hi: int) -> int {
    if v < 0 {
        0
    } else if v > hi {
        hi
    } else {
        v
    }
}

/// The column (or row) of a shifted coordinate in a grid of `n` tiles of edge `t`: the
/// coordinate is clamped into the grid, then divided by the edge.
pub open spec fn tile_index(v: int, n: int, t: int) -> int {
    clamped(v, n * t - 1) / t
}

/// Whether tile `(ix, iy)` lies in the candidate range of a primitive whose bounding box
/// has the corners `c`: the closed rectangle of tiles between the tiles of its two shifted
/// corners.
pub open spec fn in_candidate_range(
    c: Corners,
    shift: (int, int),
    nx: int,
    ny: int,
    t: int,
    ix: int,
    iy: int,
) -> bool {
    &&& tile_index(c.0.0 + shift.0, nx, t) <= ix <= tile_index(c.1.0 + shift.0, nx, t)
    &&& tile_index(c.0.1 + shift.1, ny, t) <= iy <= tile_index(c.1.1 + shift.1, ny, t)
}

/// The exact test between the shifted geometry of a primitive and the closed rectangle
/// with the corners `cell_min` and `cell_max`: interval overlap for a rectangle, the answer
/// of `geo` for a polygon and for the outline of a path.
pub open spec fn shape_overlaps(
    s: Shape,
    shift: (int, int),
    cell_min: (int, int),
    cell_max: (int, int),
) -> bool {
    match s {
        Shape::Rect(r) => {
            &&& min_int(r.p0.x as int, r.p1.x as int) + shift.0 <= cell_max.0
            &&& cell_min.0 <= max_int(r.p0.x as int, r.p1.x as int) + shift.0
            &&& min_int(r.p0.y as int, r.p1.y as int) + shift.1 <= cell_max.1
            &&& cell_min.1 <= max_int(r.p0.y as int, r.p1.y as int) + shift.1
        },
        Shape::Poly(p) => geo_polygon_intersects_rect(
            moved_all(coords_of(p.points@), shift),
            cell_min,
            cell_max,
        ),
        Shape::Path(p) => p.spec_outline() matches Ok(o) && geo_polygon_intersects_rect(
            moved_all(o, shift),
            cell_min,
            cell_max,
        ),
    }
}

/// Whether the primitive `s` is assigned to tile `(ix, iy)`: it has a bounding box, the
/// tile lies in its candidate range, and the exact test against the tile's extents holds.
pub open spec fn hits(
    s: Shape,
    shift: (int, int),
    nx: int,
    ny: int,
    t: int,
    ix: int,
    iy: int,
) -> bool {
    match shape_extent(s) {
        Err(_) => false,
        Ok(c) => in_candidate_range(c, shift, nx, ny, t, ix, iy) && shape_overlaps(
            s,
            shift,
            (ix * t, iy * t),
            ((ix + 1) * t, (iy + 1) * t),
        ),
    }
}

/// The indices of the primitives assigned to tile `(ix, iy)`, in increasing order.
pub open spec fn assigned(
    shapes: Seq<Shape>,
    shift: (int, int),
    nx: int,
    ny: int,
    t: int,
    ix: int,
    iy: int,
) -> Seq<usize>
    decreases shapes.len(),
{
    if shapes.len() == 0 {
        Seq::empty()
    } else if hits(shapes.last(), shift, nx, ny, t, ix, iy) {
        assigned(shapes.drop_last(), shift, nx, ny, t, ix, iy).push((shapes.len() - 1) as usize)
    } else {
        assigned(shapes.drop_last(), shift, nx, ny, t, ix, iy)
    }
}

/// The indices of the primitives without a bounding box, in increasing order.
pub open spec fn invalid_shapes(shapes: Seq<Shape>) -> Seq<usize>
    decreases shapes.len(),
{
    if shapes.len() == 0 {
        Seq::empty()
    } else if shape_extent(shapes.last()) is Err {
        invalid_shapes(shapes.drop_last()).push((shapes.len() - 1) as usize)
    } else {
        invalid_shapes(shapes.drop_last())
    }
}

/// Whether `after` is `before` with the primitives of `shapes` binned: the same tiles with
/// the same extents, each holding what it held, followed by the primitives assigned to it.
pub open spec fn binned(
    before: Map<(u32, u32), Tile>,
    after: Map<(u32, u32), Tile>,
    shapes: Seq<Shape>,
    shift: (int, int),
    nx: int,
    ny: int,
    t: int,
) -> bool {
    &&& forall|k: (u32, u32)| #[trigger] after.contains_key(k) <==> before.contains_key(k)
    &&& forall|k: (u32, u32)| #[trigger]
        before.contains_key(k) ==> {
            &&& after[k].extents == before[k].extents
            &&& after[k].shapes@ == before[k].shapes@ + assigned(
                shapes,
                shift,
                nx,
                ny,
                t,
                k.0 as int,
                k.1 as int,
            )
        }
}

/// Whether a shift is one that `tilemap_shift` can give.
pub open spec fn is_shift(shift: GeoCoord) -> bool {
    0 <= shift.x <= 0x8000_0000 && 0 <= shift.y <= 0x8000_0000
}

/// Whether the exact test can be made for the primitive `s` on every tile of its candidate
/// range: a polygon or an outline and the extents of those tiles must stay below the
/// coordinate limit of the polygon test.
pub open spec fn overlap_testable(s: Shape, shift: (int, int), nx: int, ny: int, t: int) -> bool {
    match s {
        Shape::Rect(_) => true,
        _ => match (shape_vertices(s), shape_extent(s)) {
            (Ok(vs), Ok(c)) => {
                &&& ring_in_geo_range(moved_all(vs, shift))
                &&& (tile_index(c.1.0 + shift.0, nx, t) + 1) * t < GEO_COORD_LIMIT
                &&& (tile_index(c.1.1 + shift.1, ny, t) + 1) * t < GEO_COORD_LIMIT
            },
            _ => true,
        },
    }
}

/// Whether `g` is the geometry of the primitive `s` moved by `shift`.
pub open spec fn shows(g: GeoShapeEnum, s: Shape, shift: (int, int)) -> bool {
    match s {
        Shape::Rect(r) => g matches GeoShapeEnum::Rect(gr) && {
            &&& gr.min.x == min_int(r.p0.x as int, r.p1.x as int) + shift.0
            &&& gr.max.x == max_int(r.p0.x as int, r.p1.x as int) + shift.0
            &&& gr.min.y == min_int(r.p0.y as int, r.p1.y as int) + shift.1
            &&& gr.max.y == max_int(r.p0.y as int, r.p1.y as int) + shift.1
        },
        Shape::Poly(p) => g matches GeoShapeEnum::Polygon(gp) && gp.ring() == moved_all(
            coords_of(p.points@),
            shift,
        ),
        Shape::Path(p) => g matches GeoShapeEnum::Polygon(gp) && p.spec_outline() matches Ok(o)
            && gp.ring() == moved_all(o, shift),
    }
}

/// The geometry of a primitive in the shifted space of the grid.
pub fn geo_shape_of(shape: &Shape, shift: GeoCoord) -> (r: Result<GeoShapeEnum, GeometryError>)
    requires
        shape.bbox_representable(),
        is_shift(shift),
    ensures
        r matches Ok(g) ==> shows(g, *shape, shift.pair()),
        r matches Err(e) ==> shape_vertices(*shape) == Err::<Seq<(int, int)>, GeometryError>(e),
{
    match shape {
        Shape::Rect(r) => {
            let c0 = GeoCoord { x: r.p0.x as i64 + shift.x, y: r.p0.y as i64 + shift.y };
            let c1 = GeoCoord { x: r.p1.x as i64 + shift.x, y: r.p1.y as i64 + shift.y };
            Ok(GeoShapeEnum::Rect(GeoRect::new(c0, c1)))
        },
        Shape::Poly(p) => {
            let exterior = shifted_points(&p.points, shift);
            let polygon = GeoPolygon { exterior };
            assert(polygon.ring() =~= moved_all(coords_of(p.points@), shift.pair()));
            Ok(GeoShapeEnum::Polygon(polygon))
        },
        Shape::Path(p) => {
            match make_path_into_polygon(p) {
                Ok(outline) => Ok(GeoShapeEnum::Polygon(moved_polygon(outline, shift))),
                Err(e) => Err(e),
            }
        },
    }
}

/// A polygon of the layout, moved into the shifted space of the grid.
fn moved_polygon(polygon: GeoPolygon, shift: GeoCoord) -> (moved_polygon: GeoPolygon)
    requires
        is_shift(shift),
        forall|j: int| 0 <= j < polygon.ring().len() ==> point_fits(#[trigger] polygon.ring()[j]),
    ensures
        moved_polygon.ring() == moved_all(polygon.ring(), shift.pair()),
{
    let ghost o = polygon.ring();
    let mut exterior = polygon.exterior;
    let mut i: usize = 0;
    while i < exterior.len()
        invariant
            i <= exterior.len(),
            is_shift(shift),
            exterior.len() == o.len(),
            forall|j: int| 0 <= j < o.len() ==> point_fits(#[trigger] o[j]),
            forall|j: int|
                0 <= j < i ==> (#[trigger] exterior[j]).pair() == moved(o[j], shift.pair()),
            forall|j: int| i <= j < exterior.len() ==> (#[trigger] exterior[j]).pair() == o[j],
        decreases exterior.len() - i,
    {
        let c = exterior[i];
        assert(point_fits(o[i as int]));
        exterior.set(i, GeoCoord { x: c.x + shift.x, y: c.y + shift.y });
        i += 1;
    }
    let moved_polygon = GeoPolygon { exterior };
    assert(moved_polygon.ring() =~= moved_all(o, shift.pair()));
    moved_polygon
}

/// The points of a ring, moved into the shifted space of the grid.
fn shifted_points(points: &Vec<Point>, shift: GeoCoord) -> (moved_points: Vec<GeoCoord>)
    requires
        is_shift(shift),
    ensures
        moved_points.len() == points.len(),
        forall|j: int|
            0 <= j < points.len() ==> (#[trigger] moved_points[j]).pair() == moved(
                coords(points[j]),
                shift.pair(),
            ),
{
    let mut moved_points: Vec<GeoCoord> = Vec::with_capacity(points.len());
    let mut i: usize = 0;
    while i < points.len()
        invariant
            i <= points.len(),
            is_shift(shift),
            moved_points.len() == i,
            forall|j: int|
                0 <= j < i ==> (#[trigger] moved_points[j]).pair() == moved(
                    coords(points[j]),
                    shift.pair(),
                ),
        decreases points.len() - i,
    {
        let p = points[i];
        moved_points.push(GeoCoord { x: p.x as i64 + shift.x, y: p.y as i64 + shift.y });
        i += 1;
    }
    moved_points
}

/// The exact tile index of a shifted coordinate.
fn tile_index_of(v: i64, n: u32, t: u32) -> (index: u32)
    requires
        n >= 1,
        t >= 1,
    ensures
        index == tile_index(v as int, n as int, t as int),
        index < n,
{
    proof {
        lemma_tile_index(v as int, n as int, t as int);
    }
    if v < 0 {
        0
    } else {
        let q = v / (t as i64);
        if q >= n as i64 {
            n - 1
        } else {
            q as u32
        }
    }
}

/// Clamping a coordinate into the grid and dividing by the edge gives the tile that holds
/// the coordinate, and the first or the last tile for a coordinate outside of the grid.
pub proof fn lemma_tile_index(v: int, n: int, t: int)
    requires
        n >= 1,
        t >= 1,
    ensures
        0 <= tile_index(v, n, t) < n,
        v < 0 ==> tile_index(v, n, t) == 0,
        0 <= v && v / t >= n ==> tile_index(v, n, t) == n - 1,
        0 <= v && v / t < n ==> tile_index(v, n, t) == v / t,
        0 <= v ==> 0 <= v / t,
        0 <= v < n * t ==> tile_index(v, n, t) * t <= v < (tile_index(v, n, t) + 1) * t,
{
    let last = n * t - 1;
    assert((n - 1) * t + (t - 1) == n * t - 1) by (nonlinear_arith);
    assert(n * t >= 1) by (nonlinear_arith)
        requires
            n >= 1,
            t >= 1,
    ;
    vstd::arithmetic::div_mod::lemma_fundamental_div_mod_converse(last, t, n - 1, t - 1);
    assert(0int / t == 0) by {
        vstd::arithmetic::div_mod::lemma_fundamental_div_mod_converse(0, t, 0, 0);
    }
    if v >= 0 {
        let q = v / t;
        vstd::arithmetic::div_mod::lemma_fundamental_div_mod(v, t);
        vstd::arithmetic::div_mod::lemma_mod_bound(v, t);
        assert(t * q == q * t) by (nonlinear_arith);
        assert(q >= 0) by (nonlinear_arith)
            requires
                q * t + t > 0,
                t >= 1,
        ;
        assert((q + 1) * t == q * t + t) by (nonlinear_arith);
        if q >= n {
            assert(q * t >= n * t) by (nonlinear_arith)
                requires
                    q >= n,
                    t >= 1,
            ;
        } else {
            assert((q + 1) * t <= n * t) by (nonlinear_arith)
                requires
                    q + 1 <= n,
                    t >= 1,
            ;
        }
        if v < n * t {
            if q >= n {
                assert(false);
            }
        }
    }
}

/// Whether tile `k` lies in the closed rectangle of tiles from `(x0, y0)` to `(x1, y1)`.
pub open spec fn in_tile_rect(k: (u32, u32), x0: int, x1: int, y0: int, y1: int) -> bool {
    x0 <= k.0 <= x1 && y0 <= k.1 <= y1
}

/// Whether walking the rectangle column by column, each column from `y0` up, has passed
/// tile `k` before reaching row `y` of column `x`.
pub open spec fn walked(k: (u32, u32), x0: int, y0: int, y1: int, x: int, y: int) -> bool {
    (x0 <= k.0 < x && y0 <= k.1 <= y1) || (k.0 == x && y0 <= k.1 < y)
}

/// Whether `after` is `before` with the primitive `idx` added to every tile of the
/// rectangle of tiles whose extents `geometry` overlaps, and nothing else changed.
pub open spec fn marked(
    before: Map<(u32, u32), Tile>,
    after: Map<(u32, u32), Tile>,
    idx: usize,
    geometry: GeoShapeEnum,
    x0: int,
    x1: int,
    y0: int,
    y1: int,
) -> bool {
    &&& forall|k: (u32, u32)| #[trigger] after.contains_key(k) <==> before.contains_key(k)
    &&& forall|k: (u32, u32)| #[trigger]
        before.contains_key(k) ==> {
            &&& after[k].extents == before[k].extents
            &&& after[k].shapes@ == (if in_tile_rect(k, x0, x1, y0, y1) && geo_overlaps(
                geometry,
                before[k].extents,
            ) {
                before[k].shapes@.push(idx)
            } else {
                before[k].shapes@
            })
        }
}

/// Test `geometry` against every tile of the rectangle of tiles from `(x0, y0)` to
/// `(x1, y1)`, and add the primitive `idx` to each tile that it overlaps.
pub fn bin_shape(
    tilemap: &mut Tilemap,
    idx: usize,
    geometry: &GeoShapeEnum,
    x0: u32,
    x1: u32,
    y0: u32,
    y1: u32,
)
    requires
        forall|k: (u32, u32)| #[trigger]
            in_tile_rect(k, x0 as int, x1 as int, y0 as int, y1 as int) ==> old(
                tilemap,
            )@.contains_key(k) && geo_testable(*geometry, old(tilemap)@[k].extents),
    ensures
        marked(
            old(tilemap)@,
            final(tilemap)@,
            idx,
            *geometry,
            x0 as int,
            x1 as int,
            y0 as int,
            y1 as int,
        ),
{
    let ghost before = tilemap@;
    let mut x: u64 = x0 as u64;
    while x <= x1 as u64
        invariant
            x0 <= x,
            x <= x1 + 1 || x == x0,
            forall|k: (u32, u32)| #[trigger]
                in_tile_rect(k, x0 as int, x1 as int, y0 as int, y1 as int)
                    ==> before.contains_key(k) && geo_testable(*geometry, before[k].extents),
            forall|k: (u32, u32)| #[trigger] tilemap@.contains_key(k) <==> before.contains_key(k),
            forall|k: (u32, u32)| #[trigger]
                before.contains_key(k) ==> {
                    &&& tilemap@[k].extents == before[k].extents
                    &&& tilemap@[k].shapes@ == (if walked(
                        k,
                        x0 as int,
                        y0 as int,
                        y1 as int,
                        x as int,
                        y0 as int,
                    ) && geo_overlaps(*geometry, before[k].extents) {
                        before[k].shapes@.push(idx)
                    } else {
                        before[k].shapes@
                    })
                },
        decreases x1 + 1 - x,
    {
        let mut y: u64 = y0 as u64;
        while y <= y1 as u64
            invariant
                x0 <= x <= x1,
                y0 <= y,
                y <= y1 + 1 || y == y0,
                forall|k: (u32, u32)| #[trigger]
                    in_tile_rect(k, x0 as int, x1 as int, y0 as int, y1 as int)
                        ==> before.contains_key(k) && geo_testable(*geometry, before[k].extents),
                forall|k: (u32, u32)| #[trigger]
                    tilemap@.contains_key(k) <==> before.contains_key(k),
                forall|k: (u32, u32)| #[trigger]
                    before.contains_key(k) ==> {
                        &&& tilemap@[k].extents == before[k].extents
                        &&& tilemap@[k].shapes@ == (if walked(
                            k,
                            x0 as int,
                            y0 as int,
                            y1 as int,
                            x as int,
                            y as int,
                        ) && geo_overlaps(*geometry, before[k].extents) {
                            before[k].shapes@.push(idx)
                        } else {
                            before[k].shapes@
                        })
                    },
            decreases y1 + 1 - y,
        {
            let key = (x as u32, y as u32);
            assert(in_tile_rect(key, x0 as int, x1 as int, y0 as int, y1 as int));
            assert(before.contains_key(key));
            let ghost current = tilemap@;
            match tilemap.tile_mut(key) {
                Some(tile) => {
                    let extents = tile.extents;
                    let overlaps = intersects(geometry, &extents);
                    record_overlap(tile, idx, overlaps);
                },
                None => {},
            }
            assert forall|k: (u32, u32)| #[trigger] before.contains_key(k) implies {
                &&& tilemap@[k].extents == before[k].extents
                &&& tilemap@[k].shapes@ == (if walked(
                    k,
                    x0 as int,
                    y0 as int,
                    y1 as int,
                    x as int,
                    y + 1,
                ) && geo_overlaps(*geometry, before[k].extents) {
                    before[k].shapes@.push(idx)
                } else {
                    before[k].shapes@
                })
            } by {
                assert(current.contains_key(k));
                if k != key {
                    assert(tilemap@[k] == current[k]);
                }
            }
            y += 1;
        }
        x += 1;
    }
}

/// Taking one more primitive into account adds it to the tiles it is assigned to.
pub proof fn lemma_assigned_step(
    shapes: Seq<Shape>,
    idx: int,
    shift: (int, int),
    nx: int,
    ny: int,
    t: int,
    ix: int,
    iy: int,
)
    requires
        0 <= idx < shapes.len(),
    ensures
        assigned(shapes.take(idx + 1), shift, nx, ny, t, ix, iy) == (if hits(
            shapes[idx],
            shift,
            nx,
            ny,
            t,
            ix,
            iy,
        ) {
            assigned(shapes.take(idx), shift, nx, ny, t, ix, iy).push(idx as usize)
        } else {
            assigned(shapes.take(idx), shift, nx, ny, t, ix, iy)
        }),
{
    assert(shapes.take(idx + 1).drop_last() =~= shapes.take(idx));
    assert(shapes.take(idx + 1).last() == shapes[idx]);
}

/// Taking one more primitive into account adds it to the primitives without a bounding
/// box if it has none.
pub proof fn lemma_invalid_step(shapes: Seq<Shape>, idx: int)
    requires
        0 <= idx < shapes.len(),
    ensures
        invalid_shapes(shapes.take(idx + 1)) == (if shape_extent(shapes[idx]) is Err {
            invalid_shapes(shapes.take(idx)).push(idx as usize)
        } else {
            invalid_shapes(shapes.take(idx))
        }),
{
    assert(shapes.take(idx + 1).drop_last() =~= shapes.take(idx));
    assert(shapes.take(idx + 1).last() == shapes[idx]);
}

/// A primitive without a bounding box changes no tile.
proof fn lemma_skip_step(
    before: Map<(u32, u32), Tile>,
    now: Map<(u32, u32), Tile>,
    shapes: Seq<Shape>,
    idx: int,
    shift: (int, int),
    nx: int,
    ny: int,
    t: int,
)
    requires
        0 <= idx < shapes.len(),
        shape_extent(shapes[idx]) is Err,
        binned(before, now, shapes.take(idx), shift, nx, ny, t),
    ensures
        binned(before, now, shapes.take(idx + 1), shift, nx, ny, t),
{
    assert forall|k: (u32, u32)| #[trigger] before.contains_key(k) implies now[k].shapes@
        == before[k].shapes@ + assigned(
        shapes.take(idx + 1),
        shift,
        nx,
        ny,
        t,
        k.0 as int,
        k.1 as int,
    ) by {
        lemma_assigned_step(shapes, idx, shift, nx, ny, t, k.0 as int, k.1 as int);
    }
}

/// Marking the candidate range of a primitive with its geometry bins that primitive.
proof fn lemma_bin_step(
    before: Map<(u32, u32), Tile>,
    mid: Map<(u32, u32), Tile>,
    after: Map<(u32, u32), Tile>,
    shapes: Seq<Shape>,
    idx: int,
    g: GeoShapeEnum,
    c: Corners,
    shift: (int, int),
    nx: int,
    ny: int,
    t: int,
)
    requires
        0 <= idx < shapes.len(),
        idx <= usize::MAX,
        t > 0,
        shape_extent(shapes[idx]) == Ok::<Corners, GeometryError>(c),
        shows(g, shapes[idx], shift),
        is_grid(before, nx, ny, t),
        binned(before, mid, shapes.take(idx), shift, nx, ny, t),
        marked(
            mid,
            after,
            idx as usize,
            g,
            tile_index(c.0.0 + shift.0, nx, t),
            tile_index(c.1.0 + shift.0, nx, t),
            tile_index(c.0.1 + shift.1, ny, t),
            tile_index(c.1.1 + shift.1, ny, t),
        ),
    ensures
        binned(before, after, shapes.take(idx + 1), shift, nx, ny, t),
{
    let s = shapes[idx];
    assert forall|k: (u32, u32)| #[trigger] before.contains_key(k) implies {
        &&& after[k].extents == before[k].extents
        &&& after[k].shapes@ == before[k].shapes@ + assigned(
            shapes.take(idx + 1),
            shift,
            nx,
            ny,
            t,
            k.0 as int,
            k.1 as int,
        )
    } by {
        assert(mid.contains_key(k));
        let (ix, iy) = (k.0 as int, k.1 as int);
        lemma_assigned_step(shapes, idx, shift, nx, ny, t, ix, iy);
        let cell = mid[k].extents;
        assert(is_cell(cell, ix, iy, t));
        assert(in_tile_rect(
            k,
            tile_index(c.0.0 + shift.0, nx, t),
            tile_index(c.1.0 + shift.0, nx, t),
            tile_index(c.0.1 + shift.1, ny, t),
            tile_index(c.1.1 + shift.1, ny, t),
        ) == in_candidate_range(c, shift, nx, ny, t, ix, iy));
        assert(geo_overlaps(g, cell) == shape_overlaps(
            s,
            shift,
            (ix * t, iy * t),
            ((ix + 1) * t, (iy + 1) * t),
        ));
        let prior = assigned(shapes.take(idx), shift, nx, ny, t, ix, iy);
        assert((before[k].shapes@ + prior).push(idx as usize) =~= before[k].shapes@ + prior.push(
            idx as usize,
        ));
    }
}

/// Every tile of the candidate range of a primitive exists and can be tested against it.
proof fn lemma_candidates_testable(
    tiles: Map<(u32, u32), Tile>,
    s: Shape,
    g: GeoShapeEnum,
    c: Corners,
    shift: (int, int),
    nx: int,
    ny: int,
    t: int,
)
    requires
        t > 0,
        nx >= 1,
        ny >= 1,
        is_grid(tiles, nx, ny, t),
        shape_extent(s) == Ok::<Corners, GeometryError>(c),
        shows(g, s, shift),
        overlap_testable(s, shift, nx, ny, t),
    ensures
        forall|k: (u32, u32)| #[trigger]
            in_tile_rect(
                k,
                tile_index(c.0.0 + shift.0, nx, t),
                tile_index(c.1.0 + shift.0, nx, t),
                tile_index(c.0.1 + shift.1, ny, t),
                tile_index(c.1.1 + shift.1, ny, t),
            ) ==> tiles.contains_key(k) && geo_testable(g, tiles[k].extents),
{
    let x1 = tile_index(c.1.0 + shift.0, nx, t);
    let y1 = tile_index(c.1.1 + shift.1, ny, t);
    lemma_tile_index(c.1.0 + shift.0, nx, t);
    lemma_tile_index(c.1.1 + shift.1, ny, t);
    lemma_tile_index(c.0.0 + shift.0, nx, t);
    lemma_tile_index(c.0.1 + shift.1, ny, t);
    assert forall|k: (u32, u32)| #[trigger]
        in_tile_rect(
            k,
            tile_index(c.0.0 + shift.0, nx, t),
            x1,
            tile_index(c.0.1 + shift.1, ny, t),
            y1,
        ) implies tiles.contains_key(k) && geo_testable(g, tiles[k].extents) by {
        assert(tiles.contains_key(k));
        lemma_cell_bounds(k.0 as int, x1 + 1, t);
        lemma_cell_bounds(k.1 as int, y1 + 1, t);
        assert(is_cell(tiles[k].extents, k.0 as int, k.1 as int, t));
    }
}

/// Bin every primitive of `elems` into the tiles of the grid `tilemap`: each primitive
/// with a bounding box is tested against the tiles of its candidate range and added, by
/// its index, to those it overlaps. The primitives without a bounding box are left out
/// and handed back, by index. `shape_count` is advanced by the number of primitives.
pub fn import_cell_shapes(
    tilemap_shift: GeoCoord,
    texture_dim: u32,
    tilemap: &mut Tilemap,
    elems: &Vec<Shape>,
    shape_count: &mut u64,
) -> (skipped: Vec<usize>)
    requires
        is_shift(tilemap_shift),
        old(tilemap).is_grid_of(texture_dim as int),
        elems.bbox_representable(),
        forall|i: int|
            0 <= i < elems.len() ==> overlap_testable(
                #[trigger] elems[i],
                tilemap_shift.pair(),
                old(tilemap).shape().0,
                old(tilemap).shape().1,
                texture_dim as int,
            ),
        *old(shape_count) + elems.len() <= u64::MAX,
    ensures
        binned(
            old(tilemap)@,
            final(tilemap)@,
            elems@,
            tilemap_shift.pair(),
            old(tilemap).shape().0,
            old(tilemap).shape().1,
            texture_dim as int,
        ),
        skipped@ == invalid_shapes(elems@),
        *final(shape_count) == *old(shape_count) + elems.len(),
{
    let ghost before = tilemap@;
    let ghost shift = tilemap_shift.pair();
    let ghost t = texture_dim as int;
    let (num_x_tiles, num_y_tiles) = get_grid_shape(tilemap);
    let ghost nx = num_x_tiles as int;
    let ghost ny = num_y_tiles as int;
    let mut skipped: Vec<usize> = Vec::new();
    let mut idx: usize = 0;
    assert(elems@.take(0) =~= Seq::<Shape>::empty());
    while idx < elems.len()
        invariant
            idx <= elems.len(),
            t == texture_dim as int,
            t > 0,
            nx == num_x_tiles as int,
            ny == num_y_tiles as int,
            nx >= 1,
            ny >= 1,
            shift == tilemap_shift.pair(),
            is_shift(tilemap_shift),
            is_grid(before, nx, ny, t),
            elems.bbox_representable(),
            forall|i: int|
                0 <= i < elems.len() ==> overlap_testable(#[trigger] elems[i], shift, nx, ny, t),
            binned(before, tilemap@, elems@.take(idx as int), shift, nx, ny, t),
            skipped@ == invalid_shapes(elems@.take(idx as int)),
            *shape_count == *old(shape_count) + idx,
            *old(shape_count) + elems.len() <= u64::MAX,
        decreases elems.len() - idx,
    {
        let ghost mid = tilemap@;
        proof {
            lemma_invalid_step(elems@, idx as int);
        }
        match elems[idx].bbox() {
            Ok(bbox) => {
                let min_tile_x = tile_index_of(
                    bbox.min().x as i64 + tilemap_shift.x,
                    num_x_tiles,
                    texture_dim,
                );
                let min_tile_y = tile_index_of(
                    bbox.min().y as i64 + tilemap_shift.y,
                    num_y_tiles,
                    texture_dim,
                );
                let max_tile_x = tile_index_of(
                    bbox.max().x as i64 + tilemap_shift.x,
                    num_x_tiles,
                    texture_dim,
                );
                let max_tile_y = tile_index_of(
                    bbox.max().y as i64 + tilemap_shift.y,
                    num_y_tiles,
                    texture_dim,
                );
                match geo_shape_of(&elems[idx], tilemap_shift) {
                    Ok(geo_shape) => {
                        proof {
                            let c = bbox.corners();
                            assert(min_tile_x == tile_index(c.0.0 + shift.0, nx, t));
                            assert(max_tile_x == tile_index(c.1.0 + shift.0, nx, t));
                            assert(min_tile_y == tile_index(c.0.1 + shift.1, ny, t));
                            assert(max_tile_y == tile_index(c.1.1 + shift.1, ny, t));
                            assert(is_grid(mid, nx, ny, t));
                            lemma_candidates_testable(
                                mid,
                                elems[idx as int],
                                geo_shape,
                                bbox.corners(),
                                shift,
                                nx,
                                ny,
                                t,
                            );
                        }
                        bin_shape(
                            tilemap,
                            idx,
                            &geo_shape,
                            min_tile_x,
                            max_tile_x,
                            min_tile_y,
                            max_tile_y,
                        );
                        proof {
                            lemma_bin_step(
                                before,
                                mid,
                                tilemap@,
                                elems@,
                                idx as int,
                                geo_shape,
                                bbox.corners(),
                                shift,
                                nx,
                                ny,
                                t,
                            );
                        }
                    },
                    Err(_) => {},
                }
            },
            Err(_) => {
                proof {
                    lemma_skip_step(before, mid, elems@, idx as int, shift, nx, ny, t);
                }
                skipped.push(idx);
            },
        }
        *shape_count += 1;
        idx += 1;
    }
    assert(elems@.take(elems.len() as int) =~= elems@);
    skipped
}

/// Whether `tiles` is the tile index of `shapes`: the dense grid of tiles of edge `t` over
/// the box with the corners `c`, each tile holding exactly the primitives assigned to it,
/// in increasing order of their index.
pub open spec fn indexes(
    tiles: Map<(u32, u32), Tile>,
    shapes: Seq<Shape>,
    c: Corners,
    t: int,
) -> bool {
    &&& is_grid(tiles, grid_columns(c, t), grid_rows(c, t), t)
    &&& forall|k: (u32, u32)| #[trigger]
        tiles.contains_key(k) ==> tiles[k].shapes@ == assigned(
            shapes,
            shift_of(c),
            grid_columns(c, t),
            grid_rows(c, t),
            t,
            k.0 as int,
            k.1 as int,
        )
}

/// Whether the exact test can be made for every primitive of a batch on the grid of tiles
/// of edge `t` over the batch.
pub open spec fn tileable(shapes: Seq<Shape>, t: int) -> bool {
    match batch_extent(shapes) {
        Ok(c) => forall|i: int|
            0 <= i < shapes.len() ==> overlap_testable(
                #[trigger] shapes[i],
                shift_of(c),
                grid_columns(c, t),
                grid_rows(c, t),
                t,
            ),
        Err(_) => true,
    }
}

/// A batch with a bounding box has no primitive without one.
pub proof fn lemma_batch_all_valid(shapes: Seq<Shape>)
    requires
        batch_extent(shapes) is Ok,
    ensures
        forall|i: int| 0 <= i < shapes.len() ==> shape_extent(#[trigger] shapes[i]) is Ok,
        invalid_shapes(shapes) == Seq::<usize>::empty(),
    decreases shapes.len(),
{
    if shapes.len() > 1 {
        lemma_batch_all_valid(shapes.drop_last());
        assert forall|i: int| 0 <= i < shapes.len() implies shape_extent(#[trigger] shapes[i])
            is Ok by {
            if i < shapes.len() - 1 {
                assert(shapes.drop_last()[i] == shapes[i]);
            }
        }
    } else {
        assert(invalid_shapes(shapes.drop_last()) == Seq::<usize>::empty());
    }
}

/// Build the tile index of a batch of primitives: the grid of tiles of edge `tile_size`
/// over the bounding box of the batch, with every primitive binned. The shift into
/// the shifted space of the grid is handed back with it.
pub fn tile_shapes(shapes: &Vec<Shape>, tile_size: u32) -> (r: Result<
    (Tilemap, GeoCoord),
    GeometryError,
>)
    requires
        tile_size > 0,
        shapes.bbox_representable(),
        tileable(shapes@, tile_size as int),
    ensures
        r matches Ok(index) ==> batch_extent(shapes@) matches Ok(c) && indexes(
            index.0@,
            shapes@,
            c,
            tile_size as int,
        ) && index.1.pair() == shift_of(c),
        r matches Err(e) ==> batch_extent(shapes@) == Err::<Corners, GeometryError>(e),
{
    let bbox = match shapes.bbox() {
        Ok(bbox) => bbox,
        Err(e) => {
            return Err(e);
        },
    };
    let ghost c = bbox.corners();
    let ghost t = tile_size as int;
    let shift = tilemap_shift(&bbox);
    let mut tilemap = build_tilemap(&bbox, tile_size);
    let ghost before = tilemap@;
    proof {
        use_type_invariant(&bbox);
        lemma_positive_extent(bbox);
        lemma_ceil_div(c.1.0 + shift_of(c).0, t);
        lemma_ceil_div(c.1.1 + shift_of(c).1, t);
        lemma_grid_shape(tilemap, grid_columns(c, t), grid_rows(c, t), t);
        lemma_batch_all_valid(shapes@);
    }
    let mut shape_count: u64 = 0;
    let skipped = import_cell_shapes(shift, tile_size, &mut tilemap, shapes, &mut shape_count);
    proof {
        assert forall|k: (u32, u32)| #[trigger] tilemap@.contains_key(k) implies tilemap@[k].shapes@
            == assigned(
            shapes@,
            shift_of(c),
            grid_columns(c, t),
            grid_rows(c, t),
            t,
            k.0 as int,
            k.1 as int,
        ) by {
            assert(before.contains_key(k));
            assert(before[k].shapes@ =~= Seq::<usize>::empty());
            assert(before[k].shapes@ + assigned(
                shapes@,
                shift_of(c),
                grid_columns(c, t),
                grid_rows(c, t),
                t,
                k.0 as int,
                k.1 as int,
            ) =~= assigned(
                shapes@,
                shift_of(c),
                grid_columns(c, t),
                grid_rows(c, t),
                t,
                k.0 as int,
                k.1 as int,
            ));
        }
    }
    Ok((tilemap, shift))
}

/// Whether every vertex of a ring is small enough for the polygon overlap test.
fn ring_is_in_geo_range(polygon: &GeoPolygon) -> (ok: bool)
    ensures
        ok == ring_in_geo_range(polygon.ring()),
{
    let mut i: usize = 0;
    while i < polygon.exterior.len()
        invariant
            i <= polygon.exterior.len(),
            forall|j: int| 0 <= j < i ==> in_geo_range(#[trigger] polygon.ring()[j]),
        decreases polygon.exterior.len() - i,
    {
        let c = polygon.exterior[i];
        if c.x <= -GEO_COORD_LIMIT || c.x >= GEO_COORD_LIMIT || c.y <= -GEO_COORD_LIMIT || c.y
            >= GEO_COORD_LIMIT {
            assert(!in_geo_range(polygon.ring()[i as int]));
            return false;
        }
        i += 1;
    }
    true
}

/// Whether the tiles up to the one that holds the shifted coordinate `v` end below the
/// coordinate limit of the polygon test.
fn tiles_end_in_geo_range(v: i64, n: u32, t: u32) -> (ok: bool)
    requires
        n >= 1,
        t >= 1,
    ensures
        ok == ((tile_index(v as int, n as int, t as int) + 1) * t < GEO_COORD_LIMIT),
{
    let last = tile_index_of(v, n, t);
    proof {
        lemma_cell_bounds(last as int, n as int, t as int);
        assert((last + 1) * t <= 0xffff_ffff * 0xffff_ffff) by (nonlinear_arith)
            requires
                0 <= last + 1 <= 0xffff_ffff,
                0 <= t <= 0xffff_ffff,
        ;
    }
    (last as u64 + 1) * (t as u64) < GEO_COORD_LIMIT as u64
}

/// Whether the exact test can be made for a primitive on every tile of its candidate range
/// in a grid of `num_x_tiles` columns and `num_y_tiles` rows of tiles of edge `tile_size`.
pub fn is_overlap_testable(
    shape: &Shape,
    shift: GeoCoord,
    num_x_tiles: u32,
    num_y_tiles: u32,
    tile_size: u32,
) -> (ok: bool)
    requires
        shape.bbox_representable(),
        is_shift(shift),
        num_x_tiles >= 1,
        num_y_tiles >= 1,
        tile_size >= 1,
    ensures
        ok == overlap_testable(
            *shape,
            shift.pair(),
            num_x_tiles as int,
            num_y_tiles as int,
            tile_size as int,
        ),
{
    match shape {
        Shape::Rect(_) => true,
        _ => {
            let bbox = match shape.bbox() {
                Ok(bbox) => bbox,
                Err(_) => {
                    return true;
                },
            };
            match geo_shape_of(shape, shift) {
                Ok(GeoShapeEnum::Polygon(polygon)) => {
                    ring_is_in_geo_range(&polygon) && tiles_end_in_geo_range(
                        bbox.max().x as i64 + shift.x,
                        num_x_tiles,
                        tile_size,
                    ) && tiles_end_in_geo_range(
                        bbox.max().y as i64 + shift.y,
                        num_y_tiles,
                        tile_size,
                    )
                },
                _ => true,
            }
        },
    }
}

/// Whether `tile_shapes` can be asked for the tile index of a batch: the tile size is
/// positive, every bounding box fits the coordinate space, and every polygon and outline
/// stays below the coordinate limit of the polygon test.
pub fn can_tile(shapes: &Vec<Shape>, tile_size: u32) -> (ok: bool)
    ensures
        ok == (tile_size > 0 && shapes.bbox_representable() && tileable(
            shapes@,
            tile_size as int,
        )),
{
    if tile_size == 0 || !all_representable(shapes) {
        return false;
    }
    let bbox = match shapes.bbox() {
        Ok(bbox) => bbox,
        Err(_) => {
            return true;
        },
    };
    let ghost c = bbox.corners();
    let ghost t = tile_size as int;
    proof {
        use_type_invariant(&bbox);
        lemma_positive_extent(bbox);
        lemma_ceil_div(c.1.0 + shift_of(c).0, t);
        lemma_ceil_div(c.1.1 + shift_of(c).1, t);
    }
    let shift = tilemap_shift(&bbox);
    let edge: i64 = tile_size as i64;
    let num_x_tiles: u32 = ((bbox.max().x as i64 + shift.x + edge - 1) / edge) as u32;
    let num_y_tiles: u32 = ((bbox.max().y as i64 + shift.y + edge - 1) / edge) as u32;
    let mut i: usize = 0;
    while i < shapes.len()
        invariant
            i <= shapes.len(),
            tile_size >= 1,
            t == tile_size as int,
            shapes.bbox_representable(),
            is_shift(shift),
            shift.pair() == shift_of(c),
            num_x_tiles == grid_columns(c, t),
            num_y_tiles == grid_rows(c, t),
            num_x_tiles >= 1,
            num_y_tiles >= 1,
            batch_extent(shapes@) == Ok::<Corners, GeometryError>(c),
            forall|j: int|
                0 <= j < i ==> overlap_testable(
                    #[trigger] shapes[j],
                    shift_of(c),
                    grid_columns(c, t),
                    grid_rows(c, t),
                    t,
                ),
        decreases shapes.len() - i,
    {
        if !is_overlap_testable(&shapes[i], shift, num_x_tiles, num_y_tiles, tile_size) {
            return false;
        }
        i += 1;
    }
    true
}

} // verus!
