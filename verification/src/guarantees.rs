use vstd::prelude::*;
use crate::bbox::{
    extent_of, highest, lemma_highest, lemma_lowest, lowest, max_int, min_int, xs, ys, Corners,
};
use crate::binning::{
    assigned, binned, hits, in_candidate_range, indexes, lemma_tile_index, moved, shape_overlaps,
    tile_index,
};
use crate::error::GeometryError;
use crate::shapes::{lemma_rect_extent, shape_extent, shape_vertices, Rect, Shape};
use crate::tiling::{
    all_tiles_empty, cell_contains, grid_columns, grid_rows, is_cell, is_grid, lemma_ceil_div,
    lemma_cell_bounds, shift_of,
};
use crate::types::{GeoRect, Tile};

verus! {

/// The tile of a grid whose half-open extents hold the point `p` of the shifted plane.
pub open spec fn tile_of(p: (int, int), t: int) -> (u32, u32) {
    ((p.0 / t) as u32, (p.1 / t) as u32)
}

/// Grid coverage: every point of the shifted plane that lies inside a grid lies in the
/// half-open extents of exactly one of its tiles.
pub proof fn lemma_grid_coverage(
    tiles: Map<(u32, u32), Tile>,
    nx: int,
    ny: int,
    t: int,
    p: (int, int),
)
    requires
        t > 0,
        1 <= nx <= u32::MAX,
        1 <= ny <= u32::MAX,
        is_grid(tiles, nx, ny, t),
        0 <= p.0 < nx * t,
        0 <= p.1 < ny * t,
    ensures
        tiles.contains_key(tile_of(p, t)),
        cell_contains(tiles[tile_of(p, t)].extents, p),
        forall|k: (u32, u32)| #[trigger]
            tiles.contains_key(k) && cell_contains(tiles[k].extents, p) ==> k == tile_of(p, t),
{
    lemma_tile_index(p.0, nx, t);
    lemma_tile_index(p.1, ny, t);
    let home = tile_of(p, t);
    assert(home.0 == tile_index(p.0, nx, t));
    assert(home.1 == tile_index(p.1, ny, t));
    assert(tiles.contains_key(home));
    assert(is_cell(tiles[home].extents, home.0 as int, home.1 as int, t));
    assert forall|k: (u32, u32)| #[trigger]
        tiles.contains_key(k) && cell_contains(tiles[k].extents, p) implies k == home by {
        assert(is_cell(tiles[k].extents, k.0 as int, k.1 as int, t));
        lemma_same_cell(p.0, k.0 as int, home.0 as int, t);
        lemma_same_cell(p.1, k.1 as int, home.1 as int, t);
    }
}

/// A coordinate lies in one interval of length `t` of the tiling of the line only.
proof fn lemma_same_cell(v: int, i: int, j: int, t: int)
    requires
        t > 0,
        i * t <= v < (i + 1) * t,
        j * t <= v < (j + 1) * t,
    ensures
        i == j,
{
    if i < j {
        assert((i + 1) * t <= j * t) by (nonlinear_arith)
            requires
                i + 1 <= j,
                t > 0,
        ;
    } else if j < i {
        assert((j + 1) * t <= i * t) by (nonlinear_arith)
            requires
                j + 1 <= i,
                t > 0,
        ;
    }
}

/// Grid coverage of a bounding box: in the grid built over a box, every point of the box
/// lies, once shifted, in the half-open extents of exactly one tile, unless it lies on the
/// far edge of the grid, which a box whose shifted extent is a whole number of tiles
/// reaches.
pub proof fn lemma_box_coverage(tiles: Map<(u32, u32), Tile>, c: Corners, t: int, p: (int, int))
    requires
        t > 0,
        i32::MIN <= c.0.0 < c.1.0 <= i32::MAX,
        i32::MIN <= c.0.1 < c.1.1 <= i32::MAX,
        is_grid(tiles, grid_columns(c, t), grid_rows(c, t), t),
        c.0.0 <= p.0 <= c.1.0,
        c.0.1 <= p.1 <= c.1.1,
        p.0 + shift_of(c).0 < grid_columns(c, t) * t,
        p.1 + shift_of(c).1 < grid_rows(c, t) * t,
    ensures
        tiles.contains_key(tile_of(moved(p, shift_of(c)), t)),
        cell_contains(tiles[tile_of(moved(p, shift_of(c)), t)].extents, moved(p, shift_of(c))),
        forall|k: (u32, u32)| #[trigger]
            tiles.contains_key(k) && cell_contains(tiles[k].extents, moved(p, shift_of(c))) ==> k
                == tile_of(moved(p, shift_of(c)), t),
{
    lemma_ceil_div(c.1.0 + shift_of(c).0, t);
    lemma_ceil_div(c.1.1 + shift_of(c).1, t);
    lemma_grid_coverage(tiles, grid_columns(c, t), grid_rows(c, t), t, moved(p, shift_of(c)));
}

/// A grid over a box reaches at least to the shifted far corner of the box: only points on
/// the far edges of the box can fall on the far edge of the grid.
pub proof fn lemma_box_inside_grid(c: Corners, t: int, p: (int, int))
    requires
        t > 0,
        c.0.0 < c.1.0,
        c.0.1 < c.1.1,
        c.0.0 <= p.0 < c.1.0,
        c.0.1 <= p.1 < c.1.1,
    ensures
        0 <= p.0 + shift_of(c).0 < grid_columns(c, t) * t,
        0 <= p.1 + shift_of(c).1 < grid_rows(c, t) * t,
{
    lemma_ceil_div(c.1.0 + shift_of(c).0, t);
    lemma_ceil_div(c.1.1 + shift_of(c).1, t);
}

/// The primitives assigned to a tile are exactly those that hit it, and they are listed in
/// strictly increasing order, so none of them twice.
pub proof fn lemma_assigned(
    shapes: Seq<Shape>,
    shift: (int, int),
    nx: int,
    ny: int,
    t: int,
    ix: int,
    iy: int,
)
    requires
        shapes.len() <= usize::MAX,
    ensures
        forall|j: usize|
            assigned(shapes, shift, nx, ny, t, ix, iy).contains(j) <==> j < shapes.len() && hits(
                #[trigger] shapes[j as int],
                shift,
                nx,
                ny,
                t,
                ix,
                iy,
            ),
        forall|a: int, b: int|
            0 <= a < b < assigned(shapes, shift, nx, ny, t, ix, iy).len() ==> assigned(
                shapes,
                shift,
                nx,
                ny,
                t,
                ix,
                iy,
            )[a] < assigned(shapes, shift, nx, ny, t, ix, iy)[b],
        forall|a: int|
            0 <= a < assigned(shapes, shift, nx, ny, t, ix, iy).len() ==> assigned(
                shapes,
                shift,
                nx,
                ny,
                t,
                ix,
                iy,
            )[a] < shapes.len(),
    decreases shapes.len(),
{
    let all = assigned(shapes, shift, nx, ny, t, ix, iy);
    if shapes.len() > 0 {
        let rest = shapes.drop_last();
        let prior = assigned(rest, shift, nx, ny, t, ix, iy);
        let last = (shapes.len() - 1) as usize;
        lemma_assigned(rest, shift, nx, ny, t, ix, iy);
        assert forall|j: usize| all.contains(j) <==> j < shapes.len() && hits(
            #[trigger] shapes[j as int],
            shift,
            nx,
            ny,
            t,
            ix,
            iy,
        ) by {
            if j < rest.len() {
                assert(rest[j as int] == shapes[j as int]);
            }
            if all.contains(j) {
                let w = choose|w: int| 0 <= w < all.len() && all[w] == j;
                if w < prior.len() {
                    assert(prior[w] == j);
                    assert(prior.contains(j));
                }
            }
            if j < shapes.len() && hits(shapes[j as int], shift, nx, ny, t, ix, iy) {
                if j == last {
                    assert(all[all.len() - 1] == j);
                } else {
                    assert(prior.contains(j));
                    let w = choose|w: int| 0 <= w < prior.len() && prior[w] == j;
                    assert(all[w] == j);
                }
            }
        }
    } else {
        assert forall|j: usize| all.contains(j) <==> j < shapes.len() && hits(
            #[trigger] shapes[j as int],
            shift,
            nx,
            ny,
            t,
            ix,
            iy,
        ) by {
            if all.contains(j) {
                let w = choose|w: int| 0 <= w < all.len() && all[w] == j;
            }
        }
    }
}

/// Binning soundness and completeness: after binning a batch into empty tiles, the index of
/// a primitive is among the primitives of a tile exactly if the primitive has a bounding
/// box, the tile lies in its candidate range, and the exact test between its geometry and
/// the extents of the tile holds.
pub proof fn lemma_binning_exact(
    before: Map<(u32, u32), Tile>,
    after: Map<(u32, u32), Tile>,
    shapes: Seq<Shape>,
    shift: (int, int),
    nx: int,
    ny: int,
    t: int,
    k: (u32, u32),
    j: usize,
)
    requires
        shapes.len() <= usize::MAX,
        all_tiles_empty(before),
        binned(before, after, shapes, shift, nx, ny, t),
        before.contains_key(k),
    ensures
        after[k].shapes@.contains(j) <==> j < shapes.len() && hits(
            shapes[j as int],
            shift,
            nx,
            ny,
            t,
            k.0 as int,
            k.1 as int,
        ),
{
    lemma_assigned(shapes, shift, nx, ny, t, k.0 as int, k.1 as int);
    assert(before[k].shapes@ =~= Seq::<usize>::empty());
    assert(after[k].shapes@ =~= assigned(shapes, shift, nx, ny, t, k.0 as int, k.1 as int));
}

/// Whether the point `p` of the shifted plane lies in the closed rectangle `r`, shifted.
pub open spec fn rect_holds(r: Rect, shift: (int, int), p: (int, int)) -> bool {
    &&& min_int(r.p0.x as int, r.p1.x as int) + shift.0 <= p.0 <= max_int(
        r.p0.x as int,
        r.p1.x as int,
    ) + shift.0
    &&& min_int(r.p0.y as int, r.p1.y as int) + shift.1 <= p.1 <= max_int(
        r.p0.y as int,
        r.p1.y as int,
    ) + shift.1
}

/// Whether the point `p` lies in the half-open extents of tile `(ix, iy)`.
pub open spec fn tile_holds(ix: int, iy: int, t: int, p: (int, int)) -> bool {
    ix * t <= p.0 < (ix + 1) * t && iy * t <= p.1 < (iy + 1) * t
}

/// For rectangles, being assigned to a tile is sharing a point with it: a rectangle with
/// positive extent whose lower-left corner does not lie beyond the far edge of the grid
/// hits a tile of the grid exactly if some point lies both in the rectangle and in the
/// half-open extents of the tile.
pub proof fn lemma_rect_hits_iff_shared_point(
    r: Rect,
    shift: (int, int),
    nx: int,
    ny: int,
    t: int,
    ix: int,
    iy: int,
)
    requires
        t > 0,
        0 <= ix < nx,
        0 <= iy < ny,
        r.p0.x != r.p1.x,
        r.p0.y != r.p1.y,
        min_int(r.p0.x as int, r.p1.x as int) + shift.0 < nx * t,
        min_int(r.p0.y as int, r.p1.y as int) + shift.1 < ny * t,
    ensures
        hits(Shape::Rect(r), shift, nx, ny, t, ix, iy) <==> exists|p: (int, int)|
            rect_holds(r, shift, p) && #[trigger] tile_holds(ix, iy, t, p),
{
    lemma_rect_extent(r);
    let a = (
        min_int(r.p0.x as int, r.p1.x as int) + shift.0,
        min_int(r.p0.y as int, r.p1.y as int) + shift.1,
    );
    let b = (
        max_int(r.p0.x as int, r.p1.x as int) + shift.0,
        max_int(r.p0.y as int, r.p1.y as int) + shift.1,
    );
    let c = shape_extent(Shape::Rect(r)).unwrap();
    lemma_axis(a.0, b.0, nx, t, ix);
    lemma_axis(a.1, b.1, ny, t, iy);
    let hit_x = tile_index(a.0, nx, t) <= ix <= tile_index(b.0, nx, t) && a.0 <= (ix + 1) * t && ix
        * t <= b.0;
    let hit_y = tile_index(a.1, ny, t) <= iy <= tile_index(b.1, ny, t) && a.1 <= (iy + 1) * t && iy
        * t <= b.1;
    assert(hits(Shape::Rect(r), shift, nx, ny, t, ix, iy) == (hit_x && hit_y));
    if hit_x && hit_y {
        let p = (max_int(a.0, ix * t), max_int(a.1, iy * t));
        assert(rect_holds(r, shift, p) && tile_holds(ix, iy, t, p));
    }
    if exists|p: (int, int)| rect_holds(r, shift, p) && #[trigger] tile_holds(ix, iy, t, p) {
        let p = choose|p: (int, int)| rect_holds(r, shift, p) && #[trigger] tile_holds(ix, iy, t, p);
        assert(a.0 <= p.0 <= b.0 && ix * t <= p.0 < (ix + 1) * t);
        assert(a.1 <= p.1 <= b.1 && iy * t <= p.1 < (iy + 1) * t);
    }
}

/// On one axis: the interval `[a, b]` is a candidate for, and overlaps, the closed cell `i`
/// exactly if it shares a coordinate with the half-open cell `i`.
proof fn lemma_axis(a: int, b: int, n: int, t: int, i: int)
    requires
        t > 0,
        0 <= i < n,
        a < b,
        a < n * t,
    ensures
        (tile_index(a, n, t) <= i <= tile_index(b, n, t) && a <= (i + 1) * t && i * t <= b) <==> (
        max_int(a, i * t) <= b && max_int(a, i * t) < (i + 1) * t),
{
    lemma_tile_index(a, n, t);
    lemma_tile_index(b, n, t);
    lemma_cell_bounds(i, n, t);
    let ia = tile_index(a, n, t);
    let ib = tile_index(b, n, t);
    if max_int(a, i * t) <= b && max_int(a, i * t) < (i + 1) * t {
        // a < (i + 1) t, so the tile of a is at most i; b >= i t, so the tile of b at least i
        if a >= 0 {
            if ia > i {
                assert((i + 1) * t <= ia * t) by (nonlinear_arith)
                    requires
                        i + 1 <= ia,
                        t > 0,
                ;
            }
        }
        if b < n * t {
            if ib < i {
                assert((ib + 1) * t <= i * t) by (nonlinear_arith)
                    requires
                        ib + 1 <= i,
                        t > 0,
                ;
            }
        } else {
            lemma_last_tile(b, n, t);
        }
    }
    if ia <= i <= ib && a <= (i + 1) * t && i * t <= b {
        if a >= 0 {
            assert((ia + 1) * t <= (i + 1) * t) by (nonlinear_arith)
                requires
                    ia <= i,
                    t > 0,
            ;
        }
    }
}

/// A coordinate at or beyond the far edge of the grid belongs to the last tile.
proof fn lemma_last_tile(v: int, n: int, t: int)
    requires
        n >= 1,
        t >= 1,
        v >= n * t,
    ensures
        tile_index(v, n, t) == n - 1,
{
    lemma_tile_index(v, n, t);
    assert(n * t >= 1) by (nonlinear_arith)
        requires
            n >= 1,
            t >= 1,
    ;
    if v / t < n {
        vstd::arithmetic::div_mod::lemma_fundamental_div_mod(v, t);
        vstd::arithmetic::div_mod::lemma_mod_bound(v, t);
        assert(t * (v / t) + t <= n * t) by (nonlinear_arith)
            requires
                v / t + 1 <= n,
                t >= 1,
        ;
    }
}

/// Whether the point `p` of the shifted plane lies in the closed box with the corners `c`,
/// shifted.
pub open spec fn box_holds(c: Corners, shift: (int, int), p: (int, int)) -> bool {
    &&& c.0.0 + shift.0 <= p.0 <= c.1.0 + shift.0
    &&& c.0.1 + shift.1 <= p.1 <= c.1.1 + shift.1
}

/// On one axis: where the interval `[a, b]` reaches into the grid, cell `i` is a candidate
/// for it exactly if the interval shares a coordinate with the half-open cell `i`.
proof fn lemma_axis_candidate(a: int, b: int, n: int, t: int, i: int)
    requires
        t > 0,
        0 <= i < n,
        a < b,
        0 <= b,
        a < n * t,
    ensures
        (tile_index(a, n, t) <= i <= tile_index(b, n, t)) <==> (max_int(a, i * t) <= b && max_int(
            a,
            i * t,
        ) < (i + 1) * t),
{
    lemma_axis(a, b, n, t, i);
    lemma_tile_index(a, n, t);
    lemma_tile_index(b, n, t);
    lemma_cell_bounds(i, n, t);
    let ia = tile_index(a, n, t);
    let ib = tile_index(b, n, t);
    if ia <= i <= ib {
        if a >= 0 {
            assert((ia + 1) * t <= (i + 1) * t) by (nonlinear_arith)
                requires
                    ia <= i,
                    t > 0,
            ;
        }
        if b < n * t {
            assert(i * t <= ib * t) by (nonlinear_arith)
                requires
                    i <= ib,
                    t > 0,
            ;
        }
    }
}

/// The candidate range of a bounding box that reaches into the grid is the set of tiles
/// whose half-open extents share a point with the box.
pub proof fn lemma_candidate_range(
    c: Corners,
    shift: (int, int),
    nx: int,
    ny: int,
    t: int,
    ix: int,
    iy: int,
)
    requires
        t > 0,
        0 <= ix < nx,
        0 <= iy < ny,
        c.0.0 < c.1.0,
        c.0.1 < c.1.1,
        0 <= c.1.0 + shift.0,
        0 <= c.1.1 + shift.1,
        c.0.0 + shift.0 < nx * t,
        c.0.1 + shift.1 < ny * t,
    ensures
        in_candidate_range(c, shift, nx, ny, t, ix, iy) <==> exists|p: (int, int)|
            box_holds(c, shift, p) && #[trigger] tile_holds(ix, iy, t, p),
{
    let a = (c.0.0 + shift.0, c.0.1 + shift.1);
    let b = (c.1.0 + shift.0, c.1.1 + shift.1);
    lemma_axis_candidate(a.0, b.0, nx, t, ix);
    lemma_axis_candidate(a.1, b.1, ny, t, iy);
    if in_candidate_range(c, shift, nx, ny, t, ix, iy) {
        let p = (max_int(a.0, ix * t), max_int(a.1, iy * t));
        assert(box_holds(c, shift, p) && tile_holds(ix, iy, t, p));
    }
    if exists|p: (int, int)| box_holds(c, shift, p) && #[trigger] tile_holds(ix, iy, t, p) {
        let p = choose|p: (int, int)| box_holds(c, shift, p) && #[trigger] tile_holds(ix, iy, t, p);
        assert(a.0 <= p.0 <= b.0 && ix * t <= p.0 < (ix + 1) * t);
        assert(a.1 <= p.1 <= b.1 && iy * t <= p.1 < (iy + 1) * t);
    }
}

/// The bounding box of a set of vertices has positive extent in both axes.
pub proof fn lemma_extent_positive(vs: Seq<(int, int)>, c: Corners)
    requires
        extent_of(vs) == Ok::<Corners, GeometryError>(c),
    ensures
        c.0.0 < c.1.0,
        c.0.1 < c.1.1,
{
    lemma_lowest(xs(vs));
    lemma_highest(xs(vs));
    lemma_lowest(ys(vs));
    lemma_highest(ys(vs));
    let i = choose|i: int| 0 <= i < xs(vs).len() && #[trigger] xs(vs)[i] == lowest(xs(vs));
    assert(highest(xs(vs)) >= xs(vs)[i]);
    let j = choose|j: int| 0 <= j < ys(vs).len() && #[trigger] ys(vs)[j] == lowest(ys(vs));
    assert(highest(ys(vs)) >= ys(vs)[j]);
}

/// No false negatives inside the bounding box: a primitive whose bounding box reaches
/// into the grid is assigned to a tile exactly if the exact test between its geometry and
/// the extents of the tile holds and its bounding box shares a point with the half-open
/// extents of the tile.
pub proof fn lemma_hits_within_box(
    s: Shape,
    c: Corners,
    shift: (int, int),
    nx: int,
    ny: int,
    t: int,
    ix: int,
    iy: int,
)
    requires
        t > 0,
        0 <= ix < nx,
        0 <= iy < ny,
        shape_extent(s) == Ok::<Corners, GeometryError>(c),
        0 <= c.1.0 + shift.0,
        0 <= c.1.1 + shift.1,
        c.0.0 + shift.0 < nx * t,
        c.0.1 + shift.1 < ny * t,
    ensures
        hits(s, shift, nx, ny, t, ix, iy) <==> shape_overlaps(
            s,
            shift,
            (ix * t, iy * t),
            ((ix + 1) * t, (iy + 1) * t),
        ) && exists|p: (int, int)| box_holds(c, shift, p) && #[trigger] tile_holds(ix, iy, t, p),
{
    lemma_extent_positive(shape_vertices(s).unwrap(), c);
    lemma_candidate_range(c, shift, nx, ny, t, ix, iy);
}

/// What a tile map holds, with each list of primitives as a sequence.
pub open spec fn tile_contents(tiles: Map<(u32, u32), Tile>) -> Map<(u32, u32), (GeoRect, Seq<usize>)> {
    Map::new(|k: (u32, u32)| tiles.contains_key(k), |k: (u32, u32)| (tiles[k].extents, tiles[k].shapes@))
}

/// Idempotence: two tile indexes of the same primitives with the same tile size hold the
/// same tiles, with the same extents and the same primitives in the same order.
pub proof fn lemma_rebuild_identical(
    first: Map<(u32, u32), Tile>,
    second: Map<(u32, u32), Tile>,
    shapes: Seq<Shape>,
    c: Corners,
    t: int,
)
    requires
        indexes(first, shapes, c, t),
        indexes(second, shapes, c, t),
    ensures
        tile_contents(first) == tile_contents(second),
{
    assert forall|k: (u32, u32)| #[trigger] first.contains_key(k) implies first[k].extents
        == second[k].extents by {
        assert(second.contains_key(k));
        assert(is_cell(first[k].extents, k.0 as int, k.1 as int, t));
        assert(is_cell(second[k].extents, k.0 as int, k.1 as int, t));
    }
    assert(tile_contents(first) =~= tile_contents(second));
}

} // verus!
