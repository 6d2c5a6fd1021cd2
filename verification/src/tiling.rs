use vstd::prelude::*;
use crate::bbox::{lemma_positive_extent, BoundingBox, Corners};
use crate::types::{GeoCoord, GeoRect, Tile, Tilemap, TilemapLowerLeft};

verus! {

/// The quotient of `a` by `b`, rounded up.
pub open spec fn ceil_div(a: int, b: int) -> int {
    (a + b - 1) / b
}

/// The shift that moves the lower-left corner of a box into the non-negative
/// quadrant: the negated minimum on each axis where it is negative, nothing elsewhere.
pub open spec fn shift_of(c: Corners) -> (int, int) {
    (
        if c.0.0 < 0 {
            -c.0.0
        } else {
            0
        },
        if c.0.1 < 0 {
            -c.0.1
        } else {
            0
        },
    )
}

/// The number of tile columns that cover a box, measured to its shifted right edge.
pub open spec fn grid_columns(c: Corners, t: int) -> int {
    ceil_div(c.1.0 + shift_of(c).0, t)
}

/// The number of tile rows that cover a box, measured to its shifted upper edge.
pub open spec fn grid_rows(c: Corners, t: int) -> int {
    ceil_div(c.1.1 + shift_of(c).1, t)
}

/// Whether `e` is the square of edge `t` in column `ix` of row `iy`.
pub open spec fn is_cell(e: GeoRect, ix: int, iy: int, t: int) -> bool {
    &&& e.min.x == ix * t
    &&& e.min.y == iy * t
    &&& e.max.x == (ix + 1) * t
    &&& e.max.y == (iy + 1) * t
}

/// Whether `tiles` is the dense grid of `nx` columns and `ny` rows of tiles of edge `t`:
/// every cell of that rectangle exists, no other does, and each has its own extents.
pub open spec fn is_grid(tiles: Map<(u32, u32), Tile>, nx: int, ny: int, t: int) -> bool {
    &&& forall|k: (u32, u32)| #[trigger] tiles.contains_key(k) <==> (k.0 < nx && k.1 < ny)
    &&& forall|k: (u32, u32)| #[trigger]
        tiles.contains_key(k) ==> is_cell(tiles[k].extents, k.0 as int, k.1 as int, t)
}

/// Whether no tile of `tiles` holds a primitive.
pub open spec fn all_tiles_empty(tiles: Map<(u32, u32), Tile>) -> bool {
    forall|k: (u32, u32)| #[trigger] tiles.contains_key(k) ==> tiles[k].shapes@.len() == 0
}

/// Whether the point `p` lies in the half-open extents of a tile.
pub open spec fn cell_contains(e: GeoRect, p: (int, int)) -> bool {
    e.min.x <= p.0 < e.max.x && e.min.y <= p.1 < e.max.y
}

/// Rounding a positive length up to whole tiles adds less than one tile.
pub proof fn lemma_ceil_div(w: int, t: int)
    requires
        w > 0,
        t > 0,
    ensures
        1 <= ceil_div(w, t) <= w,
        (ceil_div(w, t) - 1) * t < w <= ceil_div(w, t) * t,
        ceil_div(w, t) * t < w + t,
{
    let n = ceil_div(w, t);
    vstd::arithmetic::div_mod::lemma_fundamental_div_mod(w + t - 1, t);
    vstd::arithmetic::div_mod::lemma_mod_bound(w + t - 1, t);
    assert(t * n == n * t) by (nonlinear_arith);
    assert((n - 1) * t == n * t - t) by (nonlinear_arith);
    assert(n >= 1) by (nonlinear_arith)
        requires
            n * t >= w,
            w > 0,
            t > 0,
    ;
    assert(n <= w) by (nonlinear_arith)
        requires
            (n - 1) * t < w,
            n >= 1,
            t >= 1,
    ;
}

/// The cells of one axis follow each other without gap and stay inside the grid.
pub proof fn lemma_cell_bounds(i: int, n: int, t: int)
    requires
        0 <= i < n,
        t > 0,
    ensures
        0 <= i * t < (i + 1) * t <= n * t,
        (i + 1) * t == i * t + t,
{
    assert(0 <= i * t) by (nonlinear_arith)
        requires
            0 <= i,
            t > 0,
    ;
    assert((i + 1) * t == i * t + t) by (nonlinear_arith);
    assert((i + 1) * t <= n * t) by (nonlinear_arith)
        requires
            i + 1 <= n,
            t > 0,
    ;
}

/// The shift that moves `bbox` into the non-negative quadrant.
pub fn tilemap_shift(bbox: &BoundingBox) -> (shift: GeoCoord)
    ensures
        shift.pair() == shift_of(bbox.corners()),
{
    let min = bbox.min();
    GeoCoord {
        x: if min.x < 0 {
            -(min.x as i64)
        } else {
            0
        },
        y: if min.y < 0 {
            -(min.y as i64)
        } else {
            0
        },
    }
}

impl TilemapLowerLeft {
    /// Where the lower-left corner of tile `(0, 0)` of the grid over `bbox` lies in the
    /// coordinates of the primitives: the shift of the grid, undone.
    pub fn of(bbox: &BoundingBox) -> (corner: TilemapLowerLeft)
        ensures
            corner.x == -shift_of(bbox.corners()).0,
            corner.y == -shift_of(bbox.corners()).1,
    {
        let shift = tilemap_shift(bbox);
        TilemapLowerLeft { x: -shift.x, y: -shift.y }
    }
}

/// The dense grid of empty tiles of edge `tile_size` that covers `bbox` in shifted space.
pub fn build_tilemap(bbox: &BoundingBox, tile_size: u32) -> (grid: Tilemap)
    requires
        tile_size > 0,
    ensures
        is_grid(
            grid@,
            grid_columns(bbox.corners(), tile_size as int),
            grid_rows(bbox.corners(), tile_size as int),
            tile_size as int,
        ),
        all_tiles_empty(grid@),
{
    proof {
        use_type_invariant(bbox);
        lemma_positive_extent(*bbox);
    }
    let shift = tilemap_shift(bbox);
    let t: i64 = tile_size as i64;
    let width: i64 = bbox.max().x as i64 + shift.x;
    let height: i64 = bbox.max().y as i64 + shift.y;
    proof {
        lemma_ceil_div(width as int, t as int);
        lemma_ceil_div(height as int, t as int);
    }
    let num_x_tiles: u32 = ((width + t - 1) / t) as u32;
    let num_y_tiles: u32 = ((height + t - 1) / t) as u32;

    let mut tilemap = Tilemap::without_tiles();
    let mut iy: u32 = 0;
    while iy < num_y_tiles
        invariant
            t == tile_size as int,
            t > 0,
            iy <= num_y_tiles,
            num_x_tiles * t < 0x2_0000_0000,
            num_y_tiles * t < 0x2_0000_0000,
            is_grid(tilemap@, num_x_tiles as int, iy as int, t as int),
            all_tiles_empty(tilemap@),
        decreases num_y_tiles - iy,
    {
        proof {
            lemma_cell_bounds(iy as int, num_y_tiles as int, t as int);
        }
        let ymin: i64 = iy as i64 * t;
        let ymax: i64 = ymin + t;
        let mut ix: u32 = 0;
        while ix < num_x_tiles
            invariant
                t == tile_size as int,
                t > 0,
                iy < num_y_tiles,
                ix <= num_x_tiles,
                num_x_tiles * t < 0x2_0000_0000,
                ymin == iy * t,
                ymax == (iy + 1) * t,
                0 <= ymin < ymax < 0x2_0000_0000,
                forall|k: (u32, u32)| #[trigger]
                    tilemap@.contains_key(k) <==> (k.0 < num_x_tiles && k.1 < iy) || (k.1 == iy
                        && k.0 < ix),
                forall|k: (u32, u32)| #[trigger]
                    tilemap@.contains_key(k) ==> is_cell(
                        tilemap@[k].extents,
                        k.0 as int,
                        k.1 as int,
                        t as int,
                    ),
                all_tiles_empty(tilemap@),
            decreases num_x_tiles - ix,
        {
            proof {
                lemma_cell_bounds(ix as int, num_x_tiles as int, t as int);
            }
            let xmin: i64 = ix as i64 * t;
            let xmax: i64 = xmin + t;
            let extents = GeoRect::new(GeoCoord { x: xmin, y: ymin }, GeoCoord { x: xmax, y: ymax });
            tilemap.insert_tile((ix, iy), Tile { extents, shapes: Vec::new() });
            ix += 1;
        }
        iy += 1;
    }
    tilemap
}

} // verus!
