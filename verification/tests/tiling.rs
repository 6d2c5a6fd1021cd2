use layout_tiles::bbox::{BoundingBox, CalculateBoundingBox, UnvalidatedBoundingBox};
use layout_tiles::binning::{bin_shape, geo_shape_of, import_cell_shapes, tile_shapes};
use layout_tiles::error::GeometryError;
use layout_tiles::overlap::intersects;
use layout_tiles::shapes::{Path, Point, Poly, Rect, Shape};
use layout_tiles::tiling::{build_tilemap, tilemap_shift};
use layout_tiles::types::{
    record_overlap, GeoCoord, GeoPolygon, GeoRect, GeoShapeEnum, Tile, Tilemap, TilemapLowerLeft,
};
use layout_tiles::utils::get_grid_shape;

fn p(x: i32, y: i32) -> Point {
    Point { x, y }
}

fn rect(x0: i32, y0: i32, x1: i32, y1: i32) -> Shape {
    Shape::Rect(Rect { p0: p(x0, y0), p1: p(x1, y1), layer: 0 })
}

fn area(x0: i32, y0: i32, x1: i32, y1: i32) -> BoundingBox {
    BoundingBox::new(UnvalidatedBoundingBox { min: p(x0, y0), max: p(x1, y1) }).unwrap()
}

fn cell(x0: i64, y0: i64, x1: i64, y1: i64) -> GeoRect {
    GeoRect { min: GeoCoord { x: x0, y: y0 }, max: GeoCoord { x: x1, y: y1 } }
}

fn shapes_of(map: &Tilemap, ix: u32, iy: u32) -> Vec<usize> {
    map.get(ix, iy).unwrap().shapes.clone()
}

/// Every tile of the grid with the primitives it holds, row by row.
fn contents(map: &Tilemap) -> Vec<((u32, u32), GeoRect, Vec<usize>)> {
    let (nx, ny) = get_grid_shape(map);
    let mut all = Vec::new();
    for iy in 0..ny {
        for ix in 0..nx {
            let tile = map.get(ix, iy).unwrap();
            all.push(((ix, iy), tile.extents, tile.shapes.clone()));
        }
    }
    all
}

#[test]
fn geo_rect_new_orders_its_corners() {
    let r = GeoRect::new(GeoCoord { x: 5, y: -1 }, GeoCoord { x: -3, y: 7 });
    assert_eq!(r, cell(-3, -1, 5, 7));
}

#[test]
fn shift_moves_negative_minimum_to_the_origin() {
    assert_eq!(tilemap_shift(&area(-30, -7, 10, 10)), GeoCoord { x: 30, y: 7 });
    assert_eq!(tilemap_shift(&area(5, -7, 10, 10)), GeoCoord { x: 0, y: 7 });
    assert_eq!(tilemap_shift(&area(5, 7, 10, 10)), GeoCoord { x: 0, y: 0 });
    assert_eq!(
        tilemap_shift(&area(i32::MIN, i32::MIN, 0, 0)),
        GeoCoord { x: 2147483648, y: 2147483648 }
    );
}

#[test]
fn lower_left_undoes_the_shift() {
    assert_eq!(TilemapLowerLeft::of(&area(-30, 4, 10, 10)), TilemapLowerLeft { x: -30, y: 0 });
}

#[test]
fn grid_has_ceil_of_extent_over_tile_size_tiles() {
    // shifted extent 25 x 10, tiles of 10: 3 columns, 1 row
    let map = build_tilemap(&area(-5, 0, 20, 10), 10);
    assert_eq!(get_grid_shape(&map), (3, 1));
    assert_eq!(map.get(0, 0).unwrap().extents, cell(0, 0, 10, 10));
    assert_eq!(map.get(2, 0).unwrap().extents, cell(20, 0, 30, 10));
    assert!(map.get(3, 0).is_none());
    assert!(map.get(0, 1).is_none());
    assert!(map.get(1, 0).unwrap().shapes.is_empty());
}

#[test]
fn grid_of_a_box_in_the_positive_quadrant_reaches_from_the_origin() {
    let map = build_tilemap(&area(100, 100, 150, 130), 50);
    assert_eq!(get_grid_shape(&map), (3, 3));
    assert_eq!(map.get(2, 2).unwrap().extents, cell(100, 100, 150, 150));
}

#[test]
fn every_point_of_the_box_lies_in_exactly_one_tile() {
    let bbox = area(-7, -3, 12, 9);
    let shift = tilemap_shift(&bbox);
    let map = build_tilemap(&bbox, 4);
    let all = contents(&map);
    let (nx, ny) = get_grid_shape(&map);
    assert_eq!((nx, ny), (5, 3));
    for x in -7..=12i64 {
        for y in -3..=9i64 {
            let (sx, sy) = (x + shift.x, y + shift.y);
            let holders = all
                .iter()
                .filter(|(_, e, _)| e.min.x <= sx && sx < e.max.x && e.min.y <= sy && sy < e.max.y)
                .count();
            // the far edge of the grid is the one place that no half-open tile holds
            let on_far_edge = sx == (nx as i64) * 4 || sy == (ny as i64) * 4;
            assert_eq!(holders, if on_far_edge { 0 } else { 1 });
        }
    }
}

#[test]
fn record_overlap_appends_only_on_a_hit() {
    let mut tile = Tile { extents: cell(0, 0, 10, 10), shapes: vec![4] };
    record_overlap(&mut tile, 9, false);
    assert_eq!(tile.shapes, vec![4]);
    record_overlap(&mut tile, 9, true);
    assert_eq!(tile.shapes, vec![4, 9]);
    assert_eq!(tile.extents, cell(0, 0, 10, 10));
}

#[test]
fn rectangles_intersect_when_their_closed_intervals_overlap() {
    let a = GeoShapeEnum::Rect(cell(0, 0, 10, 10));
    assert!(intersects(&a, &cell(10, 10, 20, 20)));
    assert!(intersects(&a, &cell(3, 3, 4, 4)));
    assert!(intersects(&a, &cell(-5, 2, 0, 3)));
    assert!(!intersects(&a, &cell(11, 0, 20, 10)));
    assert!(!intersects(&a, &cell(0, -9, 10, -1)));
}

#[test]
fn triangle_misses_the_tile_that_only_its_box_reaches() {
    // right triangle with legs on the axes: its box reaches (10, 10), its body does not
    let triangle = GeoShapeEnum::Polygon(GeoPolygon {
        exterior: vec![
            GeoCoord { x: 0, y: 0 },
            GeoCoord { x: 10, y: 0 },
            GeoCoord { x: 0, y: 10 },
        ],
    });
    assert!(intersects(&triangle, &cell(0, 0, 5, 5)));
    assert!(intersects(&triangle, &cell(5, 5, 10, 10)));
    assert!(!intersects(&triangle, &cell(6, 6, 10, 10)));
    assert!(intersects(&triangle, &cell(2, 2, 3, 3)));
    assert!(!intersects(&triangle, &cell(20, 20, 30, 30)));
}

#[test]
fn geo_shape_is_the_primitive_in_shifted_space() {
    let shift = GeoCoord { x: 100, y: 10 };
    assert_eq!(
        geo_shape_of(&rect(5, 9, -5, 1), shift),
        Ok(GeoShapeEnum::Rect(cell(95, 11, 105, 19)))
    );
    let poly = Shape::Poly(Poly { points: vec![p(0, 0), p(4, 0), p(0, 4)], layer: 0 });
    assert_eq!(
        geo_shape_of(&poly, shift),
        Ok(GeoShapeEnum::Polygon(GeoPolygon {
            exterior: vec![
                GeoCoord { x: 100, y: 10 },
                GeoCoord { x: 104, y: 10 },
                GeoCoord { x: 100, y: 14 },
            ],
        }))
    );
    let path = Shape::Path(Path { points: vec![p(0, 0), p(0, 10)], width: 4, layer: 0 });
    assert_eq!(
        geo_shape_of(&path, shift),
        Ok(GeoShapeEnum::Polygon(GeoPolygon {
            exterior: vec![
                GeoCoord { x: 102, y: 10 },
                GeoCoord { x: 102, y: 20 },
                GeoCoord { x: 98, y: 20 },
                GeoCoord { x: 98, y: 10 },
            ],
        }))
    );
    let broken = Shape::Path(Path { points: vec![p(0, 0), p(1, 1)], width: 4, layer: 0 });
    assert_eq!(geo_shape_of(&broken, shift), Err(GeometryError::InvalidGeometry));
}

#[test]
fn bin_shape_marks_only_the_tiles_of_the_range_it_overlaps() {
    let mut map = build_tilemap(&area(0, 0, 30, 30), 10);
    let shape = GeoShapeEnum::Rect(cell(5, 5, 25, 6));
    // the range leaves column 2 out although the rectangle reaches into it
    bin_shape(&mut map, 7, &shape, 0, 1, 0, 2);
    assert_eq!(shapes_of(&map, 0, 0), vec![7]);
    assert_eq!(shapes_of(&map, 1, 0), vec![7]);
    assert_eq!(shapes_of(&map, 2, 0), Vec::<usize>::new());
    assert_eq!(shapes_of(&map, 0, 1), Vec::<usize>::new());
    assert_eq!(shapes_of(&map, 0, 2), Vec::<usize>::new());
}

#[test]
fn rect_inside_one_tile_is_in_that_tile_only() {
    let shapes = vec![rect(0, 0, 40, 40), rect(12, 12, 18, 18)];
    let (map, shift) = tile_shapes(&shapes, 10).unwrap();
    assert_eq!(shift, GeoCoord { x: 0, y: 0 });
    assert_eq!(get_grid_shape(&map), (4, 4));
    for (key, _, held) in contents(&map) {
        let expected: Vec<usize> = if key == (1, 1) { vec![0, 1] } else { vec![0] };
        assert_eq!(held, expected, "tile {:?}", key);
    }
}

#[test]
fn rect_spanning_two_by_two_tiles_is_in_those_four() {
    let shapes = vec![rect(0, 0, 40, 40), rect(15, 25, 24, 31)];
    let (map, _) = tile_shapes(&shapes, 10).unwrap();
    for (key, _, held) in contents(&map) {
        let inside = (1..=2).contains(&key.0) && (2..=3).contains(&key.1);
        let expected: Vec<usize> = if inside { vec![0, 1] } else { vec![0] };
        assert_eq!(held, expected, "tile {:?}", key);
    }
}

#[test]
fn rect_spanning_a_row_of_tiles_is_in_every_tile_of_the_row() {
    let shapes = vec![rect(-20, 0, 50, 30), rect(-20, 11, 49, 19)];
    let (map, shift) = tile_shapes(&shapes, 10).unwrap();
    assert_eq!(shift, GeoCoord { x: 20, y: 0 });
    assert_eq!(get_grid_shape(&map), (7, 3));
    for (key, _, held) in contents(&map) {
        let expected: Vec<usize> = if key.1 == 1 { vec![0, 1] } else { vec![0] };
        assert_eq!(held, expected, "tile {:?}", key);
    }
}

#[test]
fn rect_touching_a_seam_from_below_is_in_both_tiles() {
    // the right edge x = 20 is the left edge of column 2
    let shapes = vec![rect(0, 0, 40, 10), rect(12, 2, 20, 8)];
    let (map, _) = tile_shapes(&shapes, 10).unwrap();
    assert_eq!(shapes_of(&map, 0, 0), vec![0]);
    assert_eq!(shapes_of(&map, 1, 0), vec![0, 1]);
    assert_eq!(shapes_of(&map, 2, 0), vec![0, 1]);
    assert_eq!(shapes_of(&map, 3, 0), vec![0]);
}

#[test]
fn rect_starting_on_a_seam_is_not_in_the_tile_before_it() {
    // the left edge x = 20 is the right edge of column 1, outside of its half-open extents
    let shapes = vec![rect(0, 0, 40, 10), rect(20, 2, 25, 8)];
    let (map, _) = tile_shapes(&shapes, 10).unwrap();
    assert_eq!(shapes_of(&map, 1, 0), vec![0]);
    assert_eq!(shapes_of(&map, 2, 0), vec![0, 1]);
}

#[test]
fn rect_on_the_far_edge_of_the_grid_is_clamped_into_the_last_tile() {
    let shapes = vec![rect(0, 0, 40, 40), rect(35, 35, 40, 40)];
    let (map, _) = tile_shapes(&shapes, 10).unwrap();
    assert_eq!(get_grid_shape(&map), (4, 4));
    assert_eq!(shapes_of(&map, 3, 3), vec![0, 1]);
    assert_eq!(shapes_of(&map, 2, 3), vec![0]);
}

#[test]
fn polygon_is_only_in_the_tiles_it_truly_overlaps() {
    let triangle = Shape::Poly(Poly { points: vec![p(0, 0), p(20, 0), p(0, 20)], layer: 3 });
    let shapes = vec![rect(0, 0, 20, 20), triangle];
    let (map, _) = tile_shapes(&shapes, 5).unwrap();
    assert_eq!(get_grid_shape(&map), (4, 4));
    for (key, _, held) in contents(&map) {
        // the tile's lower-left corner (5 ix, 5 iy) lies in the triangle iff ix + iy <= 4
        let expected: Vec<usize> = if key.0 + key.1 <= 4 { vec![0, 1] } else { vec![0] };
        assert_eq!(held, expected, "tile {:?}", key);
    }
}

#[test]
fn path_is_binned_by_its_stroked_outline() {
    let path = Shape::Path(Path { points: vec![p(5, 5), p(35, 5), p(35, 35)], width: 2, layer: 1 });
    let shapes = vec![rect(0, 0, 40, 40), path];
    let (map, _) = tile_shapes(&shapes, 10).unwrap();
    for (key, _, held) in contents(&map) {
        let on_path = key.1 == 0 || key.0 == 3;
        let expected: Vec<usize> = if on_path { vec![0, 1] } else { vec![0] };
        assert_eq!(held, expected, "tile {:?}", key);
    }
}

#[test]
fn tiles_keep_what_they_held_and_indices_come_in_order() {
    let bbox = area(0, 0, 20, 10);
    let mut map = build_tilemap(&bbox, 10);
    let mut count: u64 = 5;
    let first = vec![rect(1, 1, 2, 2), rect(11, 1, 12, 2), rect(1, 1, 19, 9)];
    let skipped = import_cell_shapes(GeoCoord { x: 0, y: 0 }, 10, &mut map, &first, &mut count);
    assert!(skipped.is_empty());
    assert_eq!(count, 8);
    assert_eq!(shapes_of(&map, 0, 0), vec![0, 2]);
    assert_eq!(shapes_of(&map, 1, 0), vec![1, 2]);
    let second = vec![rect(15, 5, 16, 6)];
    import_cell_shapes(GeoCoord { x: 0, y: 0 }, 10, &mut map, &second, &mut count);
    assert_eq!(count, 9);
    assert_eq!(shapes_of(&map, 0, 0), vec![0, 2]);
    assert_eq!(shapes_of(&map, 1, 0), vec![1, 2, 0]);
}

#[test]
fn primitives_without_a_box_are_skipped_and_reported() {
    let bbox = area(0, 0, 20, 10);
    let mut map = build_tilemap(&bbox, 10);
    let mut count: u64 = 0;
    let shapes = vec![
        rect(3, 3, 3, 3),
        rect(1, 1, 2, 2),
        Shape::Path(Path { points: vec![p(0, 0), p(10, 0), p(5, 0)], width: 2, layer: 0 }),
        Shape::Poly(Poly { points: vec![], layer: 0 }),
        rect(11, 1, 12, 2),
    ];
    let skipped = import_cell_shapes(GeoCoord { x: 0, y: 0 }, 10, &mut map, &shapes, &mut count);
    assert_eq!(skipped, vec![0, 2, 3]);
    assert_eq!(count, 5);
    assert_eq!(shapes_of(&map, 0, 0), vec![1]);
    assert_eq!(shapes_of(&map, 1, 0), vec![4]);
}

#[test]
fn primitive_beyond_the_grid_is_tested_against_the_border_tiles_only() {
    let bbox = area(0, 0, 20, 20);
    let mut map = build_tilemap(&bbox, 10);
    let mut count: u64 = 0;
    // far to the right of the grid, and one that reaches in from the left
    let shapes = vec![rect(100, 0, 120, 5), rect(-50, 12, 3, 14)];
    import_cell_shapes(GeoCoord { x: 0, y: 0 }, 10, &mut map, &shapes, &mut count);
    assert_eq!(shapes_of(&map, 1, 0), Vec::<usize>::new());
    assert_eq!(shapes_of(&map, 0, 1), vec![1]);
    assert_eq!(shapes_of(&map, 1, 1), Vec::<usize>::new());
}

#[test]
fn tile_shapes_fails_as_the_batch_bbox_does() {
    let empty: Vec<Shape> = vec![];
    assert_eq!(tile_shapes(&empty, 10).err(), Some(GeometryError::EmptyBatch));
    let flat = vec![rect(0, 0, 10, 10), rect(1, 1, 1, 5)];
    assert_eq!(tile_shapes(&flat, 10).err(), Some(GeometryError::InvalidGeometry));
    let turn = vec![Shape::Path(Path {
        points: vec![p(0, 0), p(0, 10), p(0, 5)],
        width: 2,
        layer: 0,
    })];
    assert_eq!(tile_shapes(&turn, 10).err(), Some(GeometryError::InvalidPathTurn));
}

#[test]
fn rebuilding_gives_identical_contents() {
    let shapes = vec![
        rect(-13, -4, 22, 17),
        Shape::Poly(Poly { points: vec![p(0, 0), p(20, 0), p(0, 15)], layer: 3 }),
        Shape::Path(Path { points: vec![p(-10, 0), p(10, 0), p(10, 12)], width: 4, layer: 1 }),
        rect(3, 3, 9, 4),
    ];
    let (first, first_shift) = tile_shapes(&shapes, 7).unwrap();
    let (second, second_shift) = tile_shapes(&shapes, 7).unwrap();
    assert_eq!(first_shift, second_shift);
    assert_eq!(contents(&first), contents(&second));
    assert_eq!(shapes.bbox(), Ok(area(-13, -4, 22, 17)));
}

/// A small deterministic generator, so that the scale check is reproducible.
fn next(state: &mut u64) -> u64 {
    *state = state.wrapping_mul(6364136223846793005).wrapping_add(1442695040888963407);
    *state >> 33
}

fn random_rects(n: usize, extent: u64, max_side: u64, seed: u64) -> Vec<Shape> {
    let mut state = seed;
    let mut shapes = Vec::with_capacity(n + 1);
    shapes.push(rect(0, 0, extent as i32, extent as i32));
    for _ in 0..n {
        let w = 1 + next(&mut state) % max_side;
        let h = 1 + next(&mut state) % max_side;
        let x = next(&mut state) % (extent - w);
        let y = next(&mut state) % (extent - h);
        shapes.push(rect(x as i32, y as i32, (x + w) as i32, (y + h) as i32));
    }
    shapes
}

/// Number of tiles of the candidate range that a rectangle with the given shifted extent
/// overlaps, counted tile by tile over the whole grid.
fn brute_force_tiles(x0: i64, y0: i64, x1: i64, y1: i64, nx: u32, ny: u32, t: i64) -> usize {
    let mut n = 0;
    for ix in 0..nx as i64 {
        for iy in 0..ny as i64 {
            let candidate = x0 / t <= ix && ix <= (x1.min(nx as i64 * t - 1)) / t
                && y0 / t <= iy && iy <= (y1.min(ny as i64 * t - 1)) / t;
            let overlap = x0 <= (ix + 1) * t && ix * t <= x1 && y0 <= (iy + 1) * t && iy * t <= y1;
            if candidate && overlap {
                n += 1;
            }
        }
    }
    n
}

#[test]
fn total_assignments_match_a_brute_force_count() {
    let t: i64 = 64;
    let shapes = random_rects(2_000, 2_000, 150, 7);
    let (map, _) = tile_shapes(&shapes, t as u32).unwrap();
    let (nx, ny) = get_grid_shape(&map);
    let total: usize = contents(&map).iter().map(|(_, _, held)| held.len()).sum();
    let mut expected = 0;
    for s in shapes.iter() {
        let b = s.bbox().unwrap();
        expected += brute_force_tiles(
            b.min().x as i64,
            b.min().y as i64,
            b.max().x as i64,
            b.max().y as i64,
            nx,
            ny,
            t,
        );
    }
    assert_eq!(total, expected);
    // every tile lists its primitives once each, in increasing order
    for (_, _, held) in contents(&map) {
        assert!(held.windows(2).all(|w| w[0] < w[1]));
    }
}

#[test]
fn a_million_rects_are_binned_reproducibly() {
    let shapes = random_rects(1_000_000, 1_000_000, 3_000, 42);
    let (map, _) = tile_shapes(&shapes, 4096).unwrap();
    assert_eq!(get_grid_shape(&map), (245, 245));
    let total: usize = contents(&map).iter().map(|(_, _, held)| held.len()).sum();
    let (again, _) = tile_shapes(&shapes, 4096).unwrap();
    assert_eq!(contents(&map), contents(&again));
    // the covering rectangle is in every tile, every other rectangle in one to four
    let tiles = 245 * 245;
    assert!(total >= tiles + 1_000_000 && total <= tiles + 4_000_000);
}
