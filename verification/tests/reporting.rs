use layout_tiles::bbox::CalculateBoundingBox;
use layout_tiles::binning::{can_tile, is_overlap_testable, tile_shapes};
use layout_tiles::error::GeometryError;
use layout_tiles::path_to_poly::make_path_into_polygon;
use layout_tiles::shapes::{
    all_representable, first_invalid_shape, Layer, Path, Point, Poly, Rect, Shape,
};
use layout_tiles::types::{DrawTileEvent, GeoCoord, GeoPolygon, TileIndexIter, Tilemap};
use layout_tiles::utils::{
    get_grid_shape, tile_counts, tilemap_stats, tilemap_stats_and_debug, TilemapStats,
};

fn p(x: i32, y: i32) -> Point {
    Point { x, y }
}

fn rect(x0: i32, y0: i32, x1: i32, y1: i32) -> Shape {
    Shape::Rect(Rect { p0: p(x0, y0), p1: p(x1, y1), layer: 0 })
}

#[test]
fn layer_is_read_from_every_kind_of_primitive() {
    assert_eq!(Shape::Rect(Rect { p0: p(0, 0), p1: p(1, 1), layer: 4 }).layer(), 4);
    assert_eq!(Shape::Poly(Poly { points: vec![], layer: 5 }).layer(), 5);
    assert_eq!(Shape::Path(Path { points: vec![], width: 2, layer: 6 }).layer(), 6);
}

#[test]
fn empty_map_has_shape_one_by_one() {
    assert_eq!(get_grid_shape(&Tilemap::default()), (1, 1));
}

#[test]
fn counts_are_one_row_per_iy() {
    // 3 columns, 2 rows
    let shapes = vec![rect(0, 0, 30, 20), rect(1, 11, 2, 12), rect(21, 1, 29, 19), rect(5, 5, 6, 6)];
    let (map, _) = tile_shapes(&shapes, 10).unwrap();
    assert_eq!(tile_counts(&map), vec![vec![2, 1, 2], vec![2, 1, 2]]);
}

#[test]
fn stats_summarise_the_counts() {
    let counts = vec![vec![0, 3, 1], vec![7, 0, 2]];
    assert_eq!(
        tilemap_stats(&counts),
        TilemapStats {
            grid_size: (3, 2),
            num_bins: 6,
            num_occupied_bins: 4,
            num_rects_incl_duplicates: 13,
            min: 1,
            max: 7,
        }
    );
}

#[test]
fn stats_of_an_unoccupied_grid_are_zero() {
    let counts = vec![vec![0, 0], vec![0, 0], vec![0, 0]];
    assert_eq!(
        tilemap_stats(&counts),
        TilemapStats {
            grid_size: (2, 3),
            num_bins: 6,
            num_occupied_bins: 0,
            num_rects_incl_duplicates: 0,
            min: 0,
            max: 0,
        }
    );
    let none: Vec<Vec<usize>> = vec![];
    assert_eq!(tilemap_stats(&none).grid_size, (0, 0));
    assert_eq!(tilemap_stats(&none).num_bins, 0);
}

#[test]
fn report_of_a_grid_has_stats_and_counts() {
    let shapes = vec![rect(0, 0, 20, 20), rect(1, 1, 2, 2), rect(3, 3, 4, 4)];
    let (map, _) = tile_shapes(&shapes, 10).unwrap();
    let (stats, counts) = tilemap_stats_and_debug(&map);
    assert_eq!(counts, vec![vec![3, 1], vec![1, 1]]);
    assert_eq!(stats.grid_size, (2, 2));
    assert_eq!(stats.num_bins, 4);
    assert_eq!(stats.num_occupied_bins, 4);
    assert_eq!(stats.num_rects_incl_duplicates, 6);
    assert_eq!((stats.min, stats.max), (1, 3));
    // occupancy ratio and average per occupied tile, as a consumer derives them
    assert_eq!(stats.num_occupied_bins as f64 / stats.num_bins as f64, 1.0);
    assert_eq!(stats.num_rects_incl_duplicates as f64 / stats.num_occupied_bins as f64, 1.5);
}

#[test]
fn first_invalid_shape_names_index_and_reason() {
    let shapes = vec![
        rect(0, 0, 10, 10),
        Shape::Path(Path { points: vec![p(0, 0), p(10, 0), p(5, 0)], width: 2, layer: 0 }),
        rect(0, 0, 0, 0),
    ];
    assert_eq!(first_invalid_shape(&shapes), Some((1, GeometryError::InvalidPathTurn)));
    assert_eq!(first_invalid_shape(&vec![rect(0, 0, 10, 10)]), None);
    assert_eq!(
        first_invalid_shape(&vec![rect(1, 1, 2, 2), rect(5, 0, 5, 9)]),
        Some((1, GeometryError::InvalidGeometry))
    );
}

#[test]
fn path_at_the_edge_of_the_coordinate_space_is_not_representable() {
    let inside = Path { points: vec![p(0, 0), p(0, 10)], width: 4, layer: 0 };
    assert!(inside.is_representable());
    // vertical at the right edge: x + 2 leaves the 32-bit space
    let edge = Path { points: vec![p(i32::MAX - 1, 0), p(i32::MAX - 1, 10)], width: 4, layer: 0 };
    assert!(!edge.is_representable());
    // horizontal along the same edge: only y is displaced, and that fits
    let along =
        Path { points: vec![p(i32::MAX - 10, 0), p(i32::MAX, 0)], width: 4, layer: 0 };
    assert!(along.is_representable());
    assert_eq!(
        along.as_poly(),
        Ok(vec![
            p(i32::MAX - 10, -2),
            p(i32::MAX, -2),
            p(i32::MAX, 2),
            p(i32::MAX - 10, 2),
        ])
    );
    // a corner at the lower edge: the outer corner would leave the space
    let corner = Path {
        points: vec![p(0, i32::MIN + 1), p(10, i32::MIN + 1), p(10, 50)],
        width: 4,
        layer: 0,
    };
    assert!(!corner.is_representable());
    // a path without an outline asks nothing of the coordinate space
    let broken = Path { points: vec![p(i32::MAX, 0), p(0, 7)], width: 4, layer: 0 };
    assert!(broken.is_representable());
    assert!(all_representable(&vec![Shape::Path(inside.clone()), rect(0, 0, 1, 1)]));
    assert!(!all_representable(&vec![Shape::Path(inside), Shape::Path(edge)]));
}

#[test]
fn path_polygon_has_the_outline_as_its_ring() {
    let path = Path { points: vec![p(0, 0), p(10, 0), p(10, 10)], width: 2, layer: 0 };
    let ring: Vec<GeoCoord> = [(0, -1), (11, -1), (11, 10), (9, 10), (9, 1), (0, 1)]
        .iter()
        .map(|&(x, y)| GeoCoord { x, y })
        .collect();
    assert_eq!(make_path_into_polygon(&path), Ok(GeoPolygon { exterior: ring }));
    let odd = Path { points: vec![p(0, 0), p(10, 0)], width: 3, layer: 0 };
    assert_eq!(make_path_into_polygon(&odd), Err(GeometryError::InvalidGeometry));
}

#[test]
fn polygons_beyond_the_coordinate_limit_cannot_be_tiled() {
    let limit = 1 << 30;
    let small = Shape::Poly(Poly { points: vec![p(0, 0), p(100, 0), p(0, 100)], layer: 0 });
    let large = Shape::Poly(Poly { points: vec![p(0, 0), p(limit, 0), p(0, 100)], layer: 0 });
    let origin = GeoCoord { x: 0, y: 0 };
    assert!(is_overlap_testable(&small, origin, 4, 4, 64));
    assert!(!is_overlap_testable(&large, origin, 4, 4, 64));
    // the tiles of the candidate range must end below the limit as well
    assert!(!is_overlap_testable(&small, origin, 1, 1, limit as u32));
    // a rectangle is tested by comparing coordinates, whatever their size
    assert!(is_overlap_testable(&rect(0, 0, i32::MAX, i32::MAX), origin, 4, 4, 64));
    assert!(can_tile(&vec![small.clone(), rect(-5, -5, i32::MAX, 7)], 1 << 20));
    assert!(!can_tile(&vec![large, rect(-5, -5, 5, 7)], 1 << 20));
    assert!(!can_tile(&vec![small.clone()], 0));
    // a batch without a bounding box is refused by tile_shapes itself
    assert!(can_tile(&vec![], 5));
    // the shift counts: the polygon moves beyond the limit with the batch
    assert!(!can_tile(&vec![small, rect(-limit, 0, 1, 1)], 64));
}

#[test]
fn tile_walk_goes_row_by_row() {
    let mut walk = TileIndexIter::new((3, 2));
    let mut seen = Vec::new();
    while let Some(DrawTileEvent(tile)) = walk.next() {
        seen.push(tile);
    }
    assert_eq!(seen, vec![(0, 0), (1, 0), (2, 0), (0, 1), (1, 1), (2, 1)]);
    assert_eq!(walk.next(), None);
    assert_eq!(TileIndexIter::new((0, 5)).next(), None);
    assert_eq!(TileIndexIter::new((5, 0)).next(), None);
}

#[test]
fn batch_bbox_of_a_single_shape_is_its_own() {
    let shapes = vec![rect(3, 9, -2, 4)];
    assert_eq!(shapes.bbox(), shapes[0].bbox());
}
