use layout_tiles::bbox::{BoundingBox, CalculateBoundingBox, UnvalidatedBoundingBox};
use layout_tiles::error::GeometryError;
use layout_tiles::path_to_poly::{
    calculate_move, shift_left_down, shift_left_up, shift_pure_down, shift_pure_left,
    shift_pure_right, shift_pure_up, shift_right_down, shift_right_up, RectMove,
};
use layout_tiles::shapes::{Path, Point, Poly, Rect, Shape};

fn pt(x: i32, y: i32) -> Point {
    Point { x, y }
}

fn boxed(x0: i32, y0: i32, x1: i32, y1: i32) -> BoundingBox {
    BoundingBox::new(UnvalidatedBoundingBox { min: pt(x0, y0), max: pt(x1, y1) }).unwrap()
}

#[test]
fn point_shift_adds_componentwise() {
    let p = pt(3, -4);
    let q = p.shift(&pt(10, 20));
    assert_eq!(q, pt(13, 16));
}

#[test]
fn rect_shift_moves_both_corners_and_keeps_layer() {
    let r = Rect { p0: pt(1, 2), p1: pt(5, 9), layer: 7 };
    assert_eq!(r.shift(&pt(-1, 3)), Rect { p0: pt(0, 5), p1: pt(4, 12), layer: 7 });
}

#[test]
fn invalid_box_is_the_neutral_start() {
    let u = UnvalidatedBoundingBox::invalid();
    assert_eq!(u.min, pt(i32::MAX, i32::MAX));
    assert_eq!(u.max, pt(i32::MIN, i32::MIN));
}

#[test]
fn new_box_orders_swapped_corners() {
    let b = boxed(10, -3, 2, 8);
    assert_eq!(b.min(), pt(2, -3));
    assert_eq!(b.max(), pt(10, 8));
}

#[test]
fn new_box_rejects_zero_width_or_height() {
    let flat = BoundingBox::new(UnvalidatedBoundingBox { min: pt(0, 5), max: pt(9, 5) });
    assert_eq!(flat, Err(GeometryError::InvalidGeometry));
    let thin = BoundingBox::new(UnvalidatedBoundingBox { min: pt(4, 0), max: pt(4, 9) });
    assert_eq!(thin, Err(GeometryError::InvalidGeometry));
}

#[test]
fn union_takes_componentwise_extremes() {
    let mut a = boxed(0, 0, 4, 4);
    a.union(&boxed(-2, 1, 3, 9));
    assert_eq!(a, boxed(-2, 0, 4, 9));
}

#[test]
fn union_is_commutative_and_associative() {
    let a = boxed(0, 0, 4, 4);
    let b = boxed(-7, 2, 1, 3);
    let c = boxed(3, -5, 20, 1);
    let mut ab = a;
    ab.union(&b);
    let mut ba = b;
    ba.union(&a);
    assert_eq!(ab, ba);
    let mut ab_c = ab;
    ab_c.union(&c);
    let mut bc = b;
    bc.union(&c);
    let mut a_bc = a;
    a_bc.union(&bc);
    assert_eq!(ab_c, a_bc);
    assert_eq!(ab_c, boxed(-7, -5, 20, 4));
}

#[test]
fn box_shift_moves_both_corners() {
    let b = boxed(0, 0, 4, 4).shift(&pt(10, -10));
    assert_eq!(b, boxed(10, -10, 14, -6));
}

#[test]
fn rect_bbox_is_its_corners() {
    let r = Shape::Rect(Rect { p0: pt(0, 0), p1: pt(10, 10), layer: 0 });
    assert_eq!(r.bbox(), Ok(boxed(0, 0, 10, 10)));
    let swapped = Shape::Rect(Rect { p0: pt(10, 0), p1: pt(0, 10), layer: 0 });
    assert_eq!(swapped.bbox(), Ok(boxed(0, 0, 10, 10)));
}

#[test]
fn degenerate_rect_is_rejected() {
    let r = Shape::Rect(Rect { p0: pt(3, 3), p1: pt(3, 3), layer: 0 });
    assert_eq!(r.bbox(), Err(GeometryError::InvalidGeometry));
    let line = Shape::Rect(Rect { p0: pt(3, 3), p1: pt(3, 8), layer: 0 });
    assert_eq!(line.bbox(), Err(GeometryError::InvalidGeometry));
}

#[test]
fn polygon_bbox_spans_all_vertices() {
    let p = Shape::Poly(Poly { points: vec![pt(0, 0), pt(5, -2), pt(9, 4), pt(3, 7)], layer: 1 });
    assert_eq!(p.bbox(), Ok(boxed(0, -2, 9, 7)));
}

#[test]
fn polygon_without_extent_is_rejected() {
    let empty = Shape::Poly(Poly { points: vec![], layer: 1 });
    assert_eq!(empty.bbox(), Err(GeometryError::InvalidGeometry));
    let single = Shape::Poly(Poly { points: vec![pt(1, 1)], layer: 1 });
    assert_eq!(single.bbox(), Err(GeometryError::InvalidGeometry));
    let flat = Shape::Poly(Poly { points: vec![pt(1, 1), pt(5, 1), pt(9, 1)], layer: 1 });
    assert_eq!(flat.bbox(), Err(GeometryError::InvalidGeometry));
}

#[test]
fn calculate_move_classifies_the_four_directions() {
    assert_eq!(calculate_move(pt(0, 0), pt(0, 5)), Ok(RectMove::Up));
    assert_eq!(calculate_move(pt(0, 0), pt(0, -5)), Ok(RectMove::Down));
    assert_eq!(calculate_move(pt(0, 0), pt(5, 0)), Ok(RectMove::Right));
    assert_eq!(calculate_move(pt(0, 0), pt(-5, 0)), Ok(RectMove::Left));
}

#[test]
fn calculate_move_rejects_repeated_and_diagonal_points() {
    assert_eq!(calculate_move(pt(2, 2), pt(2, 2)), Err(GeometryError::InvalidGeometry));
    assert_eq!(calculate_move(pt(0, 0), pt(3, 4)), Err(GeometryError::InvalidGeometry));
}

#[test]
fn two_point_vertical_path_is_a_rectangle() {
    let path = Path { points: vec![pt(0, 0), pt(0, 10)], width: 4, layer: 0 };
    let poly = path.as_poly().unwrap();
    assert_eq!(poly, vec![pt(2, 0), pt(2, 10), pt(-2, 10), pt(-2, 0)]);
    let mut sorted: Vec<(i32, i32)> = poly.iter().map(|p| (p.x, p.y)).collect();
    sorted.sort();
    assert_eq!(sorted, vec![(-2, 0), (-2, 10), (2, 0), (2, 10)]);
}

#[test]
fn two_point_horizontal_path_is_a_rectangle() {
    let path = Path { points: vec![pt(10, 3), pt(2, 3)], width: 6, layer: 0 };
    assert_eq!(path.as_poly(), Ok(vec![pt(10, 0), pt(2, 0), pt(2, 6), pt(10, 6)]));
}

#[test]
fn l_shaped_path_extends_the_outer_corner() {
    let path = Path { points: vec![pt(0, 0), pt(10, 0), pt(10, 10)], width: 2, layer: 0 };
    assert_eq!(
        path.as_poly(),
        Ok(vec![pt(0, -1), pt(11, -1), pt(11, 10), pt(9, 10), pt(9, 1), pt(0, 1)])
    );
    assert_eq!(Shape::Path(path).bbox(), Ok(boxed(0, -1, 11, 10)));
}

#[test]
fn straight_run_keeps_the_side_offset() {
    let path = Path { points: vec![pt(0, 0), pt(0, 5), pt(0, 9)], width: 4, layer: 0 };
    assert_eq!(
        path.as_poly(),
        Ok(vec![pt(2, 0), pt(2, 5), pt(2, 9), pt(-2, 9), pt(-2, 5), pt(-2, 0)])
    );
}

#[test]
fn every_corner_of_a_spiral_is_offset_diagonally() {
    // right, up, left, down: one corner of each kind on the way
    let path = Path {
        points: vec![pt(0, 0), pt(10, 0), pt(10, 10), pt(-10, 10), pt(-10, -10), pt(5, -10)],
        width: 2,
        layer: 0,
    };
    assert_eq!(
        path.as_poly(),
        Ok(vec![
            pt(0, -1),
            pt(11, -1),
            pt(11, 11),
            pt(-11, 11),
            pt(-11, -11),
            pt(5, -11),
            pt(5, -9),
            pt(-9, -9),
            pt(-9, 9),
            pt(9, 9),
            pt(9, 1),
            pt(0, 1),
        ])
    );
}

#[test]
fn path_with_short_or_bad_input_is_invalid_geometry() {
    let one = Path { points: vec![pt(0, 0)], width: 2, layer: 0 };
    assert_eq!(one.as_poly(), Err(GeometryError::InvalidGeometry));
    let none = Path { points: vec![], width: 2, layer: 0 };
    assert_eq!(none.as_poly(), Err(GeometryError::InvalidGeometry));
    let odd = Path { points: vec![pt(0, 0), pt(0, 10)], width: 3, layer: 0 };
    assert_eq!(odd.as_poly(), Err(GeometryError::InvalidGeometry));
    let diagonal = Path { points: vec![pt(0, 0), pt(4, 4)], width: 2, layer: 0 };
    assert_eq!(diagonal.as_poly(), Err(GeometryError::InvalidGeometry));
    let repeated = Path { points: vec![pt(0, 0), pt(0, 4), pt(0, 4)], width: 2, layer: 0 };
    assert_eq!(repeated.as_poly(), Err(GeometryError::InvalidGeometry));
}

#[test]
fn path_that_reverses_is_an_invalid_turn() {
    let back = Path { points: vec![pt(0, 0), pt(10, 0), pt(5, 0)], width: 2, layer: 0 };
    assert_eq!(back.as_poly(), Err(GeometryError::InvalidPathTurn));
    assert_eq!(Shape::Path(back).bbox(), Err(GeometryError::InvalidPathTurn));
}

#[test]
fn bad_segment_outranks_a_reversal() {
    let both = Path { points: vec![pt(0, 0), pt(10, 0), pt(5, 0), pt(7, 7)], width: 2, layer: 0 };
    assert_eq!(both.as_poly(), Err(GeometryError::InvalidGeometry));
}

#[test]
fn zero_width_path_has_no_bbox() {
    let path = Path { points: vec![pt(0, 0), pt(0, 10)], width: 0, layer: 0 };
    assert_eq!(path.as_poly(), Ok(vec![pt(0, 0), pt(0, 10), pt(0, 10), pt(0, 0)]));
    assert_eq!(Shape::Path(path).bbox(), Err(GeometryError::InvalidGeometry));
}

#[test]
fn batch_bbox_is_the_union_of_all_shapes() {
    let shapes = vec![
        Shape::Rect(Rect { p0: pt(0, 0), p1: pt(10, 10), layer: 0 }),
        Shape::Poly(Poly { points: vec![pt(-5, 2), pt(1, 2), pt(1, 20)], layer: 1 }),
        Shape::Path(Path { points: vec![pt(0, 0), pt(30, 0)], width: 4, layer: 2 }),
    ];
    assert_eq!(shapes.bbox(), Ok(boxed(-5, -2, 30, 20)));
}

#[test]
fn empty_batch_has_no_bbox() {
    let shapes: Vec<Shape> = vec![];
    assert_eq!(shapes.bbox(), Err(GeometryError::EmptyBatch));
}

#[test]
fn batch_reports_the_first_invalid_shape() {
    let shapes = vec![
        Shape::Rect(Rect { p0: pt(0, 0), p1: pt(10, 10), layer: 0 }),
        Shape::Path(Path { points: vec![pt(0, 0), pt(10, 0), pt(5, 0)], width: 2, layer: 0 }),
        Shape::Rect(Rect { p0: pt(0, 0), p1: pt(0, 0), layer: 0 }),
    ];
    assert_eq!(shapes.bbox(), Err(GeometryError::InvalidPathTurn));
}

/// What one offset helper adds to the forward and to the backward chain for the vertex
/// (10, 20) and a half-width of 3.
fn offsets_of(helper: fn(&mut Vec<Point>, &mut Vec<Point>, Point, i32)) -> (Point, Point) {
    let mut forward = vec![pt(0, 0)];
    let mut backward = vec![pt(1, 1)];
    helper(&mut forward, &mut backward, pt(10, 20), 3);
    assert_eq!(forward.len(), 2);
    assert_eq!(backward.len(), 2);
    assert_eq!(forward[0], pt(0, 0));
    assert_eq!(backward[0], pt(1, 1));
    (forward[1], backward[1])
}

#[test]
fn straight_offsets_are_perpendicular_to_the_run() {
    assert_eq!(offsets_of(shift_pure_right), (pt(10, 17), pt(10, 23)));
    assert_eq!(offsets_of(shift_pure_left), (pt(10, 23), pt(10, 17)));
    assert_eq!(offsets_of(shift_pure_up), (pt(13, 20), pt(7, 20)));
    assert_eq!(offsets_of(shift_pure_down), (pt(7, 20), pt(13, 20)));
}

#[test]
fn corner_offsets_are_diagonal() {
    assert_eq!(offsets_of(shift_right_up), (pt(13, 17), pt(7, 23)));
    assert_eq!(offsets_of(shift_left_down), (pt(7, 23), pt(13, 17)));
    assert_eq!(offsets_of(shift_right_down), (pt(7, 17), pt(13, 23)));
    assert_eq!(offsets_of(shift_left_up), (pt(13, 23), pt(7, 17)));
}

#[test]
fn point_default_is_the_origin() {
    assert_eq!(Point::default(), pt(0, 0));
}
