use vstd::prelude::*;
use crate::error::GeometryError;
use crate::shapes::{Path, Point};
use crate::types::{GeoCoord, GeoPolygon};

verus! {

/// The direction of one segment of a rectilinear centerline.
#[derive(Clone, Copy, Debug, PartialEq, Eq, Structural)]
pub enum RectMove {
    Left,
    Right,
    Up,
    Down,
}

/// The direction of travel from `p0` to `p1`, where the two differ in exactly one axis.
pub open spec fn move_between(p0: Point, p1: Point) -> Option<RectMove> {
    if p0.x == p1.x && p0.y < p1.y {
        Some(RectMove::Up)
    } else if p0.x == p1.x && p0.y > p1.y {
        Some(RectMove::Down)
    } else if p0.y == p1.y && p0.x < p1.x {
        Some(RectMove::Right)
    } else if p0.y == p1.y && p0.x > p1.x {
        Some(RectMove::Left)
    } else {
        None
    }
}

/// Whether `b` undoes `a`: a centerline cannot reverse on itself at a vertex.
pub open spec fn reverses(a: RectMove, b: RectMove) -> bool {
    ||| a == RectMove::Left && b == RectMove::Right
    ||| a == RectMove::Right && b == RectMove::Left
    ||| a == RectMove::Up && b == RectMove::Down
    ||| a == RectMove::Down && b == RectMove::Up
}

/// The displacement from the centerline to the forward chain along a segment: `h` to the
/// right-hand side of the direction of travel.
pub open spec fn side_offset(m: RectMove, h: int) -> (int, int) {
    match m {
        RectMove::Right => (0, -h),
        RectMove::Left => (0, h),
        RectMove::Up => (h, 0),
        RectMove::Down => (-h, 0),
    }
}

/// The displacement to the forward chain at a vertex entered by `a` and left by `b`: the
/// side offset itself on a straight run, and the sum of both side offsets at a corner.
pub open spec fn join_offset(a: RectMove, b: RectMove, h: int) -> (int, int) {
    if a == b {
        side_offset(a, h)
    } else {
        (side_offset(a, h).0 + side_offset(b, h).0, side_offset(a, h).1 + side_offset(b, h).1)
    }
}

/// Whether a coordinate pair lies in the 32-bit coordinate space.
pub open spec fn point_fits(c: (int, int)) -> bool {
    i32::MIN <= c.0 <= i32::MAX && i32::MIN <= c.1 <= i32::MAX
}

/// Whether `p` displaced by `d`, and by `d` reversed, both lie in the 32-bit coordinate space.
pub open spec fn offset_fits(p: Point, d: (int, int)) -> bool {
    point_fits((p.x + d.0, p.y + d.1)) && point_fits((p.x - d.0, p.y - d.1))
}

/// The point with the given coordinates.
pub open spec fn point_at(c: (int, int)) -> Point {
    Point { x: c.0 as i32, y: c.1 as i32 }
}

/// The coordinates of a point.
pub open spec fn coords(p: Point) -> (int, int) {
    (p.x as int, p.y as int)
}

/// The coordinates of each point of a sequence.
pub open spec fn coords_of(ps: Seq<Point>) -> Seq<(int, int)> {
    Seq::new(ps.len(), |i: int| coords(ps[i]))
}

/// `f1` and `b1` are `f0` and `b0` with one more point each: `p` displaced by `d` on the
/// forward chain and by `d` reversed on the backward chain.
pub open spec fn pushed_pair(
    f0: Seq<Point>,
    f1: Seq<Point>,
    b0: Seq<Point>,
    b1: Seq<Point>,
    p: Point,
    d: (int, int),
) -> bool {
    &&& f1 == f0.push(point_at((p.x + d.0, p.y + d.1)))
    &&& b1 == b0.push(point_at((p.x - d.0, p.y - d.1)))
}

/// The direction of segment `i` of a centerline.
pub open spec fn segment_move(points: Seq<Point>, i: int) -> Option<RectMove> {
    move_between(points[i], points[i + 1])
}

/// Every segment runs along exactly one axis.
pub open spec fn segments_ok(points: Seq<Point>) -> bool {
    forall|i: int| 0 <= i < points.len() - 1 ==> (#[trigger] segment_move(points, i)) is Some
}

/// Whether the centerline turns back on itself at vertex `i`.
pub open spec fn reverses_at(points: Seq<Point>, i: int) -> bool {
    reverses(segment_move(points, i - 1).unwrap(), segment_move(points, i).unwrap())
}

/// No interior vertex reverses the direction of travel.
pub open spec fn turns_ok(points: Seq<Point>) -> bool {
    forall|i: int| 1 <= i < points.len() - 1 ==> !#[trigger] reverses_at(points, i)
}

/// The displacement to the forward chain at vertex `i`: a butt cap at both ends, a join in
/// between.
pub open spec fn vertex_offset(points: Seq<Point>, h: int, i: int) -> (int, int) {
    if i == 0 {
        side_offset(segment_move(points, 0).unwrap(), h)
    } else if i == points.len() - 1 {
        side_offset(segment_move(points, points.len() - 2).unwrap(), h)
    } else {
        join_offset(segment_move(points, i - 1).unwrap(), segment_move(points, i).unwrap(), h)
    }
}

/// Vertex `i` of the forward chain.
pub open spec fn forward_point(points: Seq<Point>, h: int, i: int) -> (int, int) {
    (points[i].x + vertex_offset(points, h, i).0, points[i].y + vertex_offset(points, h, i).1)
}

/// Vertex `i` of the backward chain.
pub open spec fn backward_point(points: Seq<Point>, h: int, i: int) -> (int, int) {
    (points[i].x - vertex_offset(points, h, i).0, points[i].y - vertex_offset(points, h, i).1)
}

/// The outline of a single segment: a rectangle around it.
pub open spec fn two_point_outline(p0: Point, p1: Point, h: int) -> Seq<(int, int)> {
    if p0.x == p1.x {
        seq![(p0.x + h, p0.y as int), (p1.x + h, p1.y as int), (p1.x - h, p1.y as int), (
            p0.x - h,
            p0.y as int,
        )]
    } else {
        seq![(p0.x as int, p0.y - h), (p1.x as int, p1.y - h), (p1.x as int, p1.y + h), (
            p0.x as int,
            p0.y + h,
        )]
    }
}

/// The closed ring around a centerline: the forward chain, then the backward chain walked
/// from its last vertex to its first.
pub open spec fn outline(points: Seq<Point>, h: int) -> Seq<(int, int)> {
    if points.len() == 2 {
        two_point_outline(points[0], points[1], h)
    } else {
        Seq::new(
            2 * points.len(),
            |k: int|
                if k < points.len() {
                    forward_point(points, h, k)
                } else {
                    backward_point(points, h, 2 * points.len() - 1 - k)
                },
        )
    }
}

/// What the path offsetter makes of a centerline and a stroke width.
pub open spec fn path_outline(points: Seq<Point>, width: int) -> Result<
    Seq<(int, int)>,
    GeometryError,
> {
    if points.len() < 2 || width % 2 != 0 || !segments_ok(points) {
        Err(GeometryError::InvalidGeometry)
    } else if !turns_ok(points) {
        Err(GeometryError::InvalidPathTurn)
    } else {
        Ok(outline(points, width / 2))
    }
}

/// Whether every vertex of the outline, where there is one, lies in the 32-bit coordinate
/// space.
pub open spec fn outline_representable(points: Seq<Point>, width: int) -> bool {
    match path_outline(points, width) {
        Ok(o) => all_fit(o),
        Err(_) => true,
    }
}

/// Whether every coordinate pair of a sequence lies in the 32-bit coordinate space.
pub open spec fn all_fit(o: Seq<(int, int)>) -> bool {
    forall|k: int| 0 <= k < o.len() ==> point_fits(#[trigger] o[k])
}

/// Classify the segment from `p0` to `p1`.
pub fn calculate_move(p0: Point, p1: Point) -> (r: Result<RectMove, GeometryError>)
    ensures
        r matches Ok(m) ==> move_between(p0, p1) == Some(m),
        r matches Err(e) ==> e == GeometryError::InvalidGeometry && move_between(p0, p1) is None,
{
    if p0.x == p1.x {
        if p0.y == p1.y {
            Err(GeometryError::InvalidGeometry)
        } else if p0.y < p1.y {
            Ok(RectMove::Up)
        } else {
            Ok(RectMove::Down)
        }
    } else if p0.y == p1.y {
        if p0.x < p1.x {
            Ok(RectMove::Right)
        } else {
            Ok(RectMove::Left)
        }
    } else {
        Err(GeometryError::InvalidGeometry)
    }
}

/// Offset a vertex of a run to the right: the forward chain passes below it, the backward
/// chain above.
pub fn shift_pure_right(
    forward_poly_points: &mut Vec<Point>,
    backward_poly_points: &mut Vec<Point>,
    p0: Point,
    half_width: i32,
)
    requires
        offset_fits(p0, side_offset(RectMove::Right, half_width as int)),
    ensures
        pushed_pair(
            old(forward_poly_points)@,
            final(forward_poly_points)@,
            old(backward_poly_points)@,
            final(backward_poly_points)@,
            p0,
            side_offset(RectMove::Right, half_width as int),
        ),
{
    forward_poly_points.push(Point { x: p0.x, y: p0.y - half_width });
    backward_poly_points.push(Point { x: p0.x, y: p0.y + half_width });
}

/// Offset a vertex of a run to the left: the forward chain passes above it, the backward
/// chain below.
pub fn shift_pure_left(
    forward_poly_points: &mut Vec<Point>,
    backward_poly_points: &mut Vec<Point>,
    p0: Point,
    half_width: i32,
)
    requires
        offset_fits(p0, side_offset(RectMove::Left, half_width as int)),
    ensures
        pushed_pair(
            old(forward_poly_points)@,
            final(forward_poly_points)@,
            old(backward_poly_points)@,
            final(backward_poly_points)@,
            p0,
            side_offset(RectMove::Left, half_width as int),
        ),
{
    forward_poly_points.push(Point { x: p0.x, y: p0.y + half_width });
    backward_poly_points.push(Point { x: p0.x, y: p0.y - half_width });
}

/// Offset a vertex of a run upwards: the forward chain passes to its right, the backward
/// chain to its left.
pub fn shift_pure_up(
    forward_poly_points: &mut Vec<Point>,
    backward_poly_points: &mut Vec<Point>,
    p0: Point,
    half_width: i32,
)
    requires
        offset_fits(p0, side_offset(RectMove::Up, half_width as int)),
    ensures
        pushed_pair(
            old(forward_poly_points)@,
            final(forward_poly_points)@,
            old(backward_poly_points)@,
            final(backward_poly_points)@,
            p0,
            side_offset(RectMove::Up, half_width as int),
        ),
{
    forward_poly_points.push(Point { x: p0.x + half_width, y: p0.y });
    backward_poly_points.push(Point { x: p0.x - half_width, y: p0.y });
}

/// Offset a vertex of a run downwards: the forward chain passes to its left, the backward
/// chain to its right.
pub fn shift_pure_down(
    forward_poly_points: &mut Vec<Point>,
    backward_poly_points: &mut Vec<Point>,
    p0: Point,
    half_width: i32,
)
    requires
        offset_fits(p0, side_offset(RectMove::Down, half_width as int)),
    ensures
        pushed_pair(
            old(forward_poly_points)@,
            final(forward_poly_points)@,
            old(backward_poly_points)@,
            final(backward_poly_points)@,
            p0,
            side_offset(RectMove::Down, half_width as int),
        ),
{
    forward_poly_points.push(Point { x: p0.x - half_width, y: p0.y });
    backward_poly_points.push(Point { x: p0.x + half_width, y: p0.y });
}

/// Offset the corner between a run to the right and a run upwards, taken in either order:
/// the forward chain gets the corner below and to the right.
pub fn shift_right_up(
    forward_poly_points: &mut Vec<Point>,
    backward_poly_points: &mut Vec<Point>,
    p0: Point,
    half_width: i32,
)
    requires
        offset_fits(p0, join_offset(RectMove::Right, RectMove::Up, half_width as int)),
    ensures
        pushed_pair(
            old(forward_poly_points)@,
            final(forward_poly_points)@,
            old(backward_poly_points)@,
            final(backward_poly_points)@,
            p0,
            join_offset(RectMove::Right, RectMove::Up, half_width as int),
        ),
{
    forward_poly_points.push(Point { x: p0.x + half_width, y: p0.y - half_width });
    backward_poly_points.push(Point { x: p0.x - half_width, y: p0.y + half_width });
}

/// Offset the corner between a run to the left and a run downwards, taken in either order:
/// the forward chain gets the corner above and to the left.
pub fn shift_left_down(
    forward_poly_points: &mut Vec<Point>,
    backward_poly_points: &mut Vec<Point>,
    p0: Point,
    half_width: i32,
)
    requires
        offset_fits(p0, join_offset(RectMove::Left, RectMove::Down, half_width as int)),
    ensures
        pushed_pair(
            old(forward_poly_points)@,
            final(forward_poly_points)@,
            old(backward_poly_points)@,
            final(backward_poly_points)@,
            p0,
            join_offset(RectMove::Left, RectMove::Down, half_width as int),
        ),
{
    shift_right_up(backward_poly_points, forward_poly_points, p0, half_width);
}

/// Offset the corner between a run to the right and a run downwards, taken in either
/// order: the forward chain gets the corner below and to the left.
pub fn shift_right_down(
    forward_poly_points: &mut Vec<Point>,
    backward_poly_points: &mut Vec<Point>,
    p0: Point,
    half_width: i32,
)
    requires
        offset_fits(p0, join_offset(RectMove::Right, RectMove::Down, half_width as int)),
    ensures
        pushed_pair(
            old(forward_poly_points)@,
            final(forward_poly_points)@,
            old(backward_poly_points)@,
            final(backward_poly_points)@,
            p0,
            join_offset(RectMove::Right, RectMove::Down, half_width as int),
        ),
{
    forward_poly_points.push(Point { x: p0.x - half_width, y: p0.y - half_width });
    backward_poly_points.push(Point { x: p0.x + half_width, y: p0.y + half_width });
}

/// Offset the corner between a run to the left and a run upwards, taken in either order:
/// the forward chain gets the corner above and to the right.
pub fn shift_left_up(
    forward_poly_points: &mut Vec<Point>,
    backward_poly_points: &mut Vec<Point>,
    p0: Point,
    half_width: i32,
)
    requires
        offset_fits(p0, join_offset(RectMove::Left, RectMove::Up, half_width as int)),
    ensures
        pushed_pair(
            old(forward_poly_points)@,
            final(forward_poly_points)@,
            old(backward_poly_points)@,
            final(backward_poly_points)@,
            p0,
            join_offset(RectMove::Left, RectMove::Up, half_width as int),
        ),
{
    shift_right_down(backward_poly_points, forward_poly_points, p0, half_width);
}

/// Whether `b` undoes `a`.
fn is_reversal(a: RectMove, b: RectMove) -> (r: bool)
    ensures
        r == reverses(a, b),
{
    match (a, b) {
        (RectMove::Left, RectMove::Right) => true,
        (RectMove::Right, RectMove::Left) => true,
        (RectMove::Up, RectMove::Down) => true,
        (RectMove::Down, RectMove::Up) => true,
        _ => false,
    }
}

/// Add the butt cap at an end of the centerline whose only segment there runs along `m`.
fn push_cap(
    forward_poly_points: &mut Vec<Point>,
    backward_poly_points: &mut Vec<Point>,
    m: RectMove,
    p0: Point,
    half_width: i32,
)
    requires
        offset_fits(p0, side_offset(m, half_width as int)),
    ensures
        pushed_pair(
            old(forward_poly_points)@,
            final(forward_poly_points)@,
            old(backward_poly_points)@,
            final(backward_poly_points)@,
            p0,
            side_offset(m, half_width as int),
        ),
{
    match m {
        RectMove::Right => shift_pure_right(
            forward_poly_points,
            backward_poly_points,
            p0,
            half_width,
        ),
        RectMove::Left => shift_pure_left(
            forward_poly_points,
            backward_poly_points,
            p0,
            half_width,
        ),
        RectMove::Up => shift_pure_up(forward_poly_points, backward_poly_points, p0, half_width),
        RectMove::Down => shift_pure_down(
            forward_poly_points,
            backward_poly_points,
            p0,
            half_width,
        ),
    }
}

/// Add the join at an interior vertex entered by `last_move` and left by `next_move`.
fn push_join(
    forward_poly_points: &mut Vec<Point>,
    backward_poly_points: &mut Vec<Point>,
    last_move: RectMove,
    next_move: RectMove,
    p0: Point,
    half_width: i32,
)
    requires
        !reverses(last_move, next_move),
        offset_fits(p0, join_offset(last_move, next_move, half_width as int)),
    ensures
        pushed_pair(
            old(forward_poly_points)@,
            final(forward_poly_points)@,
            old(backward_poly_points)@,
            final(backward_poly_points)@,
            p0,
            join_offset(last_move, next_move, half_width as int),
        ),
{
    match (last_move, next_move) {
        (RectMove::Right, RectMove::Right) => shift_pure_right(
            forward_poly_points,
            backward_poly_points,
            p0,
            half_width,
        ),
        (RectMove::Left, RectMove::Left) => shift_pure_left(
            forward_poly_points,
            backward_poly_points,
            p0,
            half_width,
        ),
        (RectMove::Up, RectMove::Up) => shift_pure_up(
            forward_poly_points,
            backward_poly_points,
            p0,
            half_width,
        ),
        (RectMove::Down, RectMove::Down) => shift_pure_down(
            forward_poly_points,
            backward_poly_points,
            p0,
            half_width,
        ),
        (RectMove::Right, RectMove::Down) | (RectMove::Down, RectMove::Right) => {
            shift_right_down(forward_poly_points, backward_poly_points, p0, half_width)
        },
        (RectMove::Right, RectMove::Up) | (RectMove::Up, RectMove::Right) => {
            shift_right_up(forward_poly_points, backward_poly_points, p0, half_width)
        },
        (RectMove::Left, RectMove::Up) | (RectMove::Up, RectMove::Left) => {
            shift_left_up(forward_poly_points, backward_poly_points, p0, half_width)
        },
        (RectMove::Left, RectMove::Down) | (RectMove::Down, RectMove::Left) => {
            shift_left_down(forward_poly_points, backward_poly_points, p0, half_width)
        },
        (RectMove::Left, RectMove::Right)
        | (RectMove::Right, RectMove::Left)
        | (RectMove::Up, RectMove::Down)
        | (RectMove::Down, RectMove::Up) => {},
    }
}

impl Path {
    /// What `as_poly` makes of this path.
    pub open spec fn spec_outline(&self) -> Result<Seq<(int, int)>, GeometryError> {
        path_outline(self.points@, self.width as int)
    }

    /// Whether the outline of this path, where it has one, fits the 32-bit coordinate space.
    pub open spec fn representable(&self) -> bool {
        outline_representable(self.points@, self.width as int)
    }

    /// The directions of all segments, if every one of them is rectilinear and no interior
    /// vertex reverses the travel.
    fn moves(&self) -> (r: Result<Vec<RectMove>, GeometryError>)
        requires
            self.points.len() >= 2,
        ensures
            r matches Ok(ms) ==> {
                &&& segments_ok(self.points@)
                &&& turns_ok(self.points@)
                &&& ms.len() == self.points.len() - 1
                &&& forall|j: int|
                    0 <= j < ms.len() ==> segment_move(self.points@, j) == Some(#[trigger] ms[j])
            },
            r matches Err(e) ==> {
                &&& e == GeometryError::InvalidGeometry ==> !segments_ok(self.points@)
                &&& e == GeometryError::InvalidPathTurn ==> segments_ok(self.points@) && !turns_ok(
                    self.points@,
                )
                &&& e != GeometryError::EmptyBatch
            },
    {
        let n = self.points.len();
        let mut ms: Vec<RectMove> = Vec::with_capacity(n);
        let mut reversal_seen = false;
        let ghost mut reversal_at: int = 0;
        let mut i: usize = 0;
        while i < n - 1
            invariant
                n == self.points.len(),
                n >= 2,
                i <= n - 1,
                ms.len() == i,
                forall|j: int|
                    0 <= j < i ==> segment_move(self.points@, j) == Some(#[trigger] ms[j]),
                reversal_seen ==> 1 <= reversal_at < i && reverses_at(self.points@, reversal_at),
                !reversal_seen ==> forall|j: int|
                    1 <= j < i ==> !#[trigger] reverses_at(self.points@, j),
            decreases n - 1 - i,
        {
            match calculate_move(self.points[i], self.points[i + 1]) {
                Ok(m) => {
                    if i > 0 && !reversal_seen {
                        assert(segment_move(self.points@, i - 1) == Some(ms[i - 1]));
                        assert(reverses_at(self.points@, i as int) == reverses(ms[i - 1], m));
                        if is_reversal(ms[i - 1], m) {
                            reversal_seen = true;
                            proof {
                                reversal_at = i as int;
                            }
                        }
                    }
                    ms.push(m);
                },
                Err(e) => {
                    assert(segment_move(self.points@, i as int) is None);
                    return Err(e);
                },
            }
            i += 1;
        }
        assert(segments_ok(self.points@)) by {
            assert forall|j: int| 0 <= j < self.points@.len() - 1 implies (#[trigger] segment_move(
                self.points@,
                j,
            )) is Some by {
                assert(segment_move(self.points@, j) == Some(ms[j]));
            }
        }
        if reversal_seen {
            Err(GeometryError::InvalidPathTurn)
        } else {
            Ok(ms)
        }
    }

    /// The forward and the backward chain of a centerline of more than two points.
    fn offset_chains(&self, ms: &Vec<RectMove>, half_width: i32) -> (chains: (
        Vec<Point>,
        Vec<Point>,
    ))
        requires
            self.points.len() > 2,
            segments_ok(self.points@),
            turns_ok(self.points@),
            ms.len() == self.points.len() - 1,
            forall|j: int|
                0 <= j < ms.len() ==> segment_move(self.points@, j) == Some(#[trigger] ms[j]),
            forall|j: int|
                0 <= j < self.points.len() ==> offset_fits(
                    #[trigger] self.points[j],
                    vertex_offset(self.points@, half_width as int, j),
                ),
        ensures
            chains.0.len() == self.points.len(),
            chains.1.len() == self.points.len(),
            forall|j: int|
                0 <= j < self.points.len() ==> coords(#[trigger] chains.0[j]) == forward_point(
                    self.points@,
                    half_width as int,
                    j,
                ),
            forall|j: int|
                0 <= j < self.points.len() ==> coords(#[trigger] chains.1[j]) == backward_point(
                    self.points@,
                    half_width as int,
                    j,
                ),
    {
        let pts = &self.points;
        let num_points = pts.len();
        let ghost h: int = half_width as int;
        let mut forward_poly_points: Vec<Point> = Vec::with_capacity(num_points);
        let mut backward_poly_points: Vec<Point> = Vec::with_capacity(num_points);

        assert(offset_fits(pts[0], vertex_offset(pts@, h, 0)));
        assert(segment_move(pts@, 0) == Some(ms[0]));
        push_cap(&mut forward_poly_points, &mut backward_poly_points, ms[0], pts[0], half_width);

        let mut ix: usize = 1;
        while ix < num_points - 1
            invariant
                pts == &self.points,
                num_points == pts.len(),
                num_points > 2,
                1 <= ix <= num_points - 1,
                h == half_width as int,
                turns_ok(pts@),
                ms.len() == num_points - 1,
                forall|j: int| 0 <= j < ms.len() ==> segment_move(pts@, j) == Some(#[trigger] ms[j]),
                forall|j: int|
                    0 <= j < num_points ==> offset_fits(
                        #[trigger] pts[j],
                        vertex_offset(pts@, h, j),
                    ),
                forward_poly_points.len() == ix,
                backward_poly_points.len() == ix,
                forall|j: int|
                    0 <= j < ix ==> coords(#[trigger] forward_poly_points[j]) == forward_point(
                        pts@,
                        h,
                        j,
                    ),
                forall|j: int|
                    0 <= j < ix ==> coords(#[trigger] backward_poly_points[j]) == backward_point(
                        pts@,
                        h,
                        j,
                    ),
            decreases num_points - ix,
        {
            let last_move = ms[ix - 1];
            let next_move = ms[ix];
            proof {
                assert(segment_move(pts@, ix - 1) == Some(ms[ix - 1]));
                assert(segment_move(pts@, ix as int) == Some(ms[ix as int]));
                assert(!reverses_at(pts@, ix as int));
                assert(offset_fits(pts[ix as int], vertex_offset(pts@, h, ix as int)));
            }
            push_join(
                &mut forward_poly_points,
                &mut backward_poly_points,
                last_move,
                next_move,
                pts[ix],
                half_width,
            );
            ix += 1;
        }

        proof {
            assert(segment_move(pts@, num_points - 2) == Some(ms[num_points - 2]));
            assert(offset_fits(pts[num_points - 1], vertex_offset(pts@, h, num_points - 1)));
        }
        push_cap(
            &mut forward_poly_points,
            &mut backward_poly_points,
            ms[num_points - 2],
            pts[num_points - 1],
            half_width,
        );
        (forward_poly_points, backward_poly_points)
    }

    /// The closed polygon that outlines the stroked centerline: the forward chain followed
    /// by the backward chain in reverse.
    pub fn as_poly(&self) -> (r: Result<Vec<Point>, GeometryError>)
        requires
            self.representable(),
        ensures
            r matches Ok(v) ==> self.spec_outline() matches Ok(o) && coords_of(v@) == o,
            r matches Err(e) ==> self.spec_outline() == Err::<Seq<(int, int)>, GeometryError>(e),
    {
        let pts = &self.points;
        let num_points = pts.len();
        if num_points < 2 || self.width % 2 != 0 {
            return Err(GeometryError::InvalidGeometry);
        }
        let half_width: i32 = (self.width / 2) as i32;
        let ms = match self.moves() {
            Ok(ms) => ms,
            Err(e) => {
                return Err(e);
            },
        };
        let ghost h: int = half_width as int;
        if num_points == 2 {
            proof {
                lemma_two_point_fits(pts@, self.width as int);
            }
            return Ok(segment_rectangle(pts[0], pts[1], half_width));
        }
        proof {
            lemma_vertex_offsets_fit(pts@, self.width as int);
        }
        let (forward_poly_points, backward_poly_points) = self.offset_chains(&ms, half_width);
        let points = close_ring(forward_poly_points, &backward_poly_points);
        proof {
            lemma_ring_is_outline(pts@, h, forward_poly_points@, backward_poly_points@, points@);
        }
        Ok(points)
    }
}

/// A representable outline of a single segment has four vertices in the coordinate space.
proof fn lemma_two_point_fits(points: Seq<Point>, width: int)
    requires
        points.len() == 2,
        width % 2 == 0,
        segments_ok(points),
        outline_representable(points, width),
    ensures
        path_outline(points, width) == Ok::<Seq<(int, int)>, GeometryError>(
            two_point_outline(points[0], points[1], width / 2),
        ),
        forall|k: int|
            0 <= k < 4 ==> point_fits(
                #[trigger] two_point_outline(points[0], points[1], width / 2)[k],
            ),
{
    assert(turns_ok(points));
    let o = outline(points, width / 2);
    assert(path_outline(points, width) == Ok::<Seq<(int, int)>, GeometryError>(o));
    assert(o.len() == 4);
    assert forall|k: int| 0 <= k < 4 implies point_fits(
        #[trigger] two_point_outline(points[0], points[1], width / 2)[k],
    ) by {
        assert(point_fits(o[k]));
    }
}

/// In a representable outline of a longer centerline, every vertex can be displaced to both
/// chains without leaving the coordinate space.
proof fn lemma_vertex_offsets_fit(points: Seq<Point>, width: int)
    requires
        points.len() > 2,
        width % 2 == 0,
        segments_ok(points),
        turns_ok(points),
        outline_representable(points, width),
    ensures
        forall|j: int|
            0 <= j < points.len() ==> offset_fits(
                #[trigger] points[j],
                vertex_offset(points, width / 2, j),
            ),
{
    let h = width / 2;
    let n = points.len() as int;
    let o = outline(points, h);
    assert(path_outline(points, width) == Ok::<Seq<(int, int)>, GeometryError>(o));
    assert(o.len() == 2 * n);
    assert forall|j: int| 0 <= j < n implies offset_fits(
        #[trigger] points[j],
        vertex_offset(points, h, j),
    ) by {
        assert(point_fits(o[j]));
        assert(o[j] == forward_point(points, h, j));
        assert(point_fits(o[2 * n - 1 - j]));
        assert(o[2 * n - 1 - j] == backward_point(points, h, j));
    }
}

/// A ring made of the forward chain and the reversed backward chain is the outline.
proof fn lemma_ring_is_outline(
    points: Seq<Point>,
    h: int,
    forward: Seq<Point>,
    backward: Seq<Point>,
    ring: Seq<Point>,
)
    requires
        points.len() > 2,
        forward.len() == points.len(),
        backward.len() == points.len(),
        ring.len() == 2 * points.len(),
        forall|j: int|
            0 <= j < points.len() ==> coords(#[trigger] forward[j]) == forward_point(points, h, j),
        forall|j: int|
            0 <= j < points.len() ==> coords(#[trigger] backward[j]) == backward_point(
                points,
                h,
                j,
            ),
        forall|k: int| 0 <= k < forward.len() ==> #[trigger] ring[k] == forward[k],
        forall|k: int|
            forward.len() <= k < ring.len() ==> #[trigger] ring[k] == backward[ring.len() - 1 - k],
    ensures
        coords_of(ring) == outline(points, h),
{
    let n = points.len() as int;
    let o = outline(points, h);
    assert(o.len() == 2 * n);
    assert forall|k: int| 0 <= k < 2 * n implies coords_of(ring)[k] == o[k] by {
        if k < n {
            assert(ring[k] == forward[k]);
            assert(coords(forward[k]) == forward_point(points, h, k));
        } else {
            assert(ring[k] == backward[2 * n - 1 - k]);
            assert(coords(backward[2 * n - 1 - k]) == backward_point(points, h, 2 * n - 1 - k));
        }
    }
    assert(coords_of(ring) =~= o);
}

/// The rectangle around the single segment from `p0` to `p1`.
fn segment_rectangle(p0: Point, p1: Point, half_width: i32) -> (v: Vec<Point>)
    requires
        forall|k: int|
            0 <= k < 4 ==> point_fits(#[trigger] two_point_outline(p0, p1, half_width as int)[k]),
    ensures
        coords_of(v@) == two_point_outline(p0, p1, half_width as int),
{
    let ghost o = two_point_outline(p0, p1, half_width as int);
    assert(point_fits(o[0]) && point_fits(o[1]) && point_fits(o[2]) && point_fits(o[3]));
    let v = if p0.x == p1.x {
        // vertical
        let a = Point { x: p0.x + half_width, y: p0.y };
        let b = Point { x: p1.x + half_width, y: p1.y };
        let c = Point { x: p1.x - half_width, y: p1.y };
        let d = Point { x: p0.x - half_width, y: p0.y };
        vec![a, b, c, d]
    } else {
        // horizontal
        let a = Point { x: p0.x, y: p0.y - half_width };
        let b = Point { x: p1.x, y: p1.y - half_width };
        let c = Point { x: p1.x, y: p1.y + half_width };
        let d = Point { x: p0.x, y: p0.y + half_width };
        vec![a, b, c, d]
    };
    assert(coords_of(v@) =~= o);
    v
}

/// The forward chain followed by the backward chain walked from its end to its start.
fn close_ring(forward: Vec<Point>, backward: &Vec<Point>) -> (ring: Vec<Point>)
    ensures
        ring.len() == forward.len() + backward.len(),
        forall|k: int| 0 <= k < forward.len() ==> #[trigger] ring[k] == forward[k],
        forall|k: int|
            forward.len() <= k < ring.len() ==> #[trigger] ring[k] == backward[ring.len() - 1 - k],
{
    let ghost first = forward@;
    let mut ring = forward;
    let mut left: usize = backward.len();
    while left > 0
        invariant
            left <= backward.len(),
            ring.len() == first.len() + backward.len() - left,
            forall|k: int| 0 <= k < first.len() ==> ring[k] == first[k],
            forall|k: int|
                first.len() <= k < ring.len() ==> ring[k] == backward[first.len() + backward.len()
                    - 1 - k],
        decreases left,
    {
        left -= 1;
        ring.push(backward[left]);
    }
    ring
}

/// The stroked outline of a path as a polygon of the tiling plane.
pub fn make_path_into_polygon(path: &Path) -> (r: Result<GeoPolygon, GeometryError>)
    requires
        path.representable(),
    ensures
        r matches Ok(polygon) ==> path.spec_outline() matches Ok(o) && polygon.ring() == o,
        r matches Err(e) ==> path.spec_outline() == Err::<Seq<(int, int)>, GeometryError>(e),
{
    let points = match path.as_poly() {
        Ok(points) => points,
        Err(e) => {
            return Err(e);
        },
    };
    let mut exterior: Vec<GeoCoord> = Vec::with_capacity(points.len());
    let mut i: usize = 0;
    while i < points.len()
        invariant
            i <= points.len(),
            exterior.len() == i,
            forall|j: int| 0 <= j < i ==> (#[trigger] exterior[j]).pair() == coords(points[j]),
        decreases points.len() - i,
    {
        let p = points[i];
        exterior.push(GeoCoord { x: p.x as i64, y: p.y as i64 });
        i += 1;
    }
    let polygon = GeoPolygon { exterior };
    assert(polygon.ring() =~= coords_of(points@));
    Ok(polygon)
}

/// Where every vertex of a longer centerline can be displaced to both chains without
/// leaving the coordinate space, the whole outline lies in it.
proof fn lemma_offsets_fit_outline(points: Seq<Point>, h: int)
    requires
        points.len() > 2,
        forall|j: int|
            0 <= j < points.len() ==> offset_fits(#[trigger] points[j], vertex_offset(points, h, j)),
    ensures
        all_fit(outline(points, h)),
{
    let n = points.len() as int;
    let o = outline(points, h);
    assert forall|k: int| 0 <= k < o.len() implies point_fits(#[trigger] o[k]) by {
        if k < n {
            assert(offset_fits(points[k], vertex_offset(points, h, k)));
        } else {
            assert(offset_fits(points[2 * n - 1 - k], vertex_offset(points, h, 2 * n - 1 - k)));
        }
    }
}

/// The displacement to the forward chain along a segment.
fn side_offset_of(m: RectMove, h: i64) -> (d: (i64, i64))
    requires
        0 <= h <= i32::MAX,
    ensures
        (d.0 as int, d.1 as int) == side_offset(m, h as int),
{
    match m {
        RectMove::Right => (0, -h),
        RectMove::Left => (0, h),
        RectMove::Up => (h, 0),
        RectMove::Down => (-h, 0),
    }
}

/// Whether `p` can be displaced by `d` and by `d` reversed inside the coordinate space.
fn offset_fits_at(p: Point, d: (i64, i64)) -> (fits: bool)
    requires
        -0x1_0000_0000 <= d.0 <= 0x1_0000_0000,
        -0x1_0000_0000 <= d.1 <= 0x1_0000_0000,
    ensures
        fits == offset_fits(p, (d.0 as int, d.1 as int)),
{
    let (x, y) = (p.x as i64, p.y as i64);
    let (lo, hi) = (i32::MIN as i64, i32::MAX as i64);
    lo <= x + d.0 && x + d.0 <= hi && lo <= y + d.1 && y + d.1 <= hi && lo <= x - d.0 && x - d.0
        <= hi && lo <= y - d.1 && y - d.1 <= hi
}

impl Path {
    /// Whether `as_poly` can be asked for the outline of this path: whether the outline,
    /// where the path has one, fits the 32-bit coordinate space.
    pub fn is_representable(&self) -> (fits: bool)
        ensures
            fits == self.representable(),
    {
        let pts = &self.points;
        let num_points = pts.len();
        if num_points < 2 || self.width % 2 != 0 {
            return true;
        }
        let ms = match self.moves() {
            Ok(ms) => ms,
            Err(_) => {
                return true;
            },
        };
        let h: i64 = (self.width / 2) as i64;
        let ghost o = outline(pts@, h as int);
        assert(self.spec_outline() == Ok::<Seq<(int, int)>, GeometryError>(o));
        if num_points == 2 {
            let (p0, p1) = (pts[0], pts[1]);
            assert(o == two_point_outline(p0, p1, h as int));
            let d = if p0.x == p1.x {
                (h, 0)
            } else {
                (0, h)
            };
            let fits = offset_fits_at(p0, d) && offset_fits_at(p1, d);
            proof {
                if fits {
                    assert(all_fit(o));
                } else {
                    assert(!(point_fits(o[0]) && point_fits(o[1]) && point_fits(o[2])
                        && point_fits(o[3])));
                }
            }
            return fits;
        }
        let mut ix: usize = 0;
        while ix < num_points
            invariant
                pts == &self.points,
                num_points == pts.len(),
                num_points > 2,
                ix <= num_points,
                0 <= h <= i32::MAX,
                self.spec_outline() == Ok::<Seq<(int, int)>, GeometryError>(
                    outline(pts@, h as int),
                ),
                ms.len() == num_points - 1,
                forall|j: int| 0 <= j < ms.len() ==> segment_move(pts@, j) == Some(#[trigger] ms[j]),
                forall|j: int|
                    0 <= j < ix ==> offset_fits(
                        #[trigger] pts[j],
                        vertex_offset(pts@, h as int, j),
                    ),
            decreases num_points - ix,
        {
            let d = vertex_offset_of(pts, &ms, h, ix);
            if !offset_fits_at(pts[ix], d) {
                proof {
                    lemma_offset_outside(pts@, h as int, ix as int);
                }
                return false;
            }
            ix += 1;
        }
        proof {
            lemma_offsets_fit_outline(pts@, h as int);
        }
        true
    }
}

/// The displacement to the forward chain at vertex `ix` of a longer centerline.
fn vertex_offset_of(pts: &Vec<Point>, ms: &Vec<RectMove>, h: i64, ix: usize) -> (d: (i64, i64))
    requires
        pts.len() > 2,
        ix < pts.len(),
        0 <= h <= i32::MAX,
        ms.len() == pts.len() - 1,
        forall|j: int| 0 <= j < ms.len() ==> segment_move(pts@, j) == Some(#[trigger] ms[j]),
    ensures
        (d.0 as int, d.1 as int) == vertex_offset(pts@, h as int, ix as int),
        -0x1_0000_0000 <= d.0 <= 0x1_0000_0000,
        -0x1_0000_0000 <= d.1 <= 0x1_0000_0000,
{
    let num_points = pts.len();
    proof {
        if ix > 0 {
            assert(segment_move(pts@, ix - 1) == Some(ms[ix - 1]));
        }
        if ix < num_points - 1 {
            assert(segment_move(pts@, ix as int) == Some(ms[ix as int]));
        }
    }
    if ix == 0 {
        side_offset_of(ms[0], h)
    } else if ix == num_points - 1 {
        side_offset_of(ms[num_points - 2], h)
    } else if is_same_move(ms[ix - 1], ms[ix]) {
        side_offset_of(ms[ix], h)
    } else {
        let a = side_offset_of(ms[ix - 1], h);
        let b = side_offset_of(ms[ix], h);
        (a.0 + b.0, a.1 + b.1)
    }
}

/// A vertex that cannot be displaced to both chains puts a vertex of the outline outside
/// of the coordinate space.
proof fn lemma_offset_outside(points: Seq<Point>, h: int, i: int)
    requires
        points.len() > 2,
        0 <= i < points.len(),
        !offset_fits(points[i], vertex_offset(points, h, i)),
    ensures
        !all_fit(outline(points, h)),
{
    let n = points.len() as int;
    let o = outline(points, h);
    assert(o[i] == forward_point(points, h, i));
    assert(o[2 * n - 1 - i] == backward_point(points, h, i));
    assert(!(point_fits(o[i]) && point_fits(o[2 * n - 1 - i])));
}

/// Whether two segments run in the same direction.
fn is_same_move(a: RectMove, b: RectMove) -> (same: bool)
    ensures
        same == (a == b),
{
    match (a, b) {
        (RectMove::Left, RectMove::Left) => true,
        (RectMove::Right, RectMove::Right) => true,
        (RectMove::Up, RectMove::Up) => true,
        (RectMove::Down, RectMove::Down) => true,
        _ => false,
    }
}

} // verus!
