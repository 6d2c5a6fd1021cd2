use vstd::prelude::*;
use crate::bbox::{
    extent_of, highest, lemma_extremes_step, lowest, max_int, min_int, union_corners, xs, ys,
    BoundingBox, CalculateBoundingBox, Corners, UnvalidatedBoundingBox,
};
use crate::error::GeometryError;
use crate::path_to_poly::{coords, coords_of};

verus! {

/// A point of the integer layout plane.
#[derive(Debug, PartialEq, Eq, Structural, Clone, Copy)]
pub struct Point {
    pub x: i32,
    pub y: i32,
}

impl Default for Point {
    fn default() -> (p: Point)
        ensures
            p == (Point { x: 0, y: 0 }),
    {
        Point { x: 0, y: 0 }
    }
}

impl Point {
    /// Whether `self` moved by `p` stays inside the 32-bit coordinate space.
    pub open spec fn can_shift(&self, p: &Point) -> bool {
        &&& i32::MIN <= self.x + p.x <= i32::MAX
        &&& i32::MIN <= self.y + p.y <= i32::MAX
    }

    /// Create a new point shifted by `p.x` in the x-dimension and by `p.y` in the y-dimension.
    pub fn shift(&self, p: &Point) -> (r: Point)
        requires
            self.can_shift(p),
        ensures
            r.x == self.x + p.x,
            r.y == self.y + p.y,
    {
        Point { x: p.x + self.x, y: p.y + self.y }
    }
}

/// An axis-aligned rectangle given by two arbitrary opposite corners.
#[derive(Debug, PartialEq, Eq, Structural, Clone, Copy)]
pub struct Rect {
    pub p0: Point,
    pub p1: Point,
    pub layer: u8,
}

impl Rect {
    /// Create a new rectangle with both corners shifted by `p`.
    pub fn shift(&self, p: &Point) -> (r: Rect)
        requires
            self.p0.can_shift(p),
            self.p1.can_shift(p),
        ensures
            r.p0.x == self.p0.x + p.x,
            r.p0.y == self.p0.y + p.y,
            r.p1.x == self.p1.x + p.x,
            r.p1.y == self.p1.y + p.y,
            r.layer == self.layer,
    {
        Rect { p0: self.p0.shift(p), p1: self.p1.shift(p), layer: self.layer }
    }
}

/// A closed ring of vertices, in input order.
#[derive(Debug, PartialEq, Eq, Clone)]
pub struct Poly {
    pub points: Vec<Point>,
    pub layer: u8,
}

/// A rectilinear centerline stroked with an even `width`.
#[derive(Debug, PartialEq, Eq, Clone)]
pub struct Path {
    pub points: Vec<Point>,
    pub width: u32,
    pub layer: u8,
}

/// One layout primitive.
#[derive(Debug, PartialEq, Eq, Clone)]
pub enum Shape {
    Rect(Rect),
    Poly(Poly),
    Path(Path),
}

/// The layer a primitive is drawn on.
pub trait Layer {
    /// The number of the layer.
    spec fn layer_of(&self) -> u8;

    /// The number of the layer.
    fn layer(&self) -> (l: u8)
        ensures
            l == self.layer_of(),
    ;
}

impl Layer for Shape {
    open spec fn layer_of(&self) -> u8 {
        match self {
            Shape::Rect(r) => r.layer,
            Shape::Poly(p) => p.layer,
            Shape::Path(p) => p.layer,
        }
    }

    fn layer(&self) -> (l: u8) {
        match self {
            Shape::Rect(r) => r.layer,
            Shape::Poly(p) => p.layer,
            Shape::Path(p) => p.layer,
        }
    }
}

/// A set of primitives together with the box that bounds them all.
#[derive(Debug, PartialEq, Eq, Clone)]
pub struct Shapes {
    pub bbox: BoundingBox,
    pub shapes: Vec<Shape>,
}

/// The vertices whose extremes bound a primitive: both corners of a rectangle, the ring of
/// a polygon, the stroked outline of a path.
pub open spec fn shape_vertices(s: Shape) -> Result<Seq<(int, int)>, GeometryError> {
    match s {
        Shape::Rect(r) => Ok(seq![coords(r.p0), coords(r.p1)]),
        Shape::Poly(p) => Ok(coords_of(p.points@)),
        Shape::Path(p) => p.spec_outline(),
    }
}

/// The bounding box of one primitive.
pub open spec fn shape_extent(s: Shape) -> Result<Corners, GeometryError> {
    match shape_vertices(s) {
        Ok(vs) => extent_of(vs),
        Err(e) => Err(e),
    }
}

/// The bounding box of a batch: the union of the boxes of its primitives, the error of the
/// first primitive that has none, or `EmptyBatch`.
pub open spec fn batch_extent(shapes: Seq<Shape>) -> Result<Corners, GeometryError>
    decreases shapes.len(),
{
    if shapes.len() == 0 {
        Err(GeometryError::EmptyBatch)
    } else if shapes.len() == 1 {
        shape_extent(shapes[0])
    } else {
        match batch_extent(shapes.drop_last()) {
            Err(e) => Err(e),
            Ok(acc) => match shape_extent(shapes.last()) {
                Err(e) => Err(e),
                Ok(b) => Ok(union_corners(acc, b)),
            },
        }
    }
}

/// The bounding box of a non-empty list of vertices.
fn bbox_of_points(points: &Vec<Point>) -> (r: Result<BoundingBox, GeometryError>)
    ensures
        r matches Ok(b) ==> extent_of(coords_of(points@)) == Ok::<Corners, GeometryError>(
            b.corners(),
        ),
        r matches Err(e) ==> extent_of(coords_of(points@)) == Err::<Corners, GeometryError>(e),
{
    if points.len() == 0 {
        return Err(GeometryError::InvalidGeometry);
    }
    let ghost vx = xs(coords_of(points@));
    let ghost vy = ys(coords_of(points@));
    let mut bbox = UnvalidatedBoundingBox::invalid();
    let mut i: usize = 0;
    while i < points.len()
        invariant
            i <= points.len(),
            vx == xs(coords_of(points@)),
            vy == ys(coords_of(points@)),
            i == 0 ==> bbox.min == (Point { x: i32::MAX, y: i32::MAX }) && bbox.max == (Point {
                x: i32::MIN,
                y: i32::MIN,
            }),
            i > 0 ==> bbox.min.x == lowest(vx.take(i as int)),
            i > 0 ==> bbox.min.y == lowest(vy.take(i as int)),
            i > 0 ==> bbox.max.x == highest(vx.take(i as int)),
            i > 0 ==> bbox.max.y == highest(vy.take(i as int)),
        decreases points.len() - i,
    {
        let pt = points[i];
        proof {
            if i > 0 {
                lemma_extremes_step(vx, i as int);
                lemma_extremes_step(vy, i as int);
            } else {
                assert(vx.take(1)[0] == vx[0]);
                assert(vy.take(1)[0] == vy[0]);
            }
        }
        if pt.x < bbox.min.x {
            bbox.min.x = pt.x;
        }
        if pt.y < bbox.min.y {
            bbox.min.y = pt.y;
        }
        if pt.x > bbox.max.x {
            bbox.max.x = pt.x;
        }
        if pt.y > bbox.max.y {
            bbox.max.y = pt.y;
        }
        i += 1;
    }
    proof {
        assert(vx.take(points.len() as int) =~= vx);
        assert(vy.take(points.len() as int) =~= vy);
        crate::bbox::lemma_lowest(vx);
        crate::bbox::lemma_highest(vx);
        crate::bbox::lemma_lowest(vy);
        crate::bbox::lemma_highest(vy);
    }
    BoundingBox::new(bbox)
}

impl CalculateBoundingBox for Shape {
    open spec fn bbox_representable(&self) -> bool {
        match self {
            Shape::Path(p) => p.representable(),
            _ => true,
        }
    }

    open spec fn bbox_corners(&self) -> Result<Corners, GeometryError> {
        shape_extent(*self)
    }

    fn bbox(&self) -> (r: Result<BoundingBox, GeometryError>) {
        match self {
            Shape::Rect(r) => {
                proof {
                    lemma_rect_extent(*r);
                }
                BoundingBox::new(UnvalidatedBoundingBox { min: r.p0, max: r.p1 })
            },
            Shape::Poly(p) => bbox_of_points(&p.points),
            Shape::Path(p) => {
                match p.as_poly() {
                    Ok(pts) => bbox_of_points(&pts),
                    Err(e) => Err(e),
                }
            },
        }
    }
}

impl CalculateBoundingBox for Vec<Shape> {
    open spec fn bbox_representable(&self) -> bool {
        forall|i: int| 0 <= i < self.len() ==> (#[trigger] self[i]).bbox_representable()
    }

    open spec fn bbox_corners(&self) -> Result<Corners, GeometryError> {
        batch_extent(self@)
    }

    fn bbox(&self) -> (r: Result<BoundingBox, GeometryError>) {
        if self.len() == 0 {
            return Err(GeometryError::EmptyBatch);
        }
        let mut bbox = match self[0].bbox() {
            Ok(b) => b,
            Err(e) => {
                proof {
                    assert(self@.take(1)[0] == self[0]);
                    lemma_batch_fails_from(self@, 1);
                }
                return Err(e);
            },
        };
        let mut i: usize = 1;
        assert(self@.take(1)[0] == self[0]);
        while i < self.len()
            invariant
                1 <= i <= self.len(),
                self.bbox_representable(),
                batch_extent(self@.take(i as int)) == Ok::<Corners, GeometryError>(bbox.corners()),
            decreases self.len() - i,
        {
            assert(self@.take(i + 1).drop_last() =~= self@.take(i as int));
            assert(self@.take(i + 1).last() == self[i as int]);
            match self[i].bbox() {
                Ok(b) => {
                    bbox.union(&b);
                },
                Err(e) => {
                    proof {
                        lemma_batch_fails_from(self@, i + 1);
                    }
                    return Err(e);
                },
            }
            i += 1;
        }
        assert(self@.take(self.len() as int) =~= self@);
        Ok(bbox)
    }
}

/// Once a prefix of a batch has no bounding box, no longer prefix has one either, and the
/// error stays the same.
pub proof fn lemma_batch_fails_from(shapes: Seq<Shape>, k: int)
    requires
        1 <= k <= shapes.len(),
        batch_extent(shapes.take(k)) is Err,
    ensures
        batch_extent(shapes) == batch_extent(shapes.take(k)),
    decreases shapes.len(),
{
    if k < shapes.len() {
        assert(shapes.drop_last().take(k) =~= shapes.take(k));
        lemma_batch_fails_from(shapes.drop_last(), k);
    } else {
        assert(shapes.take(k) =~= shapes);
    }
}

/// A rectangle is bounded by the component-wise extremes of its two corners, unless these
/// coincide in one axis.
pub proof fn lemma_rect_extent(r: Rect)
    ensures
        shape_extent(Shape::Rect(r)) == (if r.p0.x == r.p1.x || r.p0.y == r.p1.y {
            Err::<Corners, GeometryError>(GeometryError::InvalidGeometry)
        } else {
            Ok::<Corners, GeometryError>(
                (
                    (min_int(r.p0.x as int, r.p1.x as int), min_int(r.p0.y as int, r.p1.y as int)),
                    (max_int(r.p0.x as int, r.p1.x as int), max_int(r.p0.y as int, r.p1.y as int)),
                ),
            )
        }),
{
    let vs = seq![coords(r.p0), coords(r.p1)];
    assert(xs(vs).drop_last() =~= seq![r.p0.x as int]);
    assert(ys(vs).drop_last() =~= seq![r.p0.y as int]);
    assert(xs(vs).last() == r.p1.x);
    assert(ys(vs).last() == r.p1.y);
    assert(lowest(xs(vs).drop_last()) == r.p0.x);
    assert(highest(xs(vs).drop_last()) == r.p0.x);
    assert(lowest(ys(vs).drop_last()) == r.p0.y);
    assert(highest(ys(vs).drop_last()) == r.p0.y);
}

impl Shape {
    /// Whether `bbox` can be asked of this primitive: whether its bounding box, where it
    /// has one, fits the 32-bit coordinate space.
    pub fn is_representable(&self) -> (fits: bool)
        ensures
            fits == self.bbox_representable(),
    {
        match self {
            Shape::Path(p) => p.is_representable(),
            _ => true,
        }
    }
}

/// Whether `bbox` can be asked of every primitive of a batch, and of the batch.
pub fn all_representable(shapes: &Vec<Shape>) -> (fits: bool)
    ensures
        fits == shapes.bbox_representable(),
{
    let mut i: usize = 0;
    while i < shapes.len()
        invariant
            i <= shapes.len(),
            forall|j: int| 0 <= j < i ==> (#[trigger] shapes[j]).bbox_representable(),
        decreases shapes.len() - i,
    {
        if !shapes[i].is_representable() {
            return false;
        }
        i += 1;
    }
    true
}

/// The first primitive of a batch that has no bounding box, with the reason, so that a
/// failure can be reported by the index of the primitive that caused it.
pub fn first_invalid_shape(shapes: &Vec<Shape>) -> (found: Option<(usize, GeometryError)>)
    requires
        shapes.bbox_representable(),
    ensures
        found matches Some((i, e)) ==> i < shapes.len() && shape_extent(shapes[i as int]) == Err::<
            Corners,
            GeometryError,
        >(e) && forall|j: int| 0 <= j < i ==> shape_extent(#[trigger] shapes[j]) is Ok,
        found is None ==> forall|j: int|
            0 <= j < shapes.len() ==> shape_extent(#[trigger] shapes[j]) is Ok,
{
    let mut i: usize = 0;
    while i < shapes.len()
        invariant
            i <= shapes.len(),
            shapes.bbox_representable(),
            forall|j: int| 0 <= j < i ==> shape_extent(#[trigger] shapes[j]) is Ok,
        decreases shapes.len() - i,
    {
        match shapes[i].bbox() {
            Ok(_) => {},
            Err(e) => {
                return Some((i, e));
            },
        }
        i += 1;
    }
    None
}

} // verus!
