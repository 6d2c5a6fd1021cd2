use vstd::prelude::*;
use crate::error::GeometryError;
use crate::shapes::Point;

verus! {

/// The smaller of two integers.
pub open spec fn min_int(a: int, b: int) -> int {
    if a <= b { a } else { b }
}

/// The larger of two integers.
pub open spec fn max_int(a: int, b: int) -> int {
    if a >= b { a } else { b }
}

/// A lower-left and an upper-right corner, as mathematical coordinate pairs.
pub type Corners = ((int, int), (int, int));

/// The smallest element of a non-empty sequence.
pub open spec fn lowest(s: Seq<int>) -> int
    decreases s.len(),
{
    if s.len() <= 1 {
        s[0]
    } else {
        min_int(lowest(s.drop_last()), s.last())
    }
}

/// The largest element of a non-empty sequence.
pub open spec fn highest(s: Seq<int>) -> int
    decreases s.len(),
{
    if s.len() <= 1 {
        s[0]
    } else {
        max_int(highest(s.drop_last()), s.last())
    }
}

/// The x coordinates of a sequence of coordinate pairs.
pub open spec fn xs(vs: Seq<(int, int)>) -> Seq<int> {
    Seq::new(vs.len(), |i: int| vs[i].0)
}

/// The y coordinates of a sequence of coordinate pairs.
pub open spec fn ys(vs: Seq<(int, int)>) -> Seq<int> {
    Seq::new(vs.len(), |i: int| vs[i].1)
}

/// The bounding box of a set of vertices: the component-wise extremes, unless there is no
/// vertex or the extremes coincide in one axis.
pub open spec fn extent_of(vs: Seq<(int, int)>) -> Result<Corners, GeometryError> {
    if vs.len() == 0 || lowest(xs(vs)) == highest(xs(vs)) || lowest(ys(vs)) == highest(ys(vs)) {
        Err(GeometryError::InvalidGeometry)
    } else {
        Ok(((lowest(xs(vs)), lowest(ys(vs))), (highest(xs(vs)), highest(ys(vs)))))
    }
}

/// The component-wise extremes of two pairs of corners.
pub open spec fn union_corners(a: Corners, b: Corners) -> Corners {
    (
        (min_int(a.0.0, b.0.0), min_int(a.0.1, b.0.1)),
        (max_int(a.1.0, b.1.0), max_int(a.1.1, b.1.1)),
    )
}

/// Anything that occupies a non-degenerate axis-aligned extent of the plane.
pub trait CalculateBoundingBox {
    /// The inputs whose bounding box fits the 32-bit coordinate space.
    spec fn bbox_representable(&self) -> bool;

    /// The lower-left and upper-right corner of the extent, or why there is none.
    spec fn bbox_corners(&self) -> Result<Corners, GeometryError>;

    /// The bounding box, or the reason why there is none.
    fn bbox(&self) -> (r: Result<BoundingBox, GeometryError>)
        requires
            self.bbox_representable(),
        ensures
            r matches Ok(b) ==> self.bbox_corners() == Ok::<Corners, GeometryError>(b.corners()),
            r matches Err(e) ==> self.bbox_corners() == Err::<Corners, GeometryError>(e),
    ;
}

/// A pair of corners that has not been checked or ordered yet.
pub struct UnvalidatedBoundingBox {
    pub min: Point,
    pub max: Point,
}

impl UnvalidatedBoundingBox {
    /// The neutral start of a running minimum and maximum: every point lowers `min` and
    /// raises `max`.
    pub fn invalid() -> (r: Self)
        ensures
            r.min == (Point { x: i32::MAX, y: i32::MAX }),
            r.max == (Point { x: i32::MIN, y: i32::MIN }),
    {
        UnvalidatedBoundingBox {
            min: Point { x: i32::MAX, y: i32::MAX },
            max: Point { x: i32::MIN, y: i32::MIN },
        }
    }
}

/// An axis-aligned box with positive width and height.
#[derive(Debug, PartialEq, Eq, Clone, Copy)]
pub struct BoundingBox {
    min: Point,
    max: Point,
}

impl BoundingBox {
    /// Lower-left corner.
    pub closed spec fn spec_min(&self) -> Point {
        self.min
    }

    /// Upper-right corner.
    pub closed spec fn spec_max(&self) -> Point {
        self.max
    }

    /// Both corners as mathematical coordinate pairs.
    pub open spec fn corners(&self) -> Corners {
        ((self.min().x as int, self.min().y as int), (self.max().x as int, self.max().y as int))
    }

    /// The invariant of the type: the box has positive extent in both axes.
    #[verifier::type_invariant]
    pub closed spec fn well_formed(&self) -> bool {
        self.min.x < self.max.x && self.min.y < self.max.y
    }

    /// What `union` computes: component-wise extremes of the two boxes.
    pub closed spec fn union_of(self, other: BoundingBox) -> BoundingBox {
        BoundingBox {
            min: Point {
                x: min_int(self.min.x as int, other.min.x as int) as i32,
                y: min_int(self.min.y as int, other.min.y as int) as i32,
            },
            max: Point {
                x: max_int(self.max.x as int, other.max.x as int) as i32,
                y: max_int(self.max.y as int, other.max.y as int) as i32,
            },
        }
    }

    /// Order the two corners per axis, and reject a pair that spans no width or no height.
    pub fn new(unvalidated: UnvalidatedBoundingBox) -> (r: Result<Self, GeometryError>)
        ensures
            r is Ok <==> unvalidated.min.x != unvalidated.max.x && unvalidated.min.y
                != unvalidated.max.y,
            r matches Ok(b) ==> {
                &&& b.min().x == min_int(unvalidated.min.x as int, unvalidated.max.x as int)
                &&& b.min().y == min_int(unvalidated.min.y as int, unvalidated.max.y as int)
                &&& b.max().x == max_int(unvalidated.min.x as int, unvalidated.max.x as int)
                &&& b.max().y == max_int(unvalidated.min.y as int, unvalidated.max.y as int)
            },
            r matches Err(e) ==> e == GeometryError::InvalidGeometry,
    {
        if unvalidated.min.x == unvalidated.max.x || unvalidated.min.y == unvalidated.max.y {
            return Err(GeometryError::InvalidGeometry);
        }
        let (min_x, max_x) = if unvalidated.max.x < unvalidated.min.x {
            (unvalidated.max.x, unvalidated.min.x)
        } else {
            (unvalidated.min.x, unvalidated.max.x)
        };
        let (min_y, max_y) = if unvalidated.max.y < unvalidated.min.y {
            (unvalidated.max.y, unvalidated.min.y)
        } else {
            (unvalidated.min.y, unvalidated.max.y)
        };
        Ok(BoundingBox { min: Point { x: min_x, y: min_y }, max: Point { x: max_x, y: max_y } })
    }

    /// Grow `self` to the smallest box that also contains `bbox`.
    pub fn union(&mut self, bbox: &Self)
        ensures
            *final(self) == old(self).union_of(*bbox),
            final(self).min().x == min_int(old(self).min().x as int, bbox.min().x as int),
            final(self).min().y == min_int(old(self).min().y as int, bbox.min().y as int),
            final(self).max().x == max_int(old(self).max().x as int, bbox.max().x as int),
            final(self).max().y == max_int(old(self).max().y as int, bbox.max().y as int),
    {
        proof {
            use_type_invariant(&*self);
            use_type_invariant(bbox);
        }
        if bbox.min.x < self.min.x {
            self.min.x = bbox.min.x;
        }
        if bbox.min.y < self.min.y {
            self.min.y = bbox.min.y;
        }
        if bbox.max.x > self.max.x {
            self.max.x = bbox.max.x;
        }
        if bbox.max.y > self.max.y {
            self.max.y = bbox.max.y;
        }
    }

    /// Whether both corners stay inside the 32-bit coordinate space when moved by `p`.
    pub open spec fn can_shift(&self, p: &Point) -> bool {
        self.min().can_shift(p) && self.max().can_shift(p)
    }

    /// The box moved by `p`.
    #[must_use]
    pub fn shift(&self, p: &Point) -> (r: Self)
        requires
            self.can_shift(p),
        ensures
            r.min().x == self.min().x + p.x,
            r.min().y == self.min().y + p.y,
            r.max().x == self.max().x + p.x,
            r.max().y == self.max().y + p.y,
    {
        proof {
            use_type_invariant(self);
        }
        Self { min: self.min.shift(p), max: self.max.shift(p) }
    }

    /// Lower-left corner.
    #[verifier::when_used_as_spec(spec_min)]
    pub fn min(&self) -> (p: Point)
        ensures
            p == self.min(),
    {
        self.min
    }

    /// Upper-right corner.
    #[verifier::when_used_as_spec(spec_max)]
    pub fn max(&self) -> (p: Point)
        ensures
            p == self.max(),
    {
        self.max
    }
}

/// The corners of a union are the component-wise extremes of the operands' corners.
pub proof fn lemma_union_corners(a: BoundingBox, b: BoundingBox)
    ensures
        a.union_of(b).min().x == min_int(a.min().x as int, b.min().x as int),
        a.union_of(b).min().y == min_int(a.min().y as int, b.min().y as int),
        a.union_of(b).max().x == max_int(a.max().x as int, b.max().x as int),
        a.union_of(b).max().y == max_int(a.max().y as int, b.max().y as int),
{
}

/// The union of two boxes does not depend on the order of the operands.
pub proof fn lemma_union_commutative(a: BoundingBox, b: BoundingBox)
    ensures
        a.union_of(b) == b.union_of(a),
{
}

/// Folding three boxes gives the same box however the unions are grouped.
pub proof fn lemma_union_associative(a: BoundingBox, b: BoundingBox, c: BoundingBox)
    ensures
        a.union_of(b).union_of(c) == a.union_of(b.union_of(c)),
{
}

/// A well-formed box is strictly wider and taller than a point.
pub proof fn lemma_positive_extent(a: BoundingBox)
    requires
        a.well_formed(),
    ensures
        a.min().x < a.max().x,
        a.min().y < a.max().y,
{
}

/// `lowest` is a lower bound of the sequence, and one of its elements.
pub proof fn lemma_lowest(s: Seq<int>)
    requires
        s.len() > 0,
    ensures
        forall|i: int| 0 <= i < s.len() ==> lowest(s) <= #[trigger] s[i],
        exists|i: int| 0 <= i < s.len() && #[trigger] s[i] == lowest(s),
    decreases s.len(),
{
    if s.len() > 1 {
        let t = s.drop_last();
        lemma_lowest(t);
        let w = choose|i: int| 0 <= i < t.len() && #[trigger] t[i] == lowest(t);
        assert forall|i: int| 0 <= i < s.len() implies lowest(s) <= #[trigger] s[i] by {
            if i < t.len() {
                assert(s[i] == t[i]);
            }
        }
        if lowest(s) == s.last() {
            assert(s[s.len() - 1] == lowest(s));
        } else {
            assert(s[w] == t[w]);
        }
    } else {
        assert(s[0] == lowest(s));
    }
}

/// `highest` is an upper bound of the sequence, and one of its elements.
pub proof fn lemma_highest(s: Seq<int>)
    requires
        s.len() > 0,
    ensures
        forall|i: int| 0 <= i < s.len() ==> highest(s) >= #[trigger] s[i],
        exists|i: int| 0 <= i < s.len() && #[trigger] s[i] == highest(s),
    decreases s.len(),
{
    if s.len() > 1 {
        let t = s.drop_last();
        lemma_highest(t);
        let w = choose|i: int| 0 <= i < t.len() && #[trigger] t[i] == highest(t);
        assert forall|i: int| 0 <= i < s.len() implies highest(s) >= #[trigger] s[i] by {
            if i < t.len() {
                assert(s[i] == t[i]);
            }
        }
        if highest(s) == s.last() {
            assert(s[s.len() - 1] == highest(s));
        } else {
            assert(s[w] == t[w]);
        }
    } else {
        assert(s[0] == highest(s));
    }
}

/// Extending a prefix by one element extends its extremes by that element.
pub proof fn lemma_extremes_step(s: Seq<int>, i: int)
    requires
        0 < i < s.len(),
    ensures
        lowest(s.take(i + 1)) == min_int(lowest(s.take(i)), s[i]),
        highest(s.take(i + 1)) == max_int(highest(s.take(i)), s[i]),
{
    assert(s.take(i + 1).drop_last() =~= s.take(i));
}

} // verus!
