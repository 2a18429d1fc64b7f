//! The point type and its mathematical model.

use vstd::prelude::*;
use crate::arith::mul_i64;

verus! {

/// The mathematical model of a point: the pair of rationals `(x / w, y / w)`.
///
/// A model is meaningful only when its weight `w` is positive (see
/// [`Coords::valid`]).
pub struct Coords {
    pub x: int,
    pub y: int,
    pub w: int,
}

impl Coords {
    /// The weight is positive, so the model stands for a point.
    pub open spec fn valid(self) -> bool {
        self.w >= 1
    }

    /// Some [`Point`] has this model: the three numbers fit in 64 bits.
    pub open spec fn representable(self) -> bool {
        &&& self.valid()
        &&& i64::MIN <= self.x <= i64::MAX
        &&& i64::MIN <= self.y <= i64::MAX
        &&& self.w <= i64::MAX
    }

    /// Both models stand for the same point of the plane.
    pub open spec fn same_point(self, other: Coords) -> bool {
        self.x * other.w == other.x * self.w && self.y * other.w == other.y * self.w
    }
}

/// "Is the same point as" is an equivalence of valid models.
pub proof fn lemma_same_point_is_equivalence(a: Coords, b: Coords, c: Coords)
    requires
        a.valid(),
        b.valid(),
        c.valid(),
    ensures
        a.same_point(a),
        a.same_point(b) ==> b.same_point(a),
        a.same_point(b) && b.same_point(c) ==> a.same_point(c),
{
    if a.same_point(b) && b.same_point(c) {
        assert(a.x * c.w == c.x * a.w) by (nonlinear_arith)
            requires
                a.x * b.w == b.x * a.w,
                b.x * c.w == c.x * b.w,
                a.w >= 1,
                b.w >= 1,
                c.w >= 1,
        ;
        assert(a.y * c.w == c.y * a.w) by (nonlinear_arith)
            requires
                a.y * b.w == b.y * a.w,
                b.y * c.w == c.y * b.w,
                a.w >= 1,
                b.w >= 1,
                c.w >= 1,
        ;
    }
}

/// A point of the plane with rational coordinates `(x / w, y / w)`, held as
/// three 64-bit integers with `w >= 1`.
#[derive(Clone, Copy, Debug)]
pub struct Point {
    x: i64,
    y: i64,
    w: i64,
}

impl View for Point {
    type V = Coords;

    /// The model of a point.  Every point holds a positive weight; to make
    /// the model valid for every value that a proof may speak of, a weight
    /// that is not positive counts as one.
    closed spec fn view(&self) -> Coords {
        Coords {
            x: self.x as int,
            y: self.y as int,
            w: if self.w >= 1 {
                self.w as int
            } else {
                1
            },
        }
    }
}

impl Point {
    #[verifier::type_invariant]
    spec fn positive_weight(self) -> bool {
        self.w >= 1
    }

    /// The model of every point is valid and fits in 64 bits.
    pub proof fn lemma_representable(self)
        ensures
            self@.representable(),
    {
    }

    /// The point with the integer coordinates `(x, y)`.
    pub fn new(x: i64, y: i64) -> (p: Point)
        ensures
            p@ == (Coords { x: x as int, y: y as int, w: 1 }),
    {
        Point { x, y, w: 1 }
    }

    /// The point `(x / w, y / w)`, if `w` is positive.
    pub fn rational(x: i64, y: i64, w: i64) -> (r: Option<Point>)
        ensures
            w >= 1 ==> r.is_some() && r.unwrap()@ == (Coords {
                x: x as int,
                y: y as int,
                w: w as int,
            }),
            w < 1 ==> r.is_none(),
    {
        if w >= 1 {
            Some(Point { x, y, w })
        } else {
            None
        }
    }

    /// The numerator of the first coordinate.
    pub fn x(&self) -> (r: i64)
        ensures
            r == self@.x,
    {
        self.x
    }

    /// The numerator of the second coordinate.
    pub fn y(&self) -> (r: i64)
        ensures
            r == self@.y,
    {
        self.y
    }

    /// The denominator shared by both coordinates.
    pub fn w(&self) -> (r: i64)
        ensures
            r == self@.w,
            r >= 1,
    {
        proof {
            use_type_invariant(self);
        }
        self.w
    }
}

/// The models of a sequence of points.
pub open spec fn models(points: Seq<Point>) -> Seq<Coords> {
    points.map_values(|p: Point| p@)
}

impl PartialEq for Point {
    /// Two points are equal when they are the same point of the plane,
    /// whatever the weights they are held with.
    fn eq(&self, other: &Point) -> (r: bool) {
        proof {
            use_type_invariant(self);
            use_type_invariant(other);
        }
        mul_i64(self.x, other.w) == mul_i64(other.x, self.w) && mul_i64(self.y, other.w)
            == mul_i64(other.y, self.w)
    }
}

impl vstd::std_specs::cmp::PartialEqSpecImpl for Point {
    open spec fn obeys_eq_spec() -> bool {
        true
    }

    open spec fn eq_spec(&self, other: &Point) -> bool {
        self@.same_point(other@)
    }
}

} // verus!
