//! The polar comparator: points in the order of their polar angle around the
//! centre, largest angle first.

use std::cmp::Ordering;
use vstd::prelude::*;
use crate::arith::lemma_mul_commutes;
use crate::arith::lemma_mul_difference;
use crate::arith::lemma_mul_four;
use crate::arith::lemma_mul_sign;
use crate::point::Coords;
use crate::point::Point;
use crate::vector::cross;
use crate::vector::lemma_cross_cycle;
use crate::vector::lemma_cross_flips;
use crate::vector::lemma_offset_of_other_models;
use crate::vector::lemma_pair_signs;
use crate::vector::offset;
use crate::vector::Offset;
use crate::vector::stretched;
use crate::vector::Vector;
use crate::wide::compare_products;

verus! {

/// The part of the range `(-pi, pi]` in which the polar angle of `v` lies:
/// `0` for the open interval below zero, `1` for the angle zero, `2` for the
/// open interval above zero, `3` for the angle `pi`.
///
/// The angle of `v` is the two-argument arctangent of `v.y` and `v.x`, with
/// the zero vector at the angle zero.
pub open spec fn band(v: Vector) -> int {
    if v.y < 0 {
        0
    } else if v.y > 0 {
        2
    } else if v.x >= 0 {
        1
    } else {
        3
    }
}

/// The polar angle of `u` is strictly larger than that of `v`.
///
/// Two angles of one open band differ by less than a half turn, so the sign
/// of the cross product tells which is larger.
pub open spec fn angle_above(u: Vector, v: Vector) -> bool {
    band(u) > band(v) || (band(u) == band(v) && cross(v, u) > 0)
}

/// The order of `a` and `b` by polar angle around `center`, largest first.
pub open spec fn polar_order(center: Coords, a: Coords, b: Coords) -> Ordering {
    let u = a.offset_from(center);
    let v = b.offset_from(center);
    if angle_above(u, v) {
        Ordering::Less
    } else if angle_above(v, u) {
        Ordering::Greater
    } else {
        Ordering::Equal
    }
}

/// Two vectors have the same polar angle.
pub open spec fn same_angle(u: Vector, v: Vector) -> bool {
    band(u) == band(v) && cross(u, v) == 0
}

/// Of two vectors, at most one has the larger polar angle, and neither has
/// exactly when the two angles are the same.
pub proof fn lemma_angles_compare(u: Vector, v: Vector)
    ensures
        !(angle_above(u, v) && angle_above(v, u)),
        !angle_above(u, v) && !angle_above(v, u) <==> same_angle(u, v),
{
    lemma_cross_flips(u, v);
    lemma_pair_signs(u, v);
}

/// "Has a larger polar angle than" is transitive.
pub proof fn lemma_angle_above_is_transitive(u: Vector, v: Vector, w: Vector)
    requires
        angle_above(u, v),
        angle_above(v, w),
    ensures
        angle_above(u, w),
{
    // In one open band the second components have one sign, and
    // v.y * cross(w, u) == u.y * cross(w, v) + w.y * cross(v, u).
    lemma_cross_cycle(v, w, u);
    lemma_cross_flips(v, u);
    lemma_cross_flips(v, w);
    lemma_mul_sign(v.y, cross(w, u));
    lemma_mul_sign(w.y, cross(v, u));
    lemma_mul_sign(u.y, cross(v, w));
    lemma_pair_signs(u, v);
    lemma_pair_signs(v, w);
    lemma_pair_signs(u, w);
}

/// "Has the same polar angle as" is transitive.
pub proof fn lemma_same_angle_is_transitive(u: Vector, v: Vector, w: Vector)
    requires
        same_angle(u, v),
        same_angle(v, w),
    ensures
        same_angle(u, w),
{
    lemma_cross_cycle(v, w, u);
    lemma_cross_flips(v, u);
    lemma_cross_flips(v, w);
    lemma_cross_flips(u, w);
    lemma_mul_sign(v.y, cross(w, u));
    lemma_mul_sign(w.y, cross(v, u));
    lemma_mul_sign(u.y, cross(v, w));
    lemma_pair_signs(u, v);
    lemma_pair_signs(v, w);
    lemma_pair_signs(u, w);
}

/// Swapping the two points reverses the order by polar angle.
pub proof fn lemma_polar_order_reverses(center: Coords, a: Coords, b: Coords)
    ensures
        polar_order(center, a, b) == Ordering::Less <==> polar_order(center, b, a)
            == Ordering::Greater,
        polar_order(center, a, b) == Ordering::Equal <==> polar_order(center, b, a)
            == Ordering::Equal,
        polar_order(center, a, b) == Ordering::Greater <==> polar_order(center, b, a)
            == Ordering::Less,
{
    lemma_angles_compare(a.offset_from(center), b.offset_from(center));
}

/// The order by polar angle is transitive: a point before a point that is
/// before or level with a third is before the third, and so on.
pub proof fn lemma_polar_order_is_transitive(center: Coords, a: Coords, b: Coords, c: Coords)
    ensures
        polar_order(center, a, b) != Ordering::Greater && polar_order(center, b, c)
            != Ordering::Greater ==> polar_order(center, a, c) != Ordering::Greater,
        polar_order(center, a, b) == Ordering::Equal && polar_order(center, b, c)
            == Ordering::Equal ==> polar_order(center, a, c) == Ordering::Equal,
        polar_order(center, a, b) == Ordering::Less && polar_order(center, b, c)
            != Ordering::Greater ==> polar_order(center, a, c) == Ordering::Less,
        polar_order(center, a, b) != Ordering::Greater && polar_order(center, b, c)
            == Ordering::Less ==> polar_order(center, a, c) == Ordering::Less,
{
    let u = a.offset_from(center);
    let v = b.offset_from(center);
    let w = c.offset_from(center);
    lemma_angles_compare(u, v);
    lemma_angles_compare(v, w);
    lemma_angles_compare(u, w);
    if angle_above(u, v) && angle_above(v, w) {
        lemma_angle_above_is_transitive(u, v, w);
    }
    if same_angle(u, v) && same_angle(v, w) {
        lemma_same_angle_is_transitive(u, v, w);
    }
    if angle_above(u, v) && same_angle(v, w) {
        lemma_angle_moves_along_ties(u, v, w);
    }
    if same_angle(u, v) && angle_above(v, w) {
        lemma_angle_moves_along_ties(w, v, u);
    }
}

/// A vector of the same polar angle may take the place of another in a
/// comparison.
pub proof fn lemma_angle_moves_along_ties(u: Vector, v: Vector, w: Vector)
    requires
        same_angle(v, w),
    ensures
        angle_above(u, v) == angle_above(u, w),
        angle_above(v, u) == angle_above(w, u),
{
    lemma_cross_cycle(v, w, u);
    lemma_cross_cycle(u, v, w);
    lemma_cross_cycle(w, u, v);
    lemma_cross_flips(v, u);
    lemma_cross_flips(v, w);
    lemma_cross_flips(u, w);
    lemma_mul_sign(v.y, cross(w, u));
    lemma_mul_sign(w.y, cross(v, u));
    lemma_mul_sign(u.y, cross(v, w));
    lemma_mul_sign(u.y, cross(w, v));
    lemma_mul_sign(v.y, cross(u, w));
    lemma_mul_sign(w.y, cross(u, v));
    lemma_pair_signs(u, v);
    lemma_pair_signs(v, w);
    lemma_pair_signs(u, w);
}

/// Vectors of one direction have one polar angle: if `u2` stretched by `l`
/// is `u` stretched by `m`, then `u2` may take the place of `u`.
pub proof fn lemma_angle_of_multiple(u: Vector, u2: Vector, l: int, m: int)
    requires
        l >= 1,
        m >= 1,
        stretched(l, u2) == stretched(m, u),
    ensures
        same_angle(u, u2),
{
    lemma_mul_sign(l, u2.x);
    lemma_mul_sign(l, u2.y);
    lemma_mul_sign(m, u.x);
    lemma_mul_sign(m, u.y);
    // (l * m) * cross(u, u2) == cross(m * u, l * u2) == 0
    lemma_mul_four(m, u.x, l, u2.y);
    lemma_mul_four(l, u2.x, m, u.y);
    lemma_mul_commutes(l, m);
    lemma_mul_difference(m * l, u.x * u2.y, u2.x * u.y);
    lemma_mul_sign(m, l);
    lemma_mul_sign(m * l, cross(u, u2));
}

/// The order by polar angle depends on the points and the centre, not on
/// the weights they are held with.
pub proof fn lemma_polar_order_of_other_models(
    center: Coords,
    center2: Coords,
    a: Coords,
    a2: Coords,
    b: Coords,
    b2: Coords,
)
    requires
        center.valid(),
        center2.valid(),
        a.valid(),
        a2.valid(),
        b.valid(),
        b2.valid(),
        center.same_point(center2),
        a.same_point(a2),
        b.same_point(b2),
    ensures
        polar_order(center2, a2, b2) == polar_order(center, a, b),
{
    let u = a.offset_from(center);
    let v = b.offset_from(center);
    let u2 = a2.offset_from(center2);
    let v2 = b2.offset_from(center2);
    lemma_offset_of_other_models(center, center2, a, a2);
    lemma_offset_of_other_models(center, center2, b, b2);
    lemma_mul_sign(a.w, center.w);
    lemma_mul_sign(a2.w, center2.w);
    lemma_mul_sign(b.w, center.w);
    lemma_mul_sign(b2.w, center2.w);
    lemma_angle_of_multiple(u, u2, a.w * center.w, a2.w * center2.w);
    lemma_angle_of_multiple(v, v2, b.w * center.w, b2.w * center2.w);
    lemma_angle_moves_along_ties(u, v, v2);
    lemma_angle_moves_along_ties(v2, u, u2);
}

/// The band of a 128-bit vector.
fn band_of(v: Offset) -> (r: u8)
    ensures
        r == band(v@),
{
    if v.dy < 0 {
        0
    } else if v.dy > 0 {
        2
    } else if v.dx >= 0 {
        1
    } else {
        3
    }
}

/// Orders `a` and `b` by their polar angle around `center`, the angle taken
/// in `(-pi, pi]` and the larger angle first: `Less` when `a` has the larger
/// angle, `Greater` when `b` has, `Equal` when the angles are the same.
///
/// A point that coincides with the centre has the angle zero.  Points on one
/// ray from the centre are `Equal` whatever their distances.
pub fn sort_by_atan2(center: &Point, a: &Point, b: &Point) -> (r: Ordering)
    ensures
        r == polar_order(center@, a@, b@),
        r == Ordering::Equal <==> same_angle(a@.offset_from(center@), b@.offset_from(center@)),
{
    let u = offset(center, a);
    let v = offset(center, b);
    proof {
        lemma_angles_compare(u@, v@);
    }
    let band_a = band_of(u);
    let band_b = band_of(v);
    if band_a > band_b {
        return Ordering::Less;
    }
    if band_a < band_b {
        return Ordering::Greater;
    }
    let turn = compare_products(v.dx, u.dy, u.dx, v.dy);
    if turn > 0 {
        Ordering::Less
    } else if turn < 0 {
        Ordering::Greater
    } else {
        Ordering::Equal
    }
}

} // verus!
