//! Plane vectors with integer components, and the offset of a point from a
//! centre.

use vstd::prelude::*;
use crate::arith::lemma_mul_commutes;
use crate::arith::lemma_mul_difference;
use crate::arith::lemma_mul_expand;
use crate::arith::lemma_mul_four;
use crate::arith::lemma_mul_sign;
use crate::arith::lemma_mul_triple;
use crate::arith::scale_i64;
use crate::point::Coords;
use crate::point::Point;

verus! {

/// A vector of the plane with integer components.
pub struct Vector {
    pub x: int,
    pub y: int,
}

/// The cross product `u x v`: positive when `v` lies counter-clockwise of
/// `u`, negative when it lies clockwise, zero when the two are parallel.
pub open spec fn cross(u: Vector, v: Vector) -> int {
    u.x * v.y - v.x * u.y
}

/// The dot product of `u` and `v`.
pub open spec fn dot(u: Vector, v: Vector) -> int {
    u.x * v.x + u.y * v.y
}

/// The squared length of `u`.
pub open spec fn norm2(u: Vector) -> int {
    u.x * u.x + u.y * u.y
}

impl Coords {
    /// The vector from `center` to this point, scaled by the product of the
    /// two weights.  The scale is positive for valid models, so the vector
    /// has the direction of the true offset, and its components have the
    /// signs of `x - center.x` and `y - center.y`.
    pub open spec fn offset_from(self, center: Coords) -> Vector {
        Vector {
            x: self.x * center.w - center.x * self.w,
            y: self.y * center.w - center.y * self.w,
        }
    }
}

/// Swapping the arguments of the cross product flips its sign.
pub proof fn lemma_cross_flips(u: Vector, v: Vector)
    ensures
        cross(v, u) == -cross(u, v),
{
    assert(v.x * u.y - u.x * v.y == -(u.x * v.y - v.x * u.y)) by (nonlinear_arith);
}

/// Scaled by the other point's weight, the offsets of two points from one
/// centre differ by the centre's weight times the difference of the points.
/// So the scaled offsets are equal exactly when the points are the same.
pub proof fn lemma_offsets_of_same_point(center: Coords, a: Coords, b: Coords)
    requires
        center.valid(),
    ensures
        a.offset_from(center).x * b.w - b.offset_from(center).x * a.w == center.w * (a.x * b.w
            - b.x * a.w),
        a.offset_from(center).y * b.w - b.offset_from(center).y * a.w == center.w * (a.y * b.w
            - b.y * a.w),
        a.same_point(b) <==> a.offset_from(center).x * b.w == b.offset_from(center).x * a.w
            && a.offset_from(center).y * b.w == b.offset_from(center).y * a.w,
{
    let cw = center.w;
    let dx = a.x * b.w - b.x * a.w;
    let dy = a.y * b.w - b.y * a.w;
    assert((a.x * cw - center.x * a.w) * b.w - (b.x * cw - center.x * b.w) * a.w == cw * dx)
        by (nonlinear_arith)
        requires
            dx == a.x * b.w - b.x * a.w,
    ;
    assert((a.y * cw - center.y * a.w) * b.w - (b.y * cw - center.y * b.w) * a.w == cw * dy)
        by (nonlinear_arith)
        requires
            dy == a.y * b.w - b.y * a.w,
    ;
    assert((cw * dx == 0 <==> dx == 0) && (cw * dy == 0 <==> dy == 0)) by (nonlinear_arith)
        requires
            cw >= 1,
    ;
}

/// The three cross products of three vectors, each weighted by a component
/// of the vector it leaves out, cancel.
pub proof fn lemma_cross_cycle(t: Vector, u: Vector, v: Vector)
    ensures
        t.y * cross(u, v) == u.y * cross(t, v) - v.y * cross(t, u),
        t.x * cross(u, v) == u.x * cross(t, v) - v.x * cross(t, u),
{
    lemma_mul_difference(t.y, u.x * v.y, v.x * u.y);
    lemma_mul_difference(u.y, t.x * v.y, v.x * t.y);
    lemma_mul_difference(v.y, t.x * u.y, u.x * t.y);
    lemma_mul_triple(t.y, u.x, v.y);
    lemma_mul_triple(t.y, v.x, u.y);
    lemma_mul_triple(u.y, t.x, v.y);
    lemma_mul_difference(t.x, u.x * v.y, v.x * u.y);
    lemma_mul_difference(u.x, t.x * v.y, v.x * t.y);
    lemma_mul_difference(v.x, t.x * u.y, u.x * t.y);
    lemma_mul_triple(t.x, u.x, v.y);
    lemma_mul_triple(t.x, v.x, u.y);
    lemma_mul_triple(u.x, v.x, t.y);
}

/// A vector written in the frame of `t`: along `t` it measures
/// `dot(t, u)`, across it `cross(t, u)`.
pub proof fn lemma_frame(t: Vector, u: Vector)
    ensures
        norm2(t) * u.x == t.x * dot(t, u) - t.y * cross(t, u),
        norm2(t) * u.y == t.y * dot(t, u) + t.x * cross(t, u),
{
    lemma_mul_difference(t.x, t.x * u.x, t.y * u.y);
    lemma_mul_difference(t.y, t.x * u.y, u.x * t.y);
    lemma_mul_difference(t.y, t.x * u.x, t.y * u.y);
    lemma_mul_difference(t.x, t.x * u.y, u.x * t.y);
    lemma_mul_triple(t.x, t.y, u.y);
    lemma_mul_triple(t.y, t.x, u.x);
    lemma_mul_triple(t.y, u.x, t.y);
    lemma_mul_triple(t.x, u.x, t.y);
    lemma_mul_triple(t.x, t.x, u.x);
    lemma_mul_triple(t.x, t.x, u.y);
    lemma_mul_triple(t.y, t.y, u.x);
    lemma_mul_triple(t.y, t.y, u.y);
    assert(norm2(t) * u.x == (t.x * t.x) * u.x + (t.y * t.y) * u.x) by (nonlinear_arith)
        requires
            norm2(t) == t.x * t.x + t.y * t.y,
    ;
    assert(norm2(t) * u.y == (t.x * t.x) * u.y + (t.y * t.y) * u.y) by (nonlinear_arith)
        requires
            norm2(t) == t.x * t.x + t.y * t.y,
    ;
    assert((t.x * t.x) * u.x == t.x * (t.x * u.x) && (t.y * t.y) * u.x == t.y * (t.y * u.x) && (t.x
        * t.x) * u.y == t.x * (t.x * u.y) && (t.y * t.y) * u.y == t.y * (t.y * u.y))
        by (nonlinear_arith);
}

/// The vector `z * u`, both read as complex numbers: `u` turned by the
/// angle of `z` and stretched by its length.
pub open spec fn turned(z: Vector, u: Vector) -> Vector {
    Vector { x: z.x * u.x - z.y * u.y, y: z.y * u.x + z.x * u.y }
}

/// The vector `u` stretched by `k`.
pub open spec fn stretched(k: int, u: Vector) -> Vector {
    Vector { x: k * u.x, y: k * u.y }
}

/// Turning two vectors by `z` multiplies their cross product and their dot
/// product by the squared length of `z`.
pub proof fn lemma_turned_products(z: Vector, a: Vector, b: Vector)
    ensures
        cross(turned(z, a), turned(z, b)) == norm2(z) * cross(a, b),
        dot(turned(z, a), turned(z, b)) == norm2(z) * dot(a, b),
{
    let pa = z.x * a.x;
    let qa = z.y * a.y;
    let ra = z.y * a.x;
    let sa = z.x * a.y;
    let pb = z.x * b.x;
    let qb = z.y * b.y;
    let rb = z.y * b.x;
    let sb = z.x * b.y;
    // The cross product is (pa - qa) * (rb + sb) - (pb - qb) * (ra + sa).
    lemma_mul_expand(pa, qa, rb, sb);
    lemma_mul_expand(pb, qb, ra, sa);
    // The dot product is (pa - qa) * (pb - qb) + (ra + sa) * (rb + sb).
    lemma_mul_expand(pa, qa, pb, qb);
    lemma_mul_expand(ra, sa, rb, sb);
    // The terms that mix the two components of z cancel.
    lemma_mul_four(z.x, a.x, z.y, b.x);
    assert(pa * rb == pb * ra);
    lemma_mul_four(z.y, a.y, z.x, b.y);
    assert(qa * sb == qb * sa);
    lemma_mul_four(z.x, a.x, z.y, b.y);
    assert(pa * qb == ra * sb);
    lemma_mul_four(z.y, a.y, z.x, b.x);
    assert(qa * pb == sa * rb);
    // The others hold a square of a component of z.
    lemma_mul_four(z.x, a.x, z.x, b.y);
    assert(pa * sb == (z.x * z.x) * (a.x * b.y));
    lemma_mul_four(z.x, b.x, z.x, a.y);
    assert(pb * sa == (z.x * z.x) * (b.x * a.y));
    lemma_mul_four(z.y, a.y, z.y, b.x);
    assert(qa * rb == (z.y * z.y) * (a.y * b.x));
    lemma_mul_four(z.y, b.y, z.y, a.x);
    assert(qb * ra == (z.y * z.y) * (b.y * a.x));
    lemma_mul_four(z.x, a.x, z.x, b.x);
    assert(pa * pb == (z.x * z.x) * (a.x * b.x));
    lemma_mul_four(z.y, a.y, z.y, b.y);
    assert(qa * qb == (z.y * z.y) * (a.y * b.y));
    lemma_mul_four(z.y, a.x, z.y, b.x);
    assert(ra * rb == (z.y * z.y) * (a.x * b.x));
    lemma_mul_four(z.x, a.y, z.x, b.y);
    assert(sa * sb == (z.x * z.x) * (a.y * b.y));
    let xx = z.x * z.x;
    let yy = z.y * z.y;
    lemma_mul_commutes(a.y, b.x);
    lemma_mul_commutes(b.y, a.x);
    assert((xx + yy) * (a.x * b.y - b.x * a.y) == xx * (a.x * b.y) - xx * (b.x * a.y) + yy * (a.x
        * b.y) - yy * (b.x * a.y)) by (nonlinear_arith);
    assert((xx + yy) * (a.x * b.x + a.y * b.y) == xx * (a.x * b.x) + xx * (a.y * b.y) + yy * (a.x
        * b.x) + yy * (a.y * b.y)) by (nonlinear_arith);
}

/// The signs of the products that tie the components of two vectors to
/// their cross and dot products.
pub proof fn lemma_pair_signs(t: Vector, u: Vector)
    ensures
        t.x > 0 && u.y > 0 || t.x < 0 && u.y < 0 ==> t.x * u.y > 0,
        t.x > 0 && u.y < 0 || t.x < 0 && u.y > 0 ==> t.x * u.y < 0,
        t.x == 0 || u.y == 0 ==> t.x * u.y == 0,
        u.x > 0 && t.y > 0 || u.x < 0 && t.y < 0 ==> u.x * t.y > 0,
        u.x > 0 && t.y < 0 || u.x < 0 && t.y > 0 ==> u.x * t.y < 0,
        u.x == 0 || t.y == 0 ==> u.x * t.y == 0,
        t.x > 0 && u.x > 0 || t.x < 0 && u.x < 0 ==> t.x * u.x > 0,
        t.x > 0 && u.x < 0 || t.x < 0 && u.x > 0 ==> t.x * u.x < 0,
        t.x == 0 || u.x == 0 ==> t.x * u.x == 0,
        t.y > 0 && u.y > 0 || t.y < 0 && u.y < 0 ==> t.y * u.y > 0,
        t.y > 0 && u.y < 0 || t.y < 0 && u.y > 0 ==> t.y * u.y < 0,
        t.y == 0 || u.y == 0 ==> t.y * u.y == 0,
{
    lemma_mul_sign(t.x, u.y);
    lemma_mul_sign(u.x, t.y);
    lemma_mul_sign(t.x, u.x);
    lemma_mul_sign(t.y, u.y);
}

/// The squared length of a stretched vector.
pub proof fn lemma_scaled_norm(u: Vector, k: int)
    ensures
        norm2(stretched(k, u)) == norm2(u) * (k * k),
{
    lemma_mul_four(k, u.x, k, u.x);
    lemma_mul_four(k, u.y, k, u.y);
    assert((u.x * u.x + u.y * u.y) * (k * k) == (k * k) * (u.x * u.x) + (k * k) * (u.y * u.y))
        by (nonlinear_arith);
}

/// Stretching two vectors multiplies their cross product by both factors.
pub proof fn lemma_cross_of_stretched(k: int, a: Vector, j: int, b: Vector)
    ensures
        cross(stretched(k, a), stretched(j, b)) == (k * j) * cross(a, b),
{
    lemma_mul_four(k, a.x, j, b.y);
    lemma_mul_four(j, b.x, k, a.y);
    lemma_mul_commutes(j, k);
    lemma_mul_commutes(b.x, a.y);
    lemma_mul_difference(k * j, a.x * b.y, b.x * a.y);
    assert((j * b.x) * (k * a.y) == (k * j) * (b.x * a.y)) by (nonlinear_arith);
}

/// A point other than the centre has a non-zero offset from it.
pub proof fn lemma_nonzero_offset(center: Coords, p: Coords)
    requires
        center.valid(),
        p.valid(),
        !p.same_point(center),
    ensures
        p.offset_from(center).x != 0 || p.offset_from(center).y != 0,
{
}

/// Other models of the same point and of the same centre give an offset
/// in the same direction: the two offsets agree once each is stretched by
/// the weights of the other pair.
pub proof fn lemma_offset_of_other_models(center: Coords, center2: Coords, a: Coords, a2: Coords)
    requires
        center.same_point(center2),
        a.same_point(a2),
    ensures
        stretched(a.w * center.w, a2.offset_from(center2)) == stretched(
            a2.w * center2.w,
            a.offset_from(center),
        ),
{
    lemma_offset_component(center.x, center.w, center2.x, center2.w, a.x, a.w, a2.x, a2.w);
    lemma_offset_component(center.y, center.w, center2.y, center2.w, a.y, a.w, a2.y, a2.w);
}

/// One component of [`lemma_offset_of_other_models`].
proof fn lemma_offset_component(
    c: int,
    cw: int,
    c2: int,
    cw2: int,
    a: int,
    aw: int,
    a2: int,
    aw2: int,
)
    requires
        c * cw2 == c2 * cw,
        a * aw2 == a2 * aw,
    ensures
        (aw * cw) * (a2 * cw2 - c2 * aw2) == (aw2 * cw2) * (a * cw - c * aw),
{
    lemma_mul_difference(aw * cw, a2 * cw2, c2 * aw2);
    lemma_mul_difference(aw2 * cw2, a * cw, c * aw);
    // (aw * cw) * (a2 * cw2) == (a2 * aw) * (cw * cw2) == (a * aw2) * (cw * cw2)
    //     == (aw2 * cw2) * (a * cw)
    assert((aw * cw) * (a2 * cw2) == (a2 * aw) * (cw * cw2)) by (nonlinear_arith);
    assert((aw2 * cw2) * (a * cw) == (a * aw2) * (cw * cw2)) by (nonlinear_arith);
    // (aw * cw) * (c2 * aw2) == (c2 * cw) * (aw * aw2) == (c * cw2) * (aw * aw2)
    //     == (aw2 * cw2) * (c * aw)
    assert((aw * cw) * (c2 * aw2) == (c2 * cw) * (aw * aw2)) by (nonlinear_arith);
    assert((aw2 * cw2) * (c * aw) == (c * cw2) * (aw * aw2)) by (nonlinear_arith);
}

/// A vector whose components fit in 128 bits.
#[derive(Clone, Copy)]
pub struct Offset {
    pub dx: i128,
    pub dy: i128,
}

impl View for Offset {
    type V = Vector;

    open spec fn view(&self) -> Vector {
        Vector { x: self.dx as int, y: self.dy as int }
    }
}

/// The scaled offset of `p` from `center`.
pub fn offset(center: &Point, p: &Point) -> (r: Offset)
    ensures
        r@ == p@.offset_from(center@),
{
    let cw: i64 = center.w();
    let pw: i64 = p.w();
    let dx: i128 = scale_i64(p.x(), cw) - scale_i64(center.x(), pw);
    let dy: i128 = scale_i64(p.y(), cw) - scale_i64(center.y(), pw);
    Offset { dx, dy }
}

} // verus!
