//! The quadrant comparator: a clockwise sweep that starts straight above the
//! centre, decided by signs and one cross product.

use std::cmp::Ordering;
use vstd::prelude::*;
use crate::arith::lemma_mul_commutes;
use crate::arith::lemma_mul_difference;
use crate::arith::lemma_mul_four;
use crate::arith::lemma_mul_sign;
use crate::arith::lemma_square_order;
use crate::arith::mul_i64;
use crate::point::Coords;
use crate::point::lemma_same_point_is_equivalence;
use crate::point::Point;
use crate::vector::cross;
use crate::vector::lemma_cross_cycle;
use crate::vector::lemma_cross_flips;
use crate::vector::lemma_cross_of_stretched;
use crate::vector::lemma_offset_of_other_models;
use crate::vector::lemma_offsets_of_same_point;
use crate::vector::lemma_pair_signs;
use crate::vector::lemma_scaled_norm;
use crate::vector::norm2;
use crate::vector::offset;
use crate::vector::stretched;
use crate::vector::Vector;
use crate::wide::compare_products;
use crate::wide::compare_scaled;

verus! {

/// `a` has the larger second coordinate.
pub open spec fn higher(a: Coords, b: Coords) -> bool {
    a.y * b.w > b.y * a.w
}

/// `a` lies farther from `center` than `b` does.
///
/// The squared distance of `a` is `norm2(a.offset_from(center))` divided by
/// the square of `a.w * center.w`; the common factor `center.w` cancels.
pub open spec fn farther(center: Coords, a: Coords, b: Coords) -> bool {
    norm2(a.offset_from(center)) * (b.w * b.w) > norm2(b.offset_from(center)) * (a.w * a.w)
}

/// `a` comes before `b` in the sweep around `center`.
///
/// The rules, the earlier one deciding before the later:
/// - a point at or right of the centre comes before a point left of it;
/// - of two points exactly above, on or below the centre, the higher one
///   comes first when either is at or above the centre, the lower one when
///   both are below;
/// - otherwise the point that lies clockwise of the other comes first;
/// - of two points on one ray from the centre, the farther one comes first.
pub open spec fn precedes(center: Coords, a: Coords, b: Coords) -> bool {
    let u = a.offset_from(center);
    let v = b.offset_from(center);
    if u.x >= 0 && v.x < 0 {
        true
    } else if u.x < 0 && v.x >= 0 {
        false
    } else if u.x == 0 && v.x == 0 {
        if u.y >= 0 || v.y >= 0 {
            higher(a, b)
        } else {
            higher(b, a)
        }
    } else if cross(u, v) < 0 {
        true
    } else if cross(u, v) > 0 {
        false
    } else {
        farther(center, a, b)
    }
}

/// The stretch of the sweep in which a vector from the centre lies:
/// `0` for straight up, `1` for the open right half, `2` for the centre
/// itself, `3` for straight down, `4` for the open left half.
pub open spec fn zone(u: Vector) -> int {
    if u.x > 0 {
        1
    } else if u.x < 0 {
        4
    } else if u.y > 0 {
        0
    } else if u.y < 0 {
        3
    } else {
        2
    }
}

/// On a common ray that is not vertical, the farther vector is the one with
/// the larger first component in absolute value, once each is scaled by the
/// other's weight.
pub proof fn lemma_farther_on_ray(u: Vector, v: Vector, wa: int, wb: int)
    requires
        wa >= 1,
        wb >= 1,
        cross(u, v) == 0,
        (u.x > 0 && v.x > 0) || (u.x < 0 && v.x < 0),
    ensures
        u.x > 0 ==> (norm2(u) * (wb * wb) > norm2(v) * (wa * wa) <==> u.x * wb > v.x * wa),
        u.x < 0 ==> (norm2(u) * (wb * wb) > norm2(v) * (wa * wa) <==> u.x * wb < v.x * wa),
{
    let px = u.x * wb;
    let py = u.y * wb;
    let qx = v.x * wa;
    let qy = v.y * wa;
    let sp = px * px + py * py;
    let sq = qx * qx + qy * qy;
    assert(sp == norm2(u) * (wb * wb)) by (nonlinear_arith)
        requires
            px == u.x * wb,
            py == u.y * wb,
            sp == px * px + py * py,
            norm2(u) == u.x * u.x + u.y * u.y,
    ;
    assert(sq == norm2(v) * (wa * wa)) by (nonlinear_arith)
        requires
            qx == v.x * wa,
            qy == v.y * wa,
            sq == qx * qx + qy * qy,
            norm2(v) == v.x * v.x + v.y * v.y,
    ;
    assert(px * qy == qx * py) by (nonlinear_arith)
        requires
            px == u.x * wb,
            py == u.y * wb,
            qx == v.x * wa,
            qy == v.y * wa,
            u.x * v.y - v.x * u.y == 0,
    ;
    assert((qx * qx) * sp == (px * px) * sq) by (nonlinear_arith)
        requires
            px * qy == qx * py,
            sp == px * px + py * py,
            sq == qx * qx + qy * qy,
    ;
    assert((u.x > 0 ==> px > 0 && qx > 0) && (u.x < 0 ==> px < 0 && qx < 0)) by (nonlinear_arith)
        requires
            px == u.x * wb,
            qx == v.x * wa,
            wa >= 1,
            wb >= 1,
            (u.x > 0 && v.x > 0) || (u.x < 0 && v.x < 0),
    ;
    let pp = px * px;
    let qq = qx * qx;
    assert(pp > 0 && qq > 0 && (pp > qq <==> ((px > 0 && px > qx) || (px < 0 && px < qx))))
        by (nonlinear_arith)
        requires
            pp == px * px,
            qq == qx * qx,
            (px > 0 && qx > 0) || (px < 0 && qx < 0),
    ;
    assert(sp > 0 && sq > 0) by (nonlinear_arith)
        requires
            sp == px * px + py * py,
            sq == qx * qx + qy * qy,
            px != 0,
            qx != 0,
    ;
    assert(sp > sq <==> pp > qq) by (nonlinear_arith)
        requires
            qq * sp == pp * sq,
            pp > 0,
            qq > 0,
            sp > 0,
            sq > 0,
    ;
}

/// Orders `a` and `b` in the clockwise sweep around `center` that starts
/// straight above it: `Less` when `a` comes first, `Greater` otherwise.
/// The result is never `Equal`.
pub fn less(center: &Point, a: &Point, b: &Point) -> (r: Ordering)
    ensures
        precedes(center@, a@, b@) ==> r == Ordering::Less,
        !precedes(center@, a@, b@) ==> r == Ordering::Greater,
        r != Ordering::Equal,
        a@.x * center@.w >= center@.x * a@.w && b@.x * center@.w < center@.x * b@.w ==> r
            == Ordering::Less,
{
    let u = offset(center, a);
    let v = offset(center, b);
    proof {
        a.lemma_representable();
        b.lemma_representable();
    }
    if u.dx >= 0 && v.dx < 0 {
        return Ordering::Less;
    }
    if u.dx < 0 && v.dx >= 0 {
        return Ordering::Greater;
    }
    if u.dx == 0 && v.dx == 0 {
        let ya = mul_i64(a.y(), b.w());
        let yb = mul_i64(b.y(), a.w());
        if u.dy >= 0 || v.dy >= 0 {
            if ya > yb {
                return Ordering::Less;
            }
            return Ordering::Greater;
        }
        if yb > ya {
            return Ordering::Less;
        }
        return Ordering::Greater;
    }
    let turn = compare_products(u.dx, v.dy, v.dx, u.dy);
    if turn < 0 {
        return Ordering::Less;
    }
    if turn > 0 {
        return Ordering::Greater;
    }
    // Both lie on one ray from the centre, or one of them is the centre.
    if u.dx == 0 {
        proof {
            assert(u@.y == 0) by (nonlinear_arith)
                requires
                    u@.x == 0,
                    v@.x != 0,
                    u@.x * v@.y - v@.x * u@.y == 0,
            ;
            assert(norm2(u@) * (b@.w * b@.w) == 0 && norm2(v@) * (a@.w * a@.w) >= 0)
                by (nonlinear_arith)
                requires
                    u@.x == 0,
                    u@.y == 0,
                    norm2(u@) == u@.x * u@.x + u@.y * u@.y,
                    norm2(v@) == v@.x * v@.x + v@.y * v@.y,
            ;
        }
        return Ordering::Greater;
    }
    if v.dx == 0 {
        proof {
            assert(v@.y == 0) by (nonlinear_arith)
                requires
                    v@.x == 0,
                    u@.x != 0,
                    u@.x * v@.y - v@.x * u@.y == 0,
            ;
            assert(norm2(u@) * (b@.w * b@.w) > 0 && norm2(v@) * (a@.w * a@.w) == 0)
                by (nonlinear_arith)
                requires
                    u@.x != 0,
                    b@.w >= 1,
                    v@.x == 0,
                    v@.y == 0,
                    norm2(u@) == u@.x * u@.x + u@.y * u@.y,
                    norm2(v@) == v@.x * v@.x + v@.y * v@.y,
            ;
        }
        return Ordering::Less;
    }
    let reach = compare_scaled(u.dx, b.w(), v.dx, a.w());
    proof {
        lemma_farther_on_ray(u@, v@, a@.w, b@.w);
    }
    if u.dx > 0 {
        if reach > 0 {
            return Ordering::Less;
        }
    } else {
        if reach < 0 {
            return Ordering::Less;
        }
    }
    Ordering::Greater
}

/// The sweep goes through the zones in turn; inside a zone the point that
/// lies clockwise comes first, and on one ray the farther one.
pub proof fn lemma_precedes_by_zone(center: Coords, a: Coords, b: Coords)
    requires
        center.valid(),
        a.valid(),
        b.valid(),
    ensures
        precedes(center, a, b) <==> {
            let u = a.offset_from(center);
            let v = b.offset_from(center);
            zone(u) < zone(v) || (zone(u) == zone(v) && (cross(u, v) < 0 || (cross(u, v) == 0
                && farther(center, a, b))))
        },
{
    let u = a.offset_from(center);
    let v = b.offset_from(center);
    lemma_pair_signs(u, v);
    lemma_offsets_of_same_point(center, a, b);
    lemma_mul_sign(center.w, a.y * b.w - b.y * a.w);
    lemma_mul_sign(u.y, b.w);
    lemma_mul_sign(v.y, a.w);
    lemma_mul_sign(u.x, b.w);
    lemma_mul_sign(v.x, a.w);
    lemma_scaled_norm(u, b.w);
    lemma_scaled_norm(v, a.w);
    let p = stretched(b.w, u);
    let q = stretched(a.w, v);
    lemma_mul_commutes(b.w, u.x);
    lemma_mul_commutes(b.w, u.y);
    lemma_mul_commutes(a.w, v.x);
    lemma_mul_commutes(a.w, v.y);
    lemma_square_order(p.y, q.y);
    lemma_mul_sign(p.x, p.x);
    lemma_mul_sign(q.x, q.x);
    lemma_mul_sign(p.y, p.y);
    lemma_mul_sign(q.y, q.y);
}

/// Of two points, at most one comes before the other.
pub proof fn lemma_precedes_is_asymmetric(center: Coords, a: Coords, b: Coords)
    ensures
        !(precedes(center, a, b) && precedes(center, b, a)),
{
    lemma_cross_flips(a.offset_from(center), b.offset_from(center));
}

/// Two points neither of which comes before the other are the same point:
/// distinct points are never of equal priority.
pub proof fn lemma_precedes_is_total(center: Coords, a: Coords, b: Coords)
    requires
        center.valid(),
        a.valid(),
        b.valid(),
        !precedes(center, a, b),
        !precedes(center, b, a),
    ensures
        a.same_point(b),
{
    let u = a.offset_from(center);
    let v = b.offset_from(center);
    lemma_cross_flips(u, v);
    lemma_offsets_of_same_point(center, a, b);
    if u.x == 0 && v.x == 0 {
        assert(a.y * b.w == b.y * a.w);
        assert(u.x * b.w == v.x * a.w) by (nonlinear_arith)
            requires
                u.x == 0,
                v.x == 0,
        ;
        assert(center.w * (a.y * b.w - b.y * a.w) == 0) by (nonlinear_arith)
            requires
                a.y * b.w == b.y * a.w,
        ;
    } else {
        assert(cross(u, v) == 0);
        if u.x == 0 {
            assert(u.y == 0) by (nonlinear_arith)
                requires
                    u.x == 0,
                    v.x != 0,
                    u.x * v.y - v.x * u.y == 0,
            ;
            assert(norm2(v) * (a.w * a.w) > 0 && norm2(u) * (b.w * b.w) == 0) by (nonlinear_arith)
                requires
                    v.x != 0,
                    a.w >= 1,
                    u.x == 0,
                    u.y == 0,
                    norm2(u) == u.x * u.x + u.y * u.y,
                    norm2(v) == v.x * v.x + v.y * v.y,
            ;
            assert(false);
        } else if v.x == 0 {
            assert(v.y == 0) by (nonlinear_arith)
                requires
                    v.x == 0,
                    u.x != 0,
                    u.x * v.y - v.x * u.y == 0,
            ;
            assert(norm2(u) * (b.w * b.w) > 0 && norm2(v) * (a.w * a.w) == 0) by (nonlinear_arith)
                requires
                    u.x != 0,
                    b.w >= 1,
                    v.x == 0,
                    v.y == 0,
                    norm2(u) == u.x * u.x + u.y * u.y,
                    norm2(v) == v.x * v.x + v.y * v.y,
            ;
            assert(false);
        } else {
            lemma_farther_on_ray(u, v, a.w, b.w);
            lemma_farther_on_ray(v, u, b.w, a.w);
            let m = u.x * b.w;
            assert(m == v.x * a.w);
            assert(u.y * b.w == v.y * a.w) by (nonlinear_arith)
                requires
                    m == u.x * b.w,
                    m == v.x * a.w,
                    u.x != 0,
                    b.w >= 1,
                    u.x * v.y - v.x * u.y == 0,
            ;
        }
    }
}

/// Two models of one point are of equal priority: neither comes before the
/// other.
pub proof fn lemma_same_point_never_precedes(center: Coords, a: Coords, b: Coords)
    requires
        center.valid(),
        a.valid(),
        b.valid(),
        a.same_point(b),
    ensures
        !precedes(center, a, b),
{
    let u = a.offset_from(center);
    let v = b.offset_from(center);
    lemma_precedes_by_zone(center, a, b);
    lemma_offsets_of_same_point(center, a, b);
    // b.w * u == a.w * v, so u and v are parallel and of one zone.
    lemma_mul_sign(u.x, b.w);
    lemma_mul_sign(v.x, a.w);
    lemma_mul_sign(u.y, b.w);
    lemma_mul_sign(v.y, a.w);
    let p = stretched(b.w, u);
    let q = stretched(a.w, v);
    lemma_mul_commutes(b.w, u.x);
    lemma_mul_commutes(b.w, u.y);
    lemma_mul_commutes(a.w, v.x);
    lemma_mul_commutes(a.w, v.y);
    assert(p == q);
    lemma_scaled_norm(u, b.w);
    lemma_scaled_norm(v, a.w);
    // (a.w * b.w) * cross(u, v) == cross(p, q) == 0
    lemma_mul_four(b.w, u.x, a.w, v.y);
    lemma_mul_four(a.w, v.x, b.w, u.y);
    lemma_mul_commutes(a.w, b.w);
    lemma_mul_difference(b.w * a.w, u.x * v.y, v.x * u.y);
    lemma_mul_sign(a.w, b.w);
    lemma_mul_sign(b.w * a.w, cross(u, v));
}

/// "Lies farther from the centre than" is transitive.
pub proof fn lemma_farther_is_transitive(center: Coords, a: Coords, b: Coords, c: Coords)
    requires
        a.valid(),
        b.valid(),
        c.valid(),
        farther(center, a, b),
        farther(center, b, c),
    ensures
        farther(center, a, c),
{
    let na = norm2(a.offset_from(center));
    let nb = norm2(b.offset_from(center));
    let nc = norm2(c.offset_from(center));
    let wa = a.w * a.w;
    let wb = b.w * b.w;
    let wc = c.w * c.w;
    lemma_mul_sign(a.w, a.w);
    lemma_mul_sign(b.w, b.w);
    lemma_mul_sign(c.w, c.w);
    assert(na * wc > nc * wa) by (nonlinear_arith)
        requires
            na * wb > nb * wa,
            nb * wc > nc * wb,
            wa > 0,
            wb > 0,
            wc > 0,
    ;
}

/// The sweep order is transitive.  With [`lemma_precedes_is_asymmetric`]
/// and [`lemma_precedes_is_total`] this makes it a strict total order of
/// the points of the plane.
pub proof fn lemma_precedes_is_transitive(center: Coords, a: Coords, b: Coords, c: Coords)
    requires
        center.valid(),
        a.valid(),
        b.valid(),
        c.valid(),
        precedes(center, a, b),
        precedes(center, b, c),
    ensures
        precedes(center, a, c),
{
    let u = a.offset_from(center);
    let v = b.offset_from(center);
    let w = c.offset_from(center);
    lemma_precedes_by_zone(center, a, b);
    lemma_precedes_by_zone(center, b, c);
    lemma_precedes_by_zone(center, a, c);
    if zone(u) == zone(v) && zone(v) == zone(w) {
        // v.x * cross(u, w) == u.x * cross(v, w) + w.x * cross(u, v)
        lemma_cross_cycle(u, v, w);
        lemma_mul_sign(v.x, cross(u, w));
        lemma_mul_sign(u.x, cross(v, w));
        lemma_mul_sign(w.x, cross(u, v));
        lemma_pair_signs(u, w);
        if farther(center, a, b) && farther(center, b, c) {
            lemma_farther_is_transitive(center, a, b, c);
        }
    }
}

/// The sweep order depends on the centre, not on the weight it is held
/// with.
pub proof fn lemma_precedes_of_other_center(center: Coords, center2: Coords, a: Coords, b: Coords)
    requires
        center.valid(),
        center2.valid(),
        a.valid(),
        b.valid(),
        center.same_point(center2),
    ensures
        precedes(center2, a, b) == precedes(center, a, b),
{
    let u = a.offset_from(center);
    let v = b.offset_from(center);
    let u2 = a.offset_from(center2);
    let v2 = b.offset_from(center2);
    let l = center.w;
    let m = center2.w;
    lemma_precedes_by_zone(center, a, b);
    lemma_precedes_by_zone(center2, a, b);
    // l * u2 == m * u and l * v2 == m * v, up to the weights of the points.
    lemma_same_point_is_equivalence(a, a, a);
    lemma_same_point_is_equivalence(b, b, b);
    lemma_offset_of_other_models(center, center2, a, a);
    lemma_offset_of_other_models(center, center2, b, b);
    lemma_mul_sign(a.w, l);
    lemma_mul_sign(a.w, m);
    lemma_mul_sign(b.w, l);
    lemma_mul_sign(b.w, m);
    let la = a.w * l;
    let ma = a.w * m;
    let lb = b.w * l;
    let mb = b.w * m;
    lemma_mul_sign(la, u2.x);
    lemma_mul_sign(la, u2.y);
    lemma_mul_sign(ma, u.x);
    lemma_mul_sign(ma, u.y);
    lemma_mul_sign(lb, v2.x);
    lemma_mul_sign(lb, v2.y);
    lemma_mul_sign(mb, v.x);
    lemma_mul_sign(mb, v.y);
    assert(zone(u2) == zone(u) && zone(v2) == zone(v));
    // Cross products: (la * lb) * cross(u2, v2) == (ma * mb) * cross(u, v).
    lemma_cross_of_stretched(la, u2, lb, v2);
    lemma_cross_of_stretched(ma, u, mb, v);
    lemma_mul_sign(la, lb);
    lemma_mul_sign(ma, mb);
    lemma_mul_sign(la * lb, cross(u2, v2));
    lemma_mul_sign(ma * mb, cross(u, v));
    // Distances: norm2(u2) * (l * l) == norm2(u) * (m * m), and so for v.
    lemma_scaled_norm(u2, la);
    lemma_scaled_norm(u, ma);
    lemma_scaled_norm(v2, lb);
    lemma_scaled_norm(v, mb);
    let aa = a.w * a.w;
    let bb = b.w * b.w;
    let ll = l * l;
    let mm = m * m;
    lemma_mul_sign(a.w, a.w);
    lemma_mul_sign(b.w, b.w);
    lemma_mul_sign(l, l);
    lemma_mul_sign(m, m);
    lemma_mul_four(a.w, l, a.w, l);
    lemma_mul_four(a.w, m, a.w, m);
    lemma_mul_four(b.w, l, b.w, l);
    lemma_mul_four(b.w, m, b.w, m);
    let nu = norm2(u);
    let nv = norm2(v);
    let nu2 = norm2(u2);
    let nv2 = norm2(v2);
    assert(nu2 * (aa * ll) == nu * (aa * mm));
    assert(nv2 * (bb * ll) == nv * (bb * mm));
    assert(nu2 * ll == nu * mm) by (nonlinear_arith)
        requires
            nu2 * (aa * ll) == nu * (aa * mm),
            aa > 0,
    ;
    assert(nv2 * ll == nv * mm) by (nonlinear_arith)
        requires
            nv2 * (bb * ll) == nv * (bb * mm),
            bb > 0,
    ;
    assert((nu2 * bb > nv2 * aa) == (nu * bb > nv * aa)) by (nonlinear_arith)
        requires
            nu2 * ll == nu * mm,
            nv2 * ll == nv * mm,
            ll > 0,
            mm > 0,
    ;
}

/// In the sweep order, another model of a point may take its place.
pub proof fn lemma_precedes_of_other_point(center: Coords, a: Coords, a2: Coords, b: Coords)
    requires
        center.valid(),
        a.valid(),
        a2.valid(),
        b.valid(),
        a.same_point(a2),
    ensures
        precedes(center, a2, b) == precedes(center, a, b),
        precedes(center, b, a2) == precedes(center, b, a),
{
    lemma_same_point_is_equivalence(a, a2, b);
    lemma_same_point_is_equivalence(a2, a, b);
    lemma_same_point_is_equivalence(b, a, a2);
    lemma_same_point_is_equivalence(b, a2, a);
    lemma_same_point_never_precedes(center, a, a2);
    lemma_same_point_never_precedes(center, a2, a);
    lemma_precedes_is_asymmetric(center, a, b);
    lemma_precedes_is_asymmetric(center, a2, b);
    if precedes(center, a, b) && !precedes(center, a2, b) {
        if precedes(center, b, a2) {
            lemma_precedes_is_transitive(center, a, b, a2);
        } else {
            lemma_precedes_is_total(center, a2, b);
            lemma_same_point_never_precedes(center, a, b);
        }
    }
    if precedes(center, a2, b) && !precedes(center, a, b) {
        if precedes(center, b, a) {
            lemma_precedes_is_transitive(center, a2, b, a);
        } else {
            lemma_precedes_is_total(center, a, b);
            lemma_same_point_never_precedes(center, a2, b);
        }
    }
    if precedes(center, b, a) && !precedes(center, b, a2) {
        if precedes(center, a2, b) {
            lemma_precedes_is_transitive(center, a2, b, a);
        } else {
            lemma_precedes_is_total(center, b, a2);
            lemma_same_point_never_precedes(center, b, a);
        }
    }
    if precedes(center, b, a2) && !precedes(center, b, a) {
        if precedes(center, a, b) {
            lemma_precedes_is_transitive(center, a, b, a2);
        } else {
            lemma_precedes_is_total(center, b, a);
            lemma_same_point_never_precedes(center, b, a2);
        }
    }
}

/// The sweep order depends on the points, not on the weights they are held
/// with.
pub proof fn lemma_precedes_of_other_models(
    center: Coords,
    center2: Coords,
    a: Coords,
    a2: Coords,
    b: Coords,
    b2: Coords,
)
    requires
        center.valid(),
        center2.valid(),
        a.valid(),
        a2.valid(),
        b.valid(),
        b2.valid(),
        center.same_point(center2),
        a.same_point(a2),
        b.same_point(b2),
    ensures
        precedes(center2, a2, b2) == precedes(center, a, b),
{
    lemma_precedes_of_other_center(center, center2, a2, b2);
    lemma_precedes_of_other_point(center, a, a2, b);
    lemma_precedes_of_other_point(center, b, b2, a2);
}

} // verus!
