//! Turning the plane about the origin, and what a turn does to the two
//! orders.

use std::cmp::Ordering;
use vstd::prelude::*;
use crate::arith::lemma_mul_difference;
use crate::arith::lemma_mul_expand;
use crate::arith::lemma_mul_four;
use crate::arith::lemma_mul_sign;
use crate::arith::lemma_mul_triple;
use crate::point::Coords;
use crate::polar::angle_above;
use crate::polar::band;
use crate::polar::polar_order;
use crate::quadrant::lemma_precedes_is_asymmetric;
use crate::quadrant::precedes;
use crate::sorting::polar_sorted;
use crate::sorting::second_part_first;
use crate::sorting::sweep_sorted;
use crate::vector::cross;
use crate::vector::dot;
use crate::vector::lemma_cross_cycle;
use crate::vector::lemma_cross_flips;
use crate::vector::lemma_frame;
use crate::vector::lemma_nonzero_offset;
use crate::vector::lemma_offsets_of_same_point;
use crate::vector::lemma_pair_signs;
use crate::vector::lemma_turned_products;
use crate::vector::norm2;
use crate::vector::stretched;
use crate::vector::turned;
use crate::vector::Vector;

verus! {

/// `u` comes strictly before `v` in the clockwise sweep that starts at the
/// ray of `t`.
pub open spec fn before_from(t: Vector, u: Vector, v: Vector) -> bool {
    let near_u = cross(t, u) <= 0;
    let near_v = cross(t, v) <= 0;
    let on_line = cross(t, u) == 0 && cross(t, v) == 0;
    ||| near_u && !near_v
    ||| on_line && dot(t, u) > 0 && dot(t, v) < 0
    ||| near_u == near_v && !on_line && cross(u, v) < 0
}

/// The wrap law: the clockwise sweep that starts at the ray of `t` and the
/// order by polar angle, largest first, are the same order cut at different
/// places.  Two vectors on one side of the cut are ordered alike; of two on
/// different sides, the sweep puts first the one that polar order puts last.
pub proof fn lemma_wrap(t: Vector, u: Vector, v: Vector)
    requires
        t.x != 0 || t.y != 0,
        u.x != 0 || u.y != 0,
        v.x != 0 || v.y != 0,
    ensures
        angle_above(u, t) == angle_above(v, t) && angle_above(u, v) ==> before_from(t, u, v),
        !angle_above(u, t) && angle_above(v, t) ==> before_from(t, u, v) && angle_above(v, u),
{
    let xtu = cross(t, u);
    let xtv = cross(t, v);
    let xuv = cross(u, v);
    let dtu = dot(t, u);
    let dtv = dot(t, v);
    let n = norm2(t);
    lemma_cross_cycle(t, u, v);
    lemma_cross_flips(u, v);
    lemma_cross_flips(t, u);
    lemma_cross_flips(t, v);
    lemma_frame(t, u);
    lemma_frame(t, v);
    lemma_pair_signs(t, u);
    lemma_pair_signs(t, v);
    lemma_pair_signs(u, v);
    lemma_mul_sign(t.x, t.x);
    lemma_mul_sign(t.y, t.y);
    lemma_mul_sign(t.y, xuv);
    lemma_mul_sign(u.y, xtv);
    lemma_mul_sign(v.y, xtu);
    lemma_mul_sign(t.x, xuv);
    lemma_mul_sign(u.x, xtv);
    lemma_mul_sign(v.x, xtu);
    lemma_mul_sign(n, u.x);
    lemma_mul_sign(n, u.y);
    lemma_mul_sign(n, v.x);
    lemma_mul_sign(n, v.y);
    lemma_mul_sign(t.x, dtu);
    lemma_mul_sign(t.y, dtu);
    lemma_mul_sign(t.x, xtu);
    lemma_mul_sign(t.y, xtu);
    lemma_mul_sign(t.x, dtv);
    lemma_mul_sign(t.y, dtv);
    lemma_mul_sign(t.x, xtv);
    lemma_mul_sign(t.y, xtv);
}

/// A turn of the plane about the origin.  The point `(x, y)` goes to
/// `((cos * x - sin * y) / scale, (sin * x + cos * y) / scale)`.
///
/// With `cos * cos + sin * sin == scale * scale` this is the rotation by the
/// angle whose cosine is `cos / scale` and whose sine is `sin / scale`.
/// Otherwise the rotation by the polar angle of `(cos, sin)` is followed by
/// a stretch from the origin, which changes no direction.
pub struct Turn {
    pub cos: int,
    pub sin: int,
    pub scale: int,
}

impl Turn {
    /// The turn is not degenerate.
    pub open spec fn valid(self) -> bool {
        (self.cos != 0 || self.sin != 0) && self.scale >= 1
    }

    /// The image of the first unit vector, before the division by `scale`.
    pub open spec fn axis(self) -> Vector {
        Vector { x: self.cos, y: self.sin }
    }

    /// A vector in the direction to which the turn takes "straight up".
    pub open spec fn top(self) -> Vector {
        turned(self.axis(), Vector { x: 0, y: 1 })
    }

    /// The image of the point `p`.
    pub open spec fn apply(self, p: Coords) -> Coords {
        let image = turned(self.axis(), Vector { x: p.x, y: p.y });
        Coords { x: image.x, y: image.y, w: self.scale * p.w }
    }

    /// Seen from the turned centre, the turned point `p` has a polar angle
    /// above that of the turned "straight up": the sweep reaches it only
    /// after it has passed the half turn where the polar angle jumps.
    pub open spec fn wraps(self, center: Coords, p: Coords) -> bool {
        angle_above(self.apply(p).offset_from(self.apply(center)), self.top())
    }
}

/// The offset of a turned point from the turned centre is the turned
/// offset, stretched by the scale of the turn.
pub proof fn lemma_turned_offset(turn: Turn, center: Coords, p: Coords)
    ensures
        turn.apply(p).offset_from(turn.apply(center)) == stretched(
            turn.scale,
            turned(turn.axis(), p.offset_from(center)),
        ),
{
    let z = turn.axis();
    let k = turn.scale;
    let u = p.offset_from(center);
    let image_p = turned(z, Vector { x: p.x, y: p.y });
    let image_c = turned(z, Vector { x: center.x, y: center.y });
    // First component.
    lemma_mul_triple(image_p.x, k, center.w);
    lemma_mul_triple(image_c.x, k, p.w);
    lemma_mul_difference(k, image_p.x * center.w, image_c.x * p.w);
    lemma_mul_expand(z.x * p.x, z.y * p.y, center.w, 0);
    lemma_mul_expand(z.x * center.x, z.y * center.y, p.w, 0);
    lemma_mul_triple(z.x, p.x, center.w);
    lemma_mul_triple(z.y, p.y, center.w);
    lemma_mul_triple(z.x, center.x, p.w);
    lemma_mul_triple(z.y, center.y, p.w);
    assert((z.x * p.x) * center.w == z.x * (p.x * center.w) && (z.y * p.y) * center.w == z.y * (p.y
        * center.w) && (z.x * center.x) * p.w == z.x * (center.x * p.w) && (z.y * center.y) * p.w
        == z.y * (center.y * p.w)) by (nonlinear_arith);
    lemma_mul_difference(z.x, p.x * center.w, center.x * p.w);
    lemma_mul_difference(z.y, p.y * center.w, center.y * p.w);
    assert(image_p.x * center.w - image_c.x * p.w == z.x * u.x - z.y * u.y);
    // Second component.
    lemma_mul_triple(image_p.y, k, center.w);
    lemma_mul_triple(image_c.y, k, p.w);
    lemma_mul_difference(k, image_p.y * center.w, image_c.y * p.w);
    lemma_mul_expand(z.y * p.x, -(z.x * p.y), center.w, 0);
    lemma_mul_expand(z.y * center.x, -(z.x * center.y), p.w, 0);
    assert((z.y * p.x) * center.w == z.y * (p.x * center.w) && (z.x * p.y) * center.w == z.x * (p.y
        * center.w) && (z.y * center.x) * p.w == z.y * (center.x * p.w) && (z.x * center.y) * p.w
        == z.x * (center.y * p.w)) by (nonlinear_arith);
    assert((-(z.x * p.y)) * center.w == -((z.x * p.y) * center.w) && (-(z.x * center.y)) * p.w
        == -((z.x * center.y) * p.w)) by (nonlinear_arith);
    lemma_mul_difference(z.y, p.x * center.w, center.x * p.w);
    lemma_mul_difference(z.x, p.y * center.w, center.y * p.w);
    assert(image_p.y * center.w - image_c.y * p.w == z.y * u.x + z.x * u.y);
    assert(image_p.x * (k * center.w) == k * (image_p.x * center.w) && image_c.x * (k * p.w) == k
        * (image_c.x * p.w) && image_p.y * (k * center.w) == k * (image_p.y * center.w)
        && image_c.y * (k * p.w) == k * (image_c.y * p.w)) by (nonlinear_arith);
}

/// A vector that points straight up.
pub open spec fn up() -> Vector {
    Vector { x: 0, y: 1 }
}

/// A stretch by a positive factor changes no polar angle.
pub proof fn lemma_stretch_keeps_angles(k: int, a: Vector, b: Vector, t: Vector)
    requires
        k >= 1,
    ensures
        band(stretched(k, a)) == band(a),
        angle_above(stretched(k, a), stretched(k, b)) == angle_above(a, b),
        angle_above(stretched(k, a), t) == angle_above(a, t),
{
    let sa = stretched(k, a);
    let sb = stretched(k, b);
    lemma_mul_sign(k, a.x);
    lemma_mul_sign(k, a.y);
    lemma_mul_sign(k, b.x);
    lemma_mul_sign(k, b.y);
    // cross(sb, sa) == k * k * cross(b, a)
    lemma_mul_four(k, b.x, k, a.y);
    lemma_mul_four(k, a.x, k, b.y);
    lemma_mul_difference(k * k, b.x * a.y, a.x * b.y);
    lemma_mul_sign(k, k);
    lemma_mul_sign(k * k, cross(b, a));
    // cross(t, sa) == k * cross(t, a)
    lemma_mul_triple(t.x, k, a.y);
    lemma_mul_triple(t.y, k, a.x);
    assert((k * a.x) * t.y == k * (a.x * t.y)) by (nonlinear_arith);
    lemma_mul_difference(k, t.x * a.y, a.x * t.y);
    lemma_mul_sign(k, cross(t, a));
}

/// A turn carries the sweep that starts straight up to the sweep that starts
/// at the image of "straight up".
pub proof fn lemma_turn_keeps_sweep(z: Vector, u: Vector, v: Vector)
    requires
        z.x != 0 || z.y != 0,
    ensures
        before_from(turned(z, up()), turned(z, u), turned(z, v)) == before_from(up(), u, v),
        (u.x != 0 || u.y != 0) ==> (turned(z, u).x != 0 || turned(z, u).y != 0),
{
    let n = norm2(z);
    lemma_mul_sign(z.x, z.x);
    lemma_mul_sign(z.y, z.y);
    assert(n > 0);
    lemma_turned_products(z, up(), u);
    lemma_turned_products(z, up(), v);
    lemma_turned_products(z, u, v);
    lemma_turned_products(z, u, u);
    lemma_mul_sign(n, cross(up(), u));
    lemma_mul_sign(n, cross(up(), v));
    lemma_mul_sign(n, cross(u, v));
    lemma_mul_sign(n, dot(up(), u));
    lemma_mul_sign(n, dot(up(), v));
    lemma_mul_sign(n, dot(u, u));
    lemma_mul_sign(u.x, u.x);
    lemma_mul_sign(u.y, u.y);
    let w = turned(z, u);
    lemma_mul_sign(w.x, w.x);
    lemma_mul_sign(w.y, w.y);
}

/// A point whose direction from the centre comes strictly earlier in the
/// sweep that starts straight up comes before the other point.
pub proof fn lemma_sweep_from_top(center: Coords, a: Coords, b: Coords)
    requires
        center.valid(),
        a.valid(),
        b.valid(),
        before_from(up(), a.offset_from(center), b.offset_from(center)),
    ensures
        precedes(center, a, b),
{
    let u = a.offset_from(center);
    let v = b.offset_from(center);
    assert(cross(up(), u) == -u.x && cross(up(), v) == -v.x && dot(up(), u) == u.y && dot(up(), v)
        == v.y) by (nonlinear_arith)
        requires
            up().x == 0,
            up().y == 1,
            cross(up(), u) == up().x * u.y - u.x * up().y,
            cross(up(), v) == up().x * v.y - v.x * up().y,
            dot(up(), u) == up().x * u.x + up().y * u.y,
            dot(up(), v) == up().x * v.x + up().y * v.y,
    ;
    if u.x == 0 && v.x == 0 {
        // Straight above against straight below.
        lemma_offsets_of_same_point(center, a, b);
        lemma_mul_sign(u.y, b.w);
        lemma_mul_sign(v.y, a.w);
        lemma_mul_sign(center.w, a.y * b.w - b.y * a.w);
    }
}

/// What a turn about the origin does to the order of two points, neither of
/// which is the centre.
///
/// The sweep around the centre and the order by polar angle around the
/// turned centre run the same way round; they differ in where they start.
/// So the turned points that do not wrap keep their sweep order under the
/// polar order, and so do those that wrap, up to the ties of the polar
/// order; and every point that wraps has come after, and now comes before,
/// every point that does not.
pub proof fn lemma_turn_keeps_order(turn: Turn, center: Coords, a: Coords, b: Coords)
    requires
        turn.valid(),
        center.valid(),
        a.valid(),
        b.valid(),
        !a.same_point(center),
        !b.same_point(center),
    ensures
        turn.wraps(center, a) == turn.wraps(center, b) && polar_order(
            turn.apply(center),
            turn.apply(a),
            turn.apply(b),
        ) == Ordering::Less ==> precedes(center, a, b),
        turn.wraps(center, a) == turn.wraps(center, b) && precedes(center, a, b) ==> polar_order(
            turn.apply(center),
            turn.apply(a),
            turn.apply(b),
        ) != Ordering::Greater,
        !turn.wraps(center, a) && turn.wraps(center, b) ==> precedes(center, a, b) && polar_order(
            turn.apply(center),
            turn.apply(a),
            turn.apply(b),
        ) == Ordering::Greater,
{
    let z = turn.axis();
    let k = turn.scale;
    let u = a.offset_from(center);
    let v = b.offset_from(center);
    let zu = turned(z, u);
    let zv = turned(z, v);
    let t = turn.top();
    lemma_nonzero_offset(center, a);
    lemma_nonzero_offset(center, b);
    lemma_turned_offset(turn, center, a);
    lemma_turned_offset(turn, center, b);
    lemma_stretch_keeps_angles(k, zu, zv, t);
    lemma_stretch_keeps_angles(k, zv, zu, t);
    lemma_turn_keeps_sweep(z, u, v);
    lemma_turn_keeps_sweep(z, v, u);
    lemma_turn_keeps_sweep(z, up(), up());
    lemma_wrap(t, zu, zv);
    lemma_wrap(t, zv, zu);
    if before_from(up(), u, v) {
        lemma_sweep_from_top(center, a, b);
    }
    if before_from(up(), v, u) {
        lemma_sweep_from_top(center, b, a);
    }
    lemma_precedes_is_asymmetric(center, a, b);
}

impl Turn {
    /// The images of the points of `s`.
    pub open spec fn apply_all(self, s: Seq<Coords>) -> Seq<Coords> {
        s.map_values(|p: Coords| self.apply(p))
    }
}

/// In a sequence in sweep order, the points that wrap come after those that
/// do not.
proof fn lemma_wrapping_points_come_last(
    turn: Turn,
    center: Coords,
    s: Seq<Coords>,
    i: int,
    j: int,
)
    requires
        turn.valid(),
        center.valid(),
        forall|k: int| 0 <= k < s.len() ==> (#[trigger] s[k]).valid() && !s[k].same_point(center),
        sweep_sorted(center, s),
        0 <= i < j < s.len(),
        turn.wraps(center, s[i]),
    ensures
        turn.wraps(center, s[j]),
{
    lemma_turn_keeps_order(turn, center, s[j], s[i]);
    assert(!(|a: Coords, b: Coords| precedes(center, a, b))(s[j], s[i]));
}

/// The place where the points that wrap begin, among the first `n` points
/// of a sequence in sweep order.
proof fn lemma_find_cut(turn: Turn, center: Coords, s: Seq<Coords>, n: nat) -> (cut: int)
    requires
        turn.valid(),
        center.valid(),
        forall|k: int| 0 <= k < s.len() ==> (#[trigger] s[k]).valid() && !s[k].same_point(center),
        sweep_sorted(center, s),
        n <= s.len(),
    ensures
        0 <= cut <= n,
        forall|k: int| 0 <= k < cut ==> !turn.wraps(center, #[trigger] s[k]),
        forall|k: int| cut <= k < n ==> turn.wraps(center, #[trigger] s[k]),
    decreases n,
{
    if n == 0 {
        0
    } else {
        let before = lemma_find_cut(turn, center, s, (n - 1) as nat);
        if turn.wraps(center, s[n - 1]) {
            before
        } else {
            assert forall|k: int| 0 <= k < n implies !turn.wraps(center, #[trigger] s[k]) by {
                if k < n - 1 && turn.wraps(center, s[k]) {
                    lemma_wrapping_points_come_last(turn, center, s, k, n - 1);
                }
            }
            n as int
        }
    }
}

/// What a turn about the origin does to a sequence in sweep order, none of
/// whose points is the centre: the turned points are in polar order around
/// the turned centre, once the sequence is cut in two and the second part
/// is put first.  The cut lies where the polar angle jumps from `-pi` to
/// `pi`: before it are the points that do not wrap, after it those that do.
pub proof fn lemma_turned_sweep_is_polar_order(
    turn: Turn,
    center: Coords,
    s: Seq<Coords>,
) -> (cut: int)
    requires
        turn.valid(),
        center.valid(),
        forall|k: int| 0 <= k < s.len() ==> (#[trigger] s[k]).valid() && !s[k].same_point(center),
        sweep_sorted(center, s),
    ensures
        0 <= cut <= s.len(),
        forall|k: int| 0 <= k < cut ==> !turn.wraps(center, #[trigger] s[k]),
        forall|k: int| cut <= k < s.len() ==> turn.wraps(center, #[trigger] s[k]),
        polar_sorted(turn.apply(center), second_part_first(turn.apply_all(s), cut)),
{
    let len = s.len();
    let cut = lemma_find_cut(turn, center, s, len);
    let images = turn.apply_all(s);
    let r = second_part_first(images, cut);
    let image_center = turn.apply(center);
    let polar_before = |a: Coords, b: Coords| polar_order(image_center, a, b) == Ordering::Less;
    let sweep_before = |a: Coords, b: Coords| precedes(center, a, b);
    assert forall|i: int, j: int| 0 <= i < j < r.len() implies !polar_before(
        #[trigger] r[j],
        #[trigger] r[i],
    ) by {
        let from_i = if i < len - cut {
            cut + i
        } else {
            i - (len - cut)
        };
        let from_j = if j < len - cut {
            cut + j
        } else {
            j - (len - cut)
        };
        assert(r[i] == turn.apply(s[from_i]));
        assert(r[j] == turn.apply(s[from_j]));
        lemma_turn_keeps_order(turn, center, s[from_j], s[from_i]);
        if from_i < from_j {
            assert(!sweep_before(s[from_j], s[from_i]));
        }
    }
    cut
}

} // verus!
