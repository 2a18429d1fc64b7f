//! The centroid of a list of points: the arithmetic mean of their
//! coordinates, computed exactly.

use vstd::prelude::*;
use crate::point::Coords;
use crate::point::models;
use crate::point::Point;

verus! {

/// Why a centroid could not be given.
#[derive(Clone, Copy, Debug, PartialEq, Eq, Structural)]
pub enum CenterError {
    /// The list holds no point.
    EmptyInput,
    /// The mean, written over the product of the weights, does not fit in a
    /// [`Point`].
    OutOfRange,
}

/// The product of the weights of `s`: a common denominator of all the
/// coordinates.
pub open spec fn weight_product(s: Seq<Coords>) -> int
    decreases s.len(),
{
    if s.len() == 0 {
        1
    } else {
        weight_product(s.drop_last()) * s.last().w
    }
}

/// The sum of the first coordinates of `s`, as a numerator over
/// `weight_product(s)`.
pub open spec fn sum_x(s: Seq<Coords>) -> int
    decreases s.len(),
{
    if s.len() == 0 {
        0
    } else {
        sum_x(s.drop_last()) * s.last().w + s.last().x * weight_product(s.drop_last())
    }
}

/// The sum of the second coordinates of `s`, as a numerator over
/// `weight_product(s)`.
pub open spec fn sum_y(s: Seq<Coords>) -> int
    decreases s.len(),
{
    if s.len() == 0 {
        0
    } else {
        sum_y(s.drop_last()) * s.last().w + s.last().y * weight_product(s.drop_last())
    }
}

/// The arithmetic mean of the points of `s`: each sum divided by the number
/// of points.
pub open spec fn mean(s: Seq<Coords>) -> Coords {
    Coords { x: sum_x(s), y: sum_y(s), w: s.len() * weight_product(s) }
}

/// One more point extends the sums and the product of a prefix.
pub proof fn lemma_prefix_step(s: Seq<Coords>, i: int)
    requires
        0 <= i < s.len(),
    ensures
        weight_product(s.take(i + 1)) == weight_product(s.take(i)) * s[i].w,
        sum_x(s.take(i + 1)) == sum_x(s.take(i)) * s[i].w + s[i].x * weight_product(s.take(i)),
        sum_y(s.take(i + 1)) == sum_y(s.take(i)) * s[i].w + s[i].y * weight_product(s.take(i)),
{
    assert(s.take(i + 1).drop_last() =~= s.take(i));
    assert(s.take(i + 1).last() == s[i]);
}

/// The product of the weights of a prefix is positive and no larger than
/// that of the whole.
pub proof fn lemma_weight_product_grows(s: Seq<Coords>, i: int)
    requires
        0 <= i <= s.len(),
        forall|k: int| 0 <= k < s.len() ==> (#[trigger] s[k]).valid(),
    ensures
        1 <= weight_product(s.take(i)) <= weight_product(s),
    decreases s.len() - i,
{
    if i == s.len() {
        assert(s.take(i) =~= s);
        lemma_weight_product_positive(s);
    } else {
        lemma_weight_product_grows(s, i + 1);
        lemma_prefix_step(s, i);
        lemma_weight_product_positive(s.take(i));
        let p = weight_product(s.take(i));
        let w = s[i].w;
        assert(p <= p * w) by (nonlinear_arith)
            requires
                p >= 1,
                w >= 1,
        ;
    }
}

/// The product of positive weights is positive.
pub proof fn lemma_weight_product_positive(s: Seq<Coords>)
    requires
        forall|k: int| 0 <= k < s.len() ==> (#[trigger] s[k]).valid(),
    ensures
        1 <= weight_product(s),
    decreases s.len(),
{
    if s.len() > 0 {
        lemma_weight_product_positive(s.drop_last());
        let p = weight_product(s.drop_last());
        let w = s.last().w;
        assert(1 <= p * w) by (nonlinear_arith)
            requires
                p >= 1,
                w >= 1,
        ;
    }
}

/// The centroid of `list`: the point whose coordinates are the arithmetic
/// means of the coordinates of the points of `list`.
///
/// The result is held over the weight `n * W`, where `n` is the number of
/// points and `W` the product of their weights.  It is `OutOfRange` when
/// that weight or one of the two numerators does not fit in 64 bits.
pub fn find_center(list: &[Point]) -> (r: Result<Point, CenterError>)
    ensures
        list@.len() == 0 ==> r == Err::<Point, CenterError>(CenterError::EmptyInput),
        list@.len() > 0 && mean(models(list@)).representable() ==> r.is_ok() && r.unwrap()@
            == mean(models(list@)),
        list@.len() > 0 && !mean(models(list@)).representable() ==> r == Err::<
            Point,
            CenterError,
        >(CenterError::OutOfRange),
{
    let n: usize = list.len();
    if n == 0 {
        return Err(CenterError::EmptyInput);
    }
    let count: i128 = n as i128;
    let ghost s = models(list@);
    proof {
        assert forall|k: int| 0 <= k < s.len() implies (#[trigger] s[k]).representable() by {
            list@[k].lemma_representable();
        }
    }
    let mut sx: i128 = 0;
    let mut sy: i128 = 0;
    let mut den: i128 = 1;
    let mut i: usize = 0;
    while i < n
        invariant
            i <= n,
            n == list@.len(),
            count == n,
            s == models(list@),
            forall|k: int| 0 <= k < s.len() ==> (#[trigger] s[k]).representable(),
            den == weight_product(s.take(i as int)),
            1 <= den,
            i > 0 ==> count * den <= 0x7fff_ffff_ffff_ffff,
            sx == sum_x(s.take(i as int)),
            sy == sum_y(s.take(i as int)),
            -(i * den * 0x8000_0000_0000_0000) <= sx <= i * den * 0x8000_0000_0000_0000,
            -(i * den * 0x8000_0000_0000_0000) <= sy <= i * den * 0x8000_0000_0000_0000,
        decreases n - i,
    {
        let p = &list[i];
        let w: i128 = p.w() as i128;
        let x: i128 = p.x() as i128;
        let y: i128 = p.y() as i128;
        proof {
            lemma_prefix_step(s, i as int);
            assert(s[i as int] == list@[i as int]@);
            if i == 0 {
                assert(den == 1);
                assert(den * w == w) by (nonlinear_arith)
                    requires
                        den == 1,
                ;
            } else {
                assert(1 <= den <= 0x7fff_ffff_ffff_ffff) by (nonlinear_arith)
                    requires
                        count * den <= 0x7fff_ffff_ffff_ffff,
                        count >= 1,
                        den >= 1,
                ;
            }
            assert(1 <= den * w <= 0x3fff_ffff_ffff_ffff_0000_0000_0000_0001) by (nonlinear_arith)
                requires
                    1 <= den <= 0x7fff_ffff_ffff_ffff,
                    1 <= w <= 0x7fff_ffff_ffff_ffff,
            ;
        }
        let next: i128 = den * w;
        if next > 0x7fff_ffff_ffff_ffff {
            proof {
                lemma_weight_product_grows(s, i + 1);
                let total = weight_product(s);
                assert(n * total >= total) by (nonlinear_arith)
                    requires
                        n >= 1,
                        total >= 1,
                ;
            }
            return Err(CenterError::OutOfRange);
        }
        proof {
            assert(0 <= count * next <= 0x1_0000_0000_0000_0000 * 0x7fff_ffff_ffff_ffff)
                by (nonlinear_arith)
                requires
                    1 <= count <= 0x1_0000_0000_0000_0000,
                    1 <= next <= 0x7fff_ffff_ffff_ffff,
            ;
        }
        if count * next > 0x7fff_ffff_ffff_ffff {
            proof {
                lemma_weight_product_grows(s, i + 1);
                let total = weight_product(s);
                assert(n * total >= n * next) by (nonlinear_arith)
                    requires
                        n >= 1,
                        total >= next,
                ;
            }
            return Err(CenterError::OutOfRange);
        }
        proof {
            let half = 0x8000_0000_0000_0000int;
            let bound = i * den * half;
            let reach = i * next * half;
            let step = (i + 1) * next * half;
            assert(bound * w == reach && den * half <= next * half && step == reach + next * half
                && step <= (count * next) * half) by (nonlinear_arith)
                requires
                    bound == i * den * half,
                    reach == i * next * half,
                    step == (i + 1) * next * half,
                    next == den * w,
                    den >= 1,
                    w >= 1,
                    half > 0,
                    0 <= i,
                    i + 1 <= count,
            ;
            assert((count * next) * half <= 0x7fff_ffff_ffff_ffff * half) by (nonlinear_arith)
                requires
                    count * next <= 0x7fff_ffff_ffff_ffff,
                    half > 0,
            ;
            assert(-(bound * w) <= sx * w <= bound * w && -(bound * w) <= sy * w <= bound * w)
                by (nonlinear_arith)
                requires
                    -bound <= sx <= bound,
                    -bound <= sy <= bound,
                    w >= 1,
            ;
            assert(-(den * half) <= x * den <= den * half && -(den * half) <= y * den <= den
                * half) by (nonlinear_arith)
                requires
                    -half <= x <= half,
                    -half <= y <= half,
                    den >= 1,
            ;
        }
        sx = sx * w + x * den;
        sy = sy * w + y * den;
        den = next;
        i = i + 1;
    }
    proof {
        assert(s.take(n as int) =~= s);
    }
    let weight: i128 = count * den;
    if sx < -0x8000_0000_0000_0000 || sx > 0x7fff_ffff_ffff_ffff || sy < -0x8000_0000_0000_0000
        || sy > 0x7fff_ffff_ffff_ffff {
        return Err(CenterError::OutOfRange);
    }
    match Point::rational(sx as i64, sy as i64, weight as i64) {
        Some(center) => Ok(center),
        None => Err(CenterError::OutOfRange),
    }
}

} // verus!
