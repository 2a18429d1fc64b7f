//! Products: exact ones of machine integers, computed in a wider type, and
//! the facts about products of integers that the proofs of this library use.

use vstd::prelude::*;

verus! {

/// The exact product of two 64-bit integers.
pub(crate) fn mul_i64(a: i64, b: i64) -> (r: i128)
    ensures
        r == a * b,
{
    proof {
        assert(-0x4000_0000_0000_0000_0000_0000_0000_0000 < a * b
            <= 0x4000_0000_0000_0000_0000_0000_0000_0000) by (nonlinear_arith)
            requires
                -0x8000_0000_0000_0000 <= a <= 0x7fff_ffff_ffff_ffff,
                -0x8000_0000_0000_0000 <= b <= 0x7fff_ffff_ffff_ffff,
        ;
    }
    a as i128 * b as i128
}

/// The exact product of a 64-bit integer and a weight.  It stays far enough
/// inside 127 bits for two such products to be subtracted.
pub(crate) fn scale_i64(a: i64, w: i64) -> (r: i128)
    requires
        w >= 1,
    ensures
        r == a * w,
        -0x3fff_ffff_ffff_ffff_8000_0000_0000_0000 <= r <= 0x3fff_ffff_ffff_ffff_8000_0000_0000_0000,
{
    proof {
        assert(-0x3fff_ffff_ffff_ffff_8000_0000_0000_0000 <= a * w
            <= 0x3fff_ffff_ffff_ffff_8000_0000_0000_0000) by (nonlinear_arith)
            requires
                -0x8000_0000_0000_0000 <= a <= 0x7fff_ffff_ffff_ffff,
                1 <= w <= 0x7fff_ffff_ffff_ffff,
        ;
    }
    a as i128 * w as i128
}

/// The sign of a product is the product of the signs.
pub proof fn lemma_mul_sign(a: int, b: int)
    ensures
        a > 0 && b > 0 ==> a * b > 0,
        a < 0 && b < 0 ==> a * b > 0,
        a > 0 && b < 0 ==> a * b < 0,
        a < 0 && b > 0 ==> a * b < 0,
        a == 0 || b == 0 ==> a * b == 0,
{
    assert((a > 0 && b > 0 ==> a * b > 0) && (a < 0 && b < 0 ==> a * b > 0) && (a > 0 && b < 0
        ==> a * b < 0) && (a < 0 && b > 0 ==> a * b < 0) && (a == 0 || b == 0 ==> a * b == 0))
        by (nonlinear_arith);
}

/// Squares of numbers of one sign are ordered as their absolute values.
pub proof fn lemma_square_order(a: int, b: int)
    ensures
        a >= 0 && b >= 0 ==> (a * a > b * b <==> a > b),
        a <= 0 && b <= 0 ==> (a * a > b * b <==> a < b),
{
    assert((a >= 0 && b >= 0 ==> (a * a > b * b <==> a > b)) && (a <= 0 && b <= 0 ==> (a * a > b
        * b <==> a < b))) by (nonlinear_arith);
}

/// A product does not depend on the order of its factors.
pub proof fn lemma_mul_commutes(a: int, b: int)
    ensures
        a * b == b * a,
{
    assert(a * b == b * a) by (nonlinear_arith);
}

/// A product of three factors does not depend on their grouping or order.
pub proof fn lemma_mul_triple(a: int, b: int, c: int)
    ensures
        a * (b * c) == b * (a * c),
        a * (b * c) == c * (a * b),
        a * (b * c) == c * (b * a),
        a * (b * c) == a * (c * b),
        a * (b * c) == b * (c * a),
{
    assert(a * (b * c) == b * (a * c) && a * (b * c) == c * (a * b) && a * (b * c) == c * (b * a)
        && a * (b * c) == a * (c * b) && a * (b * c) == b * (c * a)) by (nonlinear_arith);
}

/// Multiplication distributes over a difference.
pub proof fn lemma_mul_difference(a: int, b: int, c: int)
    ensures
        a * (b - c) == a * b - a * c,
        a * (b + c) == a * b + a * c,
{
    assert(a * (b - c) == a * b - a * c && a * (b + c) == a * b + a * c) by (nonlinear_arith);
}

/// A product of two products, regrouped.
pub proof fn lemma_mul_four(a: int, b: int, c: int, d: int)
    ensures
        (a * b) * (c * d) == (a * c) * (b * d),
        (a * b) * (c * d) == (a * d) * (c * b),
        (a * b) * (c * d) == (c * b) * (a * d),
        (a * b) * (c * d) == (c * d) * (a * b),
{
    assert((a * b) * (c * d) == (a * c) * (b * d) && (a * b) * (c * d) == (a * d) * (c * b) && (a
        * b) * (c * d) == (c * b) * (a * d) && (a * b) * (c * d) == (c * d) * (a * b))
        by (nonlinear_arith);
}

/// The product of a difference and a sum, and of two differences, and of
/// two sums, written out.
pub proof fn lemma_mul_expand(p: int, q: int, r: int, s: int)
    ensures
        (p - q) * (r + s) == p * r + p * s - q * r - q * s,
        (p - q) * (r - s) == p * r - p * s - q * r + q * s,
        (p + q) * (r + s) == p * r + p * s + q * r + q * s,
{
    assert((p - q) * (r + s) == p * r + p * s - q * r - q * s && (p - q) * (r - s) == p * r - p
        * s - q * r + q * s && (p + q) * (r + s) == p * r + p * s + q * r + q * s)
        by (nonlinear_arith);
}

} // verus!
