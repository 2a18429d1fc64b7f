//! Products of two 128-bit integers, held in 256 bits, and their comparison.

use vstd::prelude::*;
use crate::arith::lemma_mul_expand;
use crate::arith::lemma_mul_sign;

verus! {

/// Two to the power 64.
pub open spec fn limb() -> int {
    0x1_0000_0000_0000_0000
}

/// Two to the power 128.
pub open spec fn limb2() -> int {
    0x1_0000_0000_0000_0000_0000_0000_0000_0000int
}

/// The absolute value of `a`.
pub open spec fn magnitude_of(a: int) -> int {
    if a < 0 {
        -a
    } else {
        a
    }
}

/// The sign of `a`: `-1`, `0` or `1`.
pub open spec fn sign_of(a: int) -> int {
    if a < 0 {
        -1
    } else if a > 0 {
        1
    } else {
        0
    }
}

/// The absolute value of a 128-bit integer.
pub fn magnitude(a: i128) -> (r: u128)
    ensures
        r == magnitude_of(a as int),
{
    if a >= 0 {
        a as u128
    } else {
        (-(a + 1)) as u128 + 1
    }
}

/// The sign of the product of two 128-bit integers.
pub fn product_sign(a: i128, b: i128) -> (r: i8)
    ensures
        r == sign_of(a * b),
{
    proof {
        lemma_mul_sign(a as int, b as int);
    }
    if a == 0 || b == 0 {
        0
    } else if (a > 0) == (b > 0) {
        1
    } else {
        -1
    }
}

/// The product of two numbers below `limb()` is below `limb2()`.
pub proof fn lemma_limb_product(x: int, y: int)
    requires
        0 <= x < limb(),
        0 <= y < limb(),
    ensures
        0 <= x * y <= 0xffff_ffff_ffff_fffe_0000_0000_0000_0001,
{
    assert(0 <= x * y <= 0xffff_ffff_ffff_fffe_0000_0000_0000_0001) by (nonlinear_arith)
        requires
            0 <= x <= 0xffff_ffff_ffff_ffff,
            0 <= y <= 0xffff_ffff_ffff_ffff,
    ;
}

/// The product of two numbers written in two limbs each.
pub proof fn lemma_two_limb_product(a1: int, a0: int, b1: int, b0: int)
    ensures
        (a1 * limb() + a0) * (b1 * limb() + b0) == (a1 * b1) * limb2() + (a1 * b0 + a0 * b1)
            * limb() + a0 * b0,
{
    let k = limb();
    lemma_mul_expand(a1 * k, -a0, b1 * k, b0);
    assert((a1 * k) * (b1 * k) == (a1 * b1) * (k * k)) by (nonlinear_arith);
    assert((a1 * k) * b0 == (a1 * b0) * k) by (nonlinear_arith);
    assert((-a0) * (b1 * k) == -((a0 * b1) * k)) by (nonlinear_arith);
    assert((-a0) * b0 == -(a0 * b0)) by (nonlinear_arith);
    assert((a1 * b0 + a0 * b1) * k == (a1 * b0) * k + (a0 * b1) * k) by (nonlinear_arith);
    assert(k * k == limb2());
}

/// The product of two unsigned 128-bit integers, as the pair `(high, low)`
/// of its upper and lower 128 bits.
pub fn wide_mul(a: u128, b: u128) -> (r: (u128, u128))
    ensures
        r.0 * limb2() + r.1 == a * b,
{
    let a0: u128 = a % 0x1_0000_0000_0000_0000;
    let a1: u128 = a / 0x1_0000_0000_0000_0000;
    let b0: u128 = b % 0x1_0000_0000_0000_0000;
    let b1: u128 = b / 0x1_0000_0000_0000_0000;
    proof {
        lemma_limb_product(a0 as int, b0 as int);
        lemma_limb_product(a0 as int, b1 as int);
        lemma_limb_product(a1 as int, b0 as int);
        lemma_limb_product(a1 as int, b1 as int);
        lemma_two_limb_product(a1 as int, a0 as int, b1 as int, b0 as int);
    }
    let low: u128 = a0 * b0;
    let mid_a: u128 = a0 * b1;
    let mid_b: u128 = a1 * b0;
    let top: u128 = a1 * b1;
    let carry: u128 = low / 0x1_0000_0000_0000_0000 + mid_a % 0x1_0000_0000_0000_0000 + mid_b
        % 0x1_0000_0000_0000_0000;
    let lo: u128 = low % 0x1_0000_0000_0000_0000 + (carry % 0x1_0000_0000_0000_0000)
        * 0x1_0000_0000_0000_0000;
    proof {
        let high = top + mid_a / 0x1_0000_0000_0000_0000 + mid_b / 0x1_0000_0000_0000_0000 + carry
            / 0x1_0000_0000_0000_0000;
        assert((mid_b + mid_a) * limb() == mid_b * limb() + mid_a * limb()) by (nonlinear_arith);
        assert(top * limb2() + (mid_b + mid_a) * limb() + low == a * b);
        assert(high * limb2() + lo == a * b) by (nonlinear_arith)
            requires
                top * limb2() + mid_b * limb() + mid_a * limb() + low == a * b,
                limb() == 0x1_0000_0000_0000_0000,
                limb2() == limb() * limb(),
                high == top + mid_a / 0x1_0000_0000_0000_0000 + mid_b / 0x1_0000_0000_0000_0000
                    + carry / 0x1_0000_0000_0000_0000,
                carry == low / 0x1_0000_0000_0000_0000 + mid_a % 0x1_0000_0000_0000_0000 + mid_b
                    % 0x1_0000_0000_0000_0000,
                lo == low % 0x1_0000_0000_0000_0000 + (carry % 0x1_0000_0000_0000_0000)
                    * 0x1_0000_0000_0000_0000,
        ;
        assert(a * b < limb2() * limb2()) by (nonlinear_arith)
            requires
                0 <= a < limb2(),
                0 <= b < limb2(),
        ;
        assert(high < limb2()) by (nonlinear_arith)
            requires
                high * limb2() + lo == a * b,
                a * b < limb2() * limb2(),
                lo >= 0,
                limb2() > 0,
        ;
    }
    let hi: u128 = top + mid_a / 0x1_0000_0000_0000_0000 + mid_b / 0x1_0000_0000_0000_0000 + carry
        / 0x1_0000_0000_0000_0000;
    (hi, lo)
}

/// The absolute value of a product is the product of the absolute values.
pub proof fn lemma_magnitude_of_product(a: int, b: int)
    ensures
        magnitude_of(a) * magnitude_of(b) == magnitude_of(a * b),
{
    lemma_mul_sign(a, b);
    assert((-a) * b == -(a * b) && a * (-b) == -(a * b) && (-a) * (-b) == a * b)
        by (nonlinear_arith);
}

/// Compares the product `a * b` with the product `c * d`: the result is
/// the sign of their difference.
pub fn compare_products(a: i128, b: i128, c: i128, d: i128) -> (r: i8)
    ensures
        r == sign_of(a * b - c * d),
{
    let left = product_sign(a, b);
    let right = product_sign(c, d);
    if left < right {
        return -1;
    }
    if left > right {
        return 1;
    }
    if left == 0 {
        return 0;
    }
    let (left_high, left_low) = wide_mul(magnitude(a), magnitude(b));
    let (right_high, right_low) = wide_mul(magnitude(c), magnitude(d));
    proof {
        lemma_magnitude_of_product(a as int, b as int);
        lemma_magnitude_of_product(c as int, d as int);
    }
    let larger = left_high > right_high || (left_high == right_high && left_low > right_low);
    let smaller = left_high < right_high || (left_high == right_high && left_low < right_low);
    if larger == smaller {
        0
    } else if larger == (left > 0) {
        1
    } else {
        -1
    }
}

/// Compares `u * k` with `v * j`, for two 128-bit integers and two 64-bit
/// factors: the result is the sign of the difference.
pub fn compare_scaled(u: i128, k: i64, v: i128, j: i64) -> (r: i8)
    ensures
        r == sign_of(u * k - v * j),
{
    compare_products(u, k as i128, v, j as i128)
}

} // verus!
