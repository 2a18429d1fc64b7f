use angular_sort::wide::compare_products;
use angular_sort::wide::compare_scaled;
use angular_sort::wide::wide_mul;

#[test]
fn wide_products_of_small_numbers() {
    assert_eq!(wide_mul(0, 0), (0, 0));
    assert_eq!(wide_mul(7, 6), (0, 42));
    assert_eq!(wide_mul(u128::MAX, 1), (0, u128::MAX));
    assert_eq!(wide_mul(1, u128::MAX), (0, u128::MAX));
}

#[test]
fn wide_products_that_need_the_upper_half() {
    // 2^64 * 2^64 = 2^128.
    assert_eq!(wide_mul(1 << 64, 1 << 64), (1, 0));
    // 2^127 * 2 = 2^128.
    assert_eq!(wide_mul(1 << 127, 2), (1, 0));
    // (2^128 - 1)^2 = 2^256 - 2^129 + 1.
    assert_eq!(wide_mul(u128::MAX, u128::MAX), (u128::MAX - 1, 1));
    // (2^64 + 3) * (2^64 + 5) = 2^128 + 8 * 2^64 + 15.
    assert_eq!(wide_mul((1 << 64) + 3, (1 << 64) + 5), (1, (8 << 64) + 15));
    // (2^100 + 1) * (2^100 - 1) = 2^200 - 1.
    assert_eq!(wide_mul((1 << 100) + 1, (1 << 100) - 1), ((1 << 72) - 1, u128::MAX));
}

#[test]
fn products_compared_by_sign() {
    assert_eq!(compare_products(3, 4, 5, 2), 1);
    assert_eq!(compare_products(3, 4, 6, 2), 0);
    assert_eq!(compare_products(3, 4, 7, 2), -1);
    assert_eq!(compare_products(-3, 4, 1, 1), -1);
    assert_eq!(compare_products(-3, -4, -1, 1), 1);
    assert_eq!(compare_products(0, 9, 0, -9), 0);
    assert_eq!(compare_products(0, 9, 1, -9), 1);
    assert_eq!(compare_products(0, 9, -1, -9), -1);
    assert_eq!(compare_products(-3, 4, -2, 5), -1);
    assert_eq!(compare_products(-3, 4, 2, -7), 1);
    assert_eq!(compare_products(-3, 4, 6, -2), 0);
}

#[test]
fn products_compared_beyond_128_bits() {
    let big = 1_i128 << 100;
    assert_eq!(compare_products(big, big, big + 1, big - 1), 1);
    assert_eq!(compare_products(big + 1, big - 1, big, big), -1);
    assert_eq!(compare_products(big, big, 2 * big, big / 2), 0);
    assert_eq!(compare_products(-big, big, big + 1, 1 - big), -1);
    assert_eq!(compare_products(-big, big, -2 * big, big / 2), 0);
    assert_eq!(compare_products(i128::MIN, i128::MIN, i128::MAX, i128::MAX), 1);
    assert_eq!(compare_products(i128::MIN, i128::MAX, i128::MAX, i128::MIN), 0);
    assert_eq!(compare_products(i128::MIN, i128::MAX, i128::MIN, i128::MIN), -1);
    assert_eq!(compare_products(i128::MIN, 1, i128::MAX, -1), -1);
}

#[test]
fn scaled_numbers_compared() {
    let big = 1_i128 << 120;
    assert_eq!(compare_scaled(big, 3, big, 2), 1);
    assert_eq!(compare_scaled(-big, 3, -big, 2), -1);
    assert_eq!(compare_scaled(big, i64::MAX, big + 1, i64::MAX), -1);
    assert_eq!(compare_scaled(3 * big, 2, 2 * big, 3), 0);
}
