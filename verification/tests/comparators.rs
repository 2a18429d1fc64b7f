use std::cmp::Ordering;

use angular_sort::less;
use angular_sort::sort_by_atan2;
use angular_sort::Point;

#[test]
fn right_half_comes_before_left_half() {
    let center = Point::new(1, 1);
    let right = [Point::new(1, 9), Point::new(1, -9), Point::new(5, 0), Point::new(1, 1)];
    let left = [Point::new(0, 9), Point::new(0, -9), Point::new(-5, 1)];
    for a in right.iter() {
        for b in left.iter() {
            assert_eq!(less(&center, a, b), Ordering::Less);
            assert_eq!(less(&center, b, a), Ordering::Greater);
        }
    }
}

#[test]
fn right_half_is_decided_by_exact_fractions() {
    let center = Point::rational(1, 0, 3).unwrap();
    let a = Point::rational(2, -5, 6).unwrap();
    let b = Point::rational(333_333, 5, 1_000_000).unwrap();
    // a.x = 1/3 is at the centre, b.x is just left of it.
    assert_eq!(less(&center, &a, &b), Ordering::Less);
    assert_eq!(less(&center, &b, &a), Ordering::Greater);
}

#[test]
fn farther_point_on_a_ray_comes_first() {
    let center = Point::new(0, 0);
    let near = Point::new(2, 0);
    let far = Point::new(4, 0);
    assert_eq!(less(&center, &far, &near), Ordering::Less);
    assert_eq!(less(&center, &near, &far), Ordering::Greater);
    let near = Point::new(-1, -2);
    let far = Point::new(-3, -6);
    assert_eq!(less(&center, &far, &near), Ordering::Less);
    assert_eq!(less(&center, &near, &far), Ordering::Greater);
}

#[test]
fn farther_point_on_a_ray_with_weights() {
    let center = Point::rational(1, 1, 2).unwrap();
    // Offsets (1/2, 1/4) and (1/3, 1/6): one ray, the first is farther.
    let far = Point::rational(4, 3, 4).unwrap();
    let near = Point::rational(5, 4, 6).unwrap();
    assert_eq!(less(&center, &far, &near), Ordering::Less);
    assert_eq!(less(&center, &near, &far), Ordering::Greater);
}

#[test]
fn polar_order_ignores_distance() {
    let center = Point::new(0, 0);
    let near = Point::new(2, 0);
    let far = Point::new(4, 0);
    assert_eq!(sort_by_atan2(&center, &near, &far), Ordering::Equal);
    assert_eq!(sort_by_atan2(&center, &far, &near), Ordering::Equal);
    let near = Point::new(-1, 3);
    let far = Point::new(-2, 6);
    assert_eq!(sort_by_atan2(&center, &near, &far), Ordering::Equal);
}

#[test]
fn points_on_the_vertical_through_the_centre() {
    let center = Point::new(3, 0);
    let top = Point::new(3, 5);
    let above = Point::new(3, 1);
    let at = Point::new(3, 0);
    let below = Point::new(3, -1);
    let bottom = Point::new(3, -5);
    assert_eq!(less(&center, &top, &above), Ordering::Less);
    assert_eq!(less(&center, &above, &top), Ordering::Greater);
    assert_eq!(less(&center, &above, &below), Ordering::Less);
    assert_eq!(less(&center, &below, &above), Ordering::Greater);
    assert_eq!(less(&center, &at, &below), Ordering::Less);
    assert_eq!(less(&center, &above, &at), Ordering::Less);
    // Both below the centre: the lower one comes first.
    assert_eq!(less(&center, &bottom, &below), Ordering::Less);
    assert_eq!(less(&center, &below, &bottom), Ordering::Greater);
}

#[test]
fn sweep_is_clockwise() {
    let center = Point::new(0, 0);
    let sweep = [
        Point::new(0, 2),
        Point::new(1, 2),
        Point::new(2, 0),
        Point::new(1, -2),
        Point::new(0, -2),
        Point::new(-1, -2),
        Point::new(-2, 0),
        Point::new(-1, 2),
    ];
    for i in 0..sweep.len() {
        for j in 0..sweep.len() {
            let expected = if i < j { Ordering::Less } else { Ordering::Greater };
            assert_eq!(less(&center, &sweep[i], &sweep[j]), expected, "{} {}", i, j);
        }
    }
}

#[test]
fn sweep_never_reports_equal() {
    let center = Point::new(0, 0);
    let p = Point::new(3, 4);
    assert_eq!(less(&center, &p, &p), Ordering::Greater);
    assert_eq!(less(&center, &center, &center), Ordering::Greater);
    assert_eq!(less(&center, &p, &Point::rational(6, 8, 2).unwrap()), Ordering::Greater);
}

#[test]
fn centre_itself_in_the_sweep() {
    let center = Point::new(0, 0);
    // After every point to its right, before the points straight below.
    assert_eq!(less(&center, &Point::new(1, -7), &center), Ordering::Less);
    assert_eq!(less(&center, &center, &Point::new(1, -7)), Ordering::Greater);
    assert_eq!(less(&center, &center, &Point::new(0, -7)), Ordering::Less);
    assert_eq!(less(&center, &Point::new(0, 7), &center), Ordering::Less);
    assert_eq!(less(&center, &center, &Point::new(-1, 7)), Ordering::Less);
}

#[test]
fn polar_order_runs_from_half_turn_downwards() {
    let center = Point::new(0, 0);
    let by_angle = [
        Point::new(-2, 0),
        Point::new(-1, 2),
        Point::new(0, 2),
        Point::new(1, 2),
        Point::new(2, 0),
        Point::new(1, -2),
        Point::new(0, -2),
        Point::new(-1, -2),
    ];
    for i in 0..by_angle.len() {
        for j in 0..by_angle.len() {
            let expected = i.cmp(&j);
            assert_eq!(sort_by_atan2(&center, &by_angle[i], &by_angle[j]), expected, "{} {}", i, j);
        }
    }
}

#[test]
fn polar_angle_of_the_centre_is_zero() {
    let center = Point::new(5, 5);
    assert_eq!(sort_by_atan2(&center, &center, &Point::new(9, 5)), Ordering::Equal);
    assert_eq!(sort_by_atan2(&center, &center, &Point::new(5, 9)), Ordering::Greater);
    assert_eq!(sort_by_atan2(&center, &center, &Point::new(5, 1)), Ordering::Less);
    assert_eq!(sort_by_atan2(&center, &center, &Point::new(1, 5)), Ordering::Greater);
}

#[test]
fn nearly_parallel_directions_far_from_the_centre() {
    // Offsets (2^62, 2^62 + 1) and (2^62 - 1, 2^62): the cross product is
    // 2^62 * 2^62 - (2^62 - 1) * (2^62 + 1) = 1, so the second is the
    // steeper by a hair.
    let center = Point::new(0, 0);
    let big = 1_i64 << 62;
    let a = Point::new(big, big + 1);
    let b = Point::new(big - 1, big);
    assert_eq!(less(&center, &b, &a), Ordering::Less);
    assert_eq!(less(&center, &a, &b), Ordering::Greater);
    assert_eq!(sort_by_atan2(&center, &b, &a), Ordering::Less);
    assert_eq!(sort_by_atan2(&center, &a, &b), Ordering::Greater);
    // One ray: (2^61, 2^61) and (2^62, 2^62).
    let near = Point::new(big / 2, big / 2);
    let far = Point::new(big, big);
    assert_eq!(less(&center, &far, &near), Ordering::Less);
    assert_eq!(less(&center, &near, &far), Ordering::Greater);
    assert_eq!(sort_by_atan2(&center, &far, &near), Ordering::Equal);
    // The same ray, told apart only by the weights.
    let near = Point::rational(big, big, 3).unwrap();
    let far = Point::rational(big, big, 2).unwrap();
    assert_eq!(less(&center, &far, &near), Ordering::Less);
    assert_eq!(less(&center, &near, &far), Ordering::Greater);
}

#[test]
fn comparators_at_the_limits_of_the_coordinates() {
    let center = Point::rational(i64::MIN, i64::MIN, i64::MAX).unwrap();
    let a = Point::rational(i64::MAX, i64::MIN, i64::MAX).unwrap();
    let b = Point::rational(i64::MAX, i64::MAX, 1).unwrap();
    let c = Point::rational(i64::MIN, i64::MAX, 1).unwrap();
    assert_eq!(less(&center, &b, &a), Ordering::Less);
    assert_eq!(less(&center, &a, &b), Ordering::Greater);
    assert_eq!(sort_by_atan2(&center, &b, &a), Ordering::Less);
    assert_eq!(sort_by_atan2(&center, &a, &b), Ordering::Greater);
    assert_eq!(less(&center, &a, &c), Ordering::Less);
    assert_eq!(sort_by_atan2(&center, &c, &b), Ordering::Less);
}
