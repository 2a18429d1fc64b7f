use std::cmp::Ordering;

use angular_sort::find_center;
use angular_sort::less;
use angular_sort::sort_by_atan2;
use angular_sort::Point;

/// The rotation by the angle whose cosine is `cos / scale` and whose sine is
/// `sin / scale`, applied to a point with integer coordinates.
fn turn(cos: i64, sin: i64, scale: i64, p: &Point) -> Point {
    Point::rational(cos * p.x() - sin * p.y(), sin * p.x() + cos * p.y(), scale * p.w()).unwrap()
}

fn angle(center: &Point, p: &Point) -> f64 {
    let dx = p.x() as f64 / p.w() as f64 - center.x() as f64 / center.w() as f64;
    let dy = p.y() as f64 / p.w() as f64 - center.y() as f64 / center.w() as f64;
    dy.atan2(dx)
}

fn sample() -> Vec<Point> {
    [(6, 10), (-2, 3), (9, 1), (2, 2), (-2, -2), (-3, 1), (2, -1), (1, 7), (-4, -9), (0, 6)]
        .iter()
        .map(|&(x, y)| Point::new(x, y))
        .collect()
}

#[test]
fn rotation_cuts_the_sweep_order_in_two() {
    let center = Point::new(1, 1);
    let mut list = sample();
    list.sort_by(|a, b| less(&center, a, b));
    let in_sweep_order: Vec<Point> =
        [(1, 7), (6, 10), (2, 2), (9, 1), (2, -1), (-4, -9), (-2, -2), (-3, 1), (-2, 3), (0, 6)]
            .iter()
            .map(|&(x, y)| Point::new(x, y))
            .collect();
    assert_eq!(list, in_sweep_order);

    // cos = 3/5, sin = 4/5: a rotation by about 53 degrees.  Only (0, 6),
    // at 101 degrees from the centre, is carried past the half turn.
    let turned: Vec<Point> = list.iter().map(|p| turn(3, 4, 5, p)).collect();
    let turned_center = turn(3, 4, 5, &center);
    let mut by_angle = turned.clone();
    by_angle.sort_by(|a, b| sort_by_atan2(&turned_center, a, b));
    let mut expected = turned[9..].to_vec();
    expected.extend_from_slice(&turned[..9]);
    assert_eq!(by_angle, expected);

    // A half turn: the three points of the first quarter of the sweep are
    // the only ones that stay below the image of "straight up".
    let turned: Vec<Point> = list.iter().map(|p| turn(-1, 0, 1, p)).collect();
    let turned_center = turn(-1, 0, 1, &center);
    let mut by_angle = turned.clone();
    by_angle.sort_by(|a, b| sort_by_atan2(&turned_center, a, b));
    let mut expected = turned[3..].to_vec();
    expected.extend_from_slice(&turned[..3]);
    assert_eq!(by_angle, expected);
}

#[test]
fn rotation_by_other_angles_keeps_the_cyclic_order() {
    let center = Point::new(1, 1);
    let mut list = sample();
    list.sort_by(|a, b| less(&center, a, b));
    let turns = [
        (3, 4, 5),
        (-3, 4, 5),
        (-4, -3, 5),
        (5, -12, 13),
        (0, 1, 1),
        (-1, 0, 1),
        (1, 0, 1),
        (0, -1, 1),
    ];
    for &(cos, sin, scale) in turns.iter() {
        let turned: Vec<Point> = list.iter().map(|p| turn(cos, sin, scale, p)).collect();
        let turned_center = turn(cos, sin, scale, &center);
        let mut by_angle = turned.clone();
        by_angle.sort_by(|a, b| sort_by_atan2(&turned_center, a, b));
        let cut = (0..turned.len()).find(|&k| by_angle[0] == turned[k]).unwrap();
        let mut expected = turned[cut..].to_vec();
        expected.extend_from_slice(&turned[..cut]);
        assert_eq!(by_angle, expected, "{} {} {}", cos, sin, scale);
    }
}

#[test]
fn a_pair_on_one_side_of_the_jump_keeps_its_order() {
    let center = Point::new(0, 0);
    let a = Point::new(1, 2);
    let b = Point::new(2, 1);
    assert_eq!(less(&center, &a, &b), Ordering::Less);
    // Turned by a right angle: (-2, 1) and (-1, 2), both below the half turn.
    assert_eq!(
        sort_by_atan2(&turn(0, 1, 1, &center), &turn(0, 1, 1, &a), &turn(0, 1, 1, &b)),
        Ordering::Less
    );
}

#[test]
fn a_pair_across_the_jump_changes_its_order() {
    let center = Point::new(0, 0);
    let a = Point::new(1, 2);
    let b = Point::new(-1, 2);
    assert_eq!(less(&center, &a, &b), Ordering::Less);
    // Unturned, "straight up" is the angle of a quarter turn: a lies below
    // it, b above it, so b has the larger angle.
    assert_eq!(sort_by_atan2(&center, &a, &b), Ordering::Greater);
}

#[test]
fn polar_order_agrees_with_the_arctangent() {
    let list = sample();
    for center in [Point::new(1, 1), find_center(&list).unwrap(), Point::new(-3, 5)].iter() {
        for a in list.iter() {
            for b in list.iter() {
                let expected = angle(center, b).partial_cmp(&angle(center, a)).unwrap();
                assert_eq!(sort_by_atan2(center, a, b), expected);
            }
        }
    }
}

#[test]
fn sweep_order_is_a_strict_total_order_on_a_sample() {
    let list = sample();
    let center = find_center(&list).unwrap();
    for a in list.iter() {
        for b in list.iter() {
            let ab = less(&center, a, b) == Ordering::Less;
            let ba = less(&center, b, a) == Ordering::Less;
            assert!(!(ab && ba));
            assert_eq!(ab || ba, a != b);
            for c in list.iter() {
                let bc = less(&center, b, c) == Ordering::Less;
                let ac = less(&center, a, c) == Ordering::Less;
                assert!(!(ab && bc) || ac);
            }
        }
    }
}

#[test]
fn orders_do_not_depend_on_the_weights() {
    let center = Point::new(1, 1);
    let heavy_center = Point::rational(7, 7, 7).unwrap();
    let list = sample();
    for a in list.iter() {
        for b in list.iter() {
            let heavy_a = Point::rational(3 * a.x(), 3 * a.y(), 3).unwrap();
            let heavy_b = Point::rational(5 * b.x(), 5 * b.y(), 5).unwrap();
            assert_eq!(less(&heavy_center, &heavy_a, &heavy_b), less(&center, a, b));
            assert_eq!(
                sort_by_atan2(&heavy_center, &heavy_a, &heavy_b),
                sort_by_atan2(&center, a, b)
            );
        }
    }
}
