use angular_sort::find_center;
use angular_sort::less;
use angular_sort::sort_by_atan2;
use angular_sort::Point;

fn points(coordinates: &[(i64, i64)]) -> Vec<Point> {
    coordinates.iter().map(|&(x, y)| Point::new(x, y)).collect()
}

#[test]
fn test_sort_by_atan2() {
    let mut list = points(&[(-2, 3), (14, 9), (7, 8), (2, 2), (-2, -2), (-3, 1), (2, -1)]);
    let center = find_center(&list).unwrap();
    list.sort_by(|a, b| sort_by_atan2(&center, a, b));
    let result = points(&[(-2, 3), (7, 8), (14, 9), (2, -1), (2, 2), (-2, -2), (-3, 1)]);
    assert_eq!(list == result, true);
}

#[test]
fn test_sort_by_atan2_fail() {
    let mut list =
        points(&[(-2, 3), (14, 9), (4, 6), (7, 8), (2, 2), (-2, -2), (-3, 1), (2, -1)]);
    let center = find_center(&list).unwrap();
    list.sort_by(|a, b| sort_by_atan2(&center, a, b));
    let result =
        points(&[(14, 9), (-2, 3), (4, 6), (7, 8), (2, 2), (-2, -2), (-3, 1), (2, -1)]);
    assert_ne!(list == result, true);
}

#[test]
fn test_sort_with_less() {
    let mut list = points(&[(6, 10), (-2, 3), (9, 1), (2, 2), (-2, -2), (-3, 1), (2, -1)]);
    let center = find_center(&list).unwrap();
    list.sort_by(|a, b| less(&center, a, b));
    let result = points(&[(6, 10), (2, 2), (9, 1), (2, -1), (-2, -2), (-3, 1), (-2, 3)]);
    assert_eq!(list == result, true);
}

#[test]
fn test_sort_with_less_fail() {
    let mut list =
        points(&[(6, 10), (-2, 3), (10, 4), (9, 1), (2, 2), (-2, -2), (-3, 1), (2, -1)]);
    let center = find_center(&list).unwrap();
    list.sort_by(|a, b| less(&center, a, b));
    let result =
        points(&[(-2, 3), (6, 10), (10, 4), (9, 1), (2, 2), (-2, -2), (-3, 1), (2, -1)]);
    assert_ne!(list == result, true);
}

#[test]
fn test_sort_by_atan2_custom_center() {
    let mut list =
        points(&[(3, 9), (11, 5), (-2, 3), (7, 8), (2, 2), (-2, -2), (-3, 1), (2, -1)]);
    let center = Point::new(1, 4);
    list.sort_by(|a, b| sort_by_atan2(&center, a, b));
    let result =
        points(&[(3, 9), (7, 8), (11, 5), (2, 2), (2, -1), (-2, -2), (-3, 1), (-2, 3)]);
    assert_eq!(list == result, true);
}

#[test]
fn test_sort_by_atan2_custom_center_fail() {
    let mut list = points(&[
        (3, 9),
        (11, 5),
        (7, 8),
        (-2, 3),
        (7, 8),
        (2, 2),
        (-2, -2),
        (-3, 1),
        (2, -1),
    ]);
    let center = Point::new(1, 4);
    list.sort_by(|a, b| sort_by_atan2(&center, a, b));
    let result = points(&[
        (11, 5),
        (3, 9),
        (7, 8),
        (-2, 3),
        (7, 8),
        (2, 2),
        (-2, -2),
        (-3, 1),
        (2, -1),
    ]);
    assert_ne!(list == result, true);
}

#[test]
fn sort_with_less_exact_order_of_the_larger_list() {
    let mut list =
        points(&[(6, 10), (-2, 3), (10, 4), (9, 1), (2, 2), (-2, -2), (-3, 1), (2, -1)]);
    let center = find_center(&list).unwrap();
    list.sort_by(|a, b| less(&center, a, b));
    // The centroid is (11/4, 9/4), so (2, 2) and (2, -1) lie left of it.
    let result =
        points(&[(6, 10), (10, 4), (9, 1), (2, -1), (-2, -2), (2, 2), (-3, 1), (-2, 3)]);
    assert_eq!(list, result);
}

#[test]
fn polar_sort_around_the_centroid_matches_angles_worked_out_by_hand() {
    // Centroid (2/3, 11/6); angles in degrees, to one decimal:
    // (-2,3) 156.4, (7,8) 44.2, (2,2) 7.1, (2,-1) -64.8, (-2,-2) -124.8, (-3,1) -167.2.
    let mut list = points(&[(-2, 3), (7, 8), (2, 2), (-2, -2), (-3, 1), (2, -1)]);
    let center = find_center(&list).unwrap();
    list.sort_by(|a, b| sort_by_atan2(&center, a, b));
    let result = points(&[(-2, 3), (7, 8), (2, 2), (2, -1), (-2, -2), (-3, 1)]);
    assert_eq!(list, result);
}

#[test]
fn sorting_a_sorted_list_again_changes_nothing() {
    let mut list = points(&[(6, 10), (-2, 3), (9, 1), (2, 2), (-2, -2), (-3, 1), (2, -1)]);
    let center = find_center(&list).unwrap();
    list.sort_by(|a, b| less(&center, a, b));
    let once = list.clone();
    list.sort_by(|a, b| less(&center, a, b));
    assert_eq!(list, once);

    let mut list = points(&[(3, 9), (11, 5), (7, 8), (-2, 3), (7, 8), (2, 2), (4, 4), (6, 4)]);
    let center = Point::new(1, 4);
    list.sort_by(|a, b| sort_by_atan2(&center, a, b));
    let once = list.clone();
    list.sort_by(|a, b| sort_by_atan2(&center, a, b));
    assert_eq!(list, once);
}

#[test]
fn quarter_turn_carries_the_sweep_order_to_the_polar_order() {
    let mut list = points(&[(6, 10), (-2, 3), (9, 1), (2, 2), (-2, -2), (-3, 1), (2, -1)]);
    let center = Point::new(1, 1);
    list.sort_by(|a, b| less(&center, a, b));
    let turned: Vec<Point> = list.iter().map(|p| Point::new(-p.y(), p.x())).collect();
    let turned_center = Point::new(-1, 1);
    let mut again = turned.clone();
    again.sort_by(|a, b| sort_by_atan2(&turned_center, a, b));
    assert_eq!(again, turned);
}
