use angular_sort::find_center;
use angular_sort::CenterError;
use angular_sort::Point;

#[test]
fn centroid_of_six_points() {
    let list = vec![
        Point::new(-2, 3),
        Point::new(9, 1),
        Point::new(2, 2),
        Point::new(-2, -2),
        Point::new(-3, 1),
        Point::new(2, -1),
    ];
    let center = find_center(&list).unwrap();
    // The sums are 6 and 4 over 6 points: the centre is (1, 2/3).
    assert_eq!((center.x(), center.y(), center.w()), (6, 4, 6));
    assert_eq!(center, Point::rational(3, 2, 3).unwrap());
    assert_ne!(center, Point::new(1, 1));
}

#[test]
fn centroid_of_one_point_is_the_point() {
    let center = find_center(&[Point::new(-7, 5)]).unwrap();
    assert_eq!((center.x(), center.y(), center.w()), (-7, 5, 1));
}

#[test]
fn centroid_of_nothing_is_an_error() {
    let list: Vec<Point> = Vec::new();
    assert_eq!(find_center(&list), Err(CenterError::EmptyInput));
}

#[test]
fn centroid_of_rational_points() {
    // (1/2 + 1/3) / 2 = 5/12 and (0 + 2/3) / 2 = 1/3 = 4/12.
    let list = vec![Point::rational(1, 0, 2).unwrap(), Point::rational(1, 2, 3).unwrap()];
    let center = find_center(&list).unwrap();
    assert_eq!((center.x(), center.y(), center.w()), (5, 4, 12));
    assert_eq!(center, Point::rational(5, 4, 12).unwrap());
}

#[test]
fn centroid_of_centroids() {
    let left = find_center(&[Point::new(0, 0), Point::new(1, 0)]).unwrap();
    let right = find_center(&[Point::new(2, 0), Point::new(3, 4)]).unwrap();
    let center = find_center(&[left, right]).unwrap();
    // ((1/2 + 5/2) / 2, (0 + 2) / 2) = (3/2, 1).
    assert_eq!(center, Point::rational(3, 2, 2).unwrap());
    assert_eq!((center.x(), center.y(), center.w()), (12, 8, 8));
}

#[test]
fn centroid_whose_sum_is_too_large() {
    let list = vec![Point::new(i64::MAX, 0), Point::new(1, 0)];
    assert_eq!(find_center(&list), Err(CenterError::OutOfRange));
    let list = vec![Point::new(0, i64::MIN), Point::new(0, -1)];
    assert_eq!(find_center(&list), Err(CenterError::OutOfRange));
}

#[test]
fn centroid_whose_sum_just_fits() {
    let list = vec![Point::new(i64::MAX, i64::MIN), Point::new(0, 0)];
    let center = find_center(&list).unwrap();
    assert_eq!((center.x(), center.y(), center.w()), (i64::MAX, i64::MIN, 2));
}

#[test]
fn centroid_whose_partial_sums_leave_the_range() {
    let list = vec![
        Point::new(i64::MAX, i64::MIN),
        Point::new(i64::MAX, i64::MIN),
        Point::new(i64::MIN, i64::MAX),
        Point::new(i64::MIN, i64::MAX),
    ];
    let center = find_center(&list).unwrap();
    assert_eq!((center.x(), center.y(), center.w()), (-2, -2, 4));
    assert_eq!(center, Point::rational(-1, -1, 2).unwrap());
}

#[test]
fn centroid_whose_weight_is_too_large() {
    let heavy = Point::rational(1, 1, 4_294_967_296).unwrap();
    let list = vec![heavy, heavy];
    assert_eq!(find_center(&list), Err(CenterError::OutOfRange));
    let list = vec![Point::rational(1, 1, i64::MAX).unwrap(), Point::new(0, 0)];
    assert_eq!(find_center(&list), Err(CenterError::OutOfRange));
}

#[test]
fn rational_points_need_a_positive_weight() {
    assert!(Point::rational(1, 2, 0).is_none());
    assert!(Point::rational(1, 2, -3).is_none());
    assert!(Point::rational(1, 2, 1).is_some());
}

#[test]
fn equal_points_may_have_different_weights() {
    assert_eq!(Point::rational(2, 4, 2).unwrap(), Point::new(1, 2));
    assert_eq!(Point::rational(-3, 6, 9).unwrap(), Point::rational(-1, 2, 3).unwrap());
    assert_ne!(Point::rational(2, 4, 3).unwrap(), Point::new(1, 2));
    assert_ne!(Point::new(1, 2), Point::new(2, 1));
    assert_ne!(Point::new(1, 2), Point::new(1, 3));
}
