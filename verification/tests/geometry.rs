use world_actor::geometry::{gap, in_range};

#[test]
fn gap_is_the_absolute_difference() {
    assert_eq!(gap(0, 0), 0);
    assert_eq!(gap(5, -3), 8);
    assert_eq!(gap(-3, 5), 8);
    assert_eq!(gap(i32::MIN, i32::MAX), 4_294_967_295);
    assert_eq!(gap(i32::MAX, i32::MIN), 4_294_967_295);
}

#[test]
fn boundary_counts_as_within() {
    assert!(in_range((0, 0, 0), 10, (10, 0, 0)));
    assert!(in_range((0, 0, 0), 10, (0, -10, 0)));
    assert!(!in_range((0, 0, 0), 10, (11, 0, 0)));
}

#[test]
fn distance_is_euclidean() {
    // 3-4-5 triangle: exactly on the boundary of radius 5.
    assert!(in_range((0, 0, 0), 5, (3, 4, 0)));
    assert!(!in_range((0, 0, 0), 4, (3, 4, 0)));
    // 6*6 + 6*6 + 6*6 = 108 > 100, although every axis gap is below 10.
    assert!(!in_range((0, 0, 0), 10, (6, 6, 6)));
    // 5*5 + 5*5 + 7*7 = 99 <= 100.
    assert!(in_range((0, 0, 0), 10, (5, 5, 7)));
}

#[test]
fn radius_zero_sees_only_its_centre() {
    assert!(in_range((7, -7, 7), 0, (7, -7, 7)));
    assert!(!in_range((7, -7, 7), 0, (7, -7, 8)));
}

#[test]
fn extreme_coordinates_do_not_overflow() {
    assert!(!in_range((i32::MIN, i32::MIN, i32::MIN), u16::MAX, (i32::MAX, i32::MAX, i32::MAX)));
    assert!(in_range((i32::MAX, i32::MIN, 0), u16::MAX, (i32::MAX - 65_535, i32::MIN, 0)));
    assert!(!in_range((i32::MAX, i32::MIN, 0), u16::MAX, (i32::MAX - 65_535, i32::MIN + 1, 0)));
}
