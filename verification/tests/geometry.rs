use simulation::fixed::{clamp, magnitude_of, scale, ONE};
use simulation::utils::{
    get_intersection, lerp, poly_intersection_with_borders, poly_intersection_with_poly,
    polygon_edges, IntersectionPoint,
};

const U: i64 = 1_000_000;

#[test]
fn lerp_reaches_both_ends() {
    assert_eq!(lerp(10, 30, 0), 10);
    assert_eq!(lerp(10, 30, ONE), 30);
    assert_eq!(lerp(10, 30, 500_000), 20);
    assert_eq!(lerp(30, 10, 250_000), 25);
    assert_eq!(lerp(-3 * U, 3 * U, 500_000), 0);
}

#[test]
fn lerp_rounds_toward_the_start() {
    // 1/3 of the way from 0 to 10 is 3.33..., from 0 to -10 is -3.33...
    assert_eq!(lerp(0, 10, 333_333), 3);
    assert_eq!(lerp(0, -10, 333_333), -3);
}

#[test]
fn scale_rounds_toward_zero() {
    assert_eq!(scale(ONE, 7), 7);
    assert_eq!(scale(-ONE, 7), -7);
    assert_eq!(scale(500_000, 7), 3);
    assert_eq!(scale(-500_000, 7), -3);
    assert_eq!(scale(500_000, -7), -3);
    assert_eq!(scale(0, 7), 0);
}

#[test]
fn magnitude_and_clamp() {
    assert_eq!(magnitude_of(-5), 5);
    assert_eq!(magnitude_of(5), 5);
    assert_eq!(magnitude_of(i64::MIN), 9_223_372_036_854_775_808);
    assert_eq!(clamp(7, 0, 5), 5);
    assert_eq!(clamp(-7, 0, 5), 0);
    assert_eq!(clamp(3, 0, 5), 3);
}

#[test]
fn crossing_diagonals_meet_in_the_middle() {
    let hit = get_intersection((0, 0), (10, 10), (0, 10), (10, 0));
    assert_eq!(hit, Some(IntersectionPoint { x: 5, y: 5, offset: 500_000 }));
}

#[test]
fn crossing_point_lies_on_both_segments() {
    // a ray along y = 2 from x = 0 to x = 8 against an edge along x = 6
    let hit = get_intersection((0, 2 * U), (8 * U, 2 * U), (6 * U, -U), (6 * U, 5 * U));
    assert_eq!(hit, Some(IntersectionPoint { x: 6 * U, y: 2 * U, offset: 750_000 }));
}

#[test]
fn parallel_segments_do_not_meet() {
    assert_eq!(get_intersection((0, 0), (10, 0), (0, 5), (10, 5)), None);
    // collinear and overlapping: still no crossing
    assert_eq!(get_intersection((0, 0), (10, 0), (5, 0), (15, 0)), None);
}

#[test]
fn segments_that_stop_short_do_not_meet() {
    // the lines cross at (5, 5), past the end of the ray
    assert_eq!(get_intersection((0, 0), (4, 4), (0, 10), (10, 0)), None);
    // and here past the end of the edge
    assert_eq!(get_intersection((0, 0), (10, 10), (0, 10), (4, 6)), None);
}

#[test]
fn touching_at_an_end_counts() {
    let hit = get_intersection((0, 0), (10, 0), (10, -5), (10, 5));
    assert_eq!(hit, Some(IntersectionPoint { x: 10, y: 0, offset: ONE }));
    let hit = get_intersection((0, 0), (10, 0), (0, -5), (0, 5));
    assert_eq!(hit, Some(IntersectionPoint { x: 0, y: 0, offset: 0 }));
}

#[test]
fn polygon_edges_close_the_outline() {
    let square = [(0, 0), (4, 0), (4, 4), (0, 4)];
    let edges = polygon_edges(&square);
    assert_eq!(
        edges,
        vec![((0, 0), (4, 0)), ((4, 0), (4, 4)), ((4, 4), (0, 4)), ((0, 4), (0, 0))]
    );
    assert_eq!(polygon_edges(&[]), vec![]);
    assert_eq!(polygon_edges(&[(1, 2)]), vec![((1, 2), (1, 2))]);
}

#[test]
fn polygon_against_borders() {
    let square = [(-2 * U, -2 * U), (2 * U, -2 * U), (2 * U, 2 * U), (-2 * U, 2 * U)];
    let through = [((0, -100 * U), (0, 100 * U))];
    let beside = [((5 * U, -100 * U), (5 * U, 100 * U))];
    assert!(poly_intersection_with_borders(&square, &through));
    assert!(!poly_intersection_with_borders(&square, &beside));
    assert!(!poly_intersection_with_borders(&square, &[]));
    assert!(!poly_intersection_with_borders(&[], &through));
}

#[test]
fn polygon_against_polygon() {
    let a = [(0, 0), (4, 0), (4, 4), (0, 4)];
    let overlapping = [(2, 2), (6, 2), (6, 6), (2, 6)];
    let apart = [(10, 10), (14, 10), (14, 14), (10, 14)];
    let inside = [(1, 1), (3, 1), (3, 3), (1, 3)];
    assert!(poly_intersection_with_poly(&a, &overlapping));
    assert!(!poly_intersection_with_poly(&a, &apart));
    // outlines that do not touch do not collide, even one inside the other
    assert!(!poly_intersection_with_poly(&a, &inside));
    // the last edge, from the last corner back to the first, counts
    let crossing_last_edge = [(-1, 2), (1, 2), (1, 3), (-1, 3)];
    assert!(poly_intersection_with_poly(&a, &crossing_last_edge));
}
