use breakout::fixed::Fixed;
use breakout::math::aabb_vs_aabb;
use breakout::math::clamp;
use breakout::math::line_intersection;
use breakout::math::swept_aabb2;
use breakout::math::Line2;
use breakout::math::Rect2;
use breakout::math::Vec2;

fn n(i: i32) -> Fixed {
    Fixed::from_int(i)
}

fn v(x: i32, y: i32) -> Vec2 {
    Vec2::new(Fixed::from_int(x), Fixed::from_int(y))
}

#[test]
fn test_swept_aabb2() {
    let object_center = v(0, 10);
    let object_velocity = v(0, -5);
    let object_radius = v(1, 1);

    let obstacle_center = v(0, -20);
    let obstacle_velocity = v(0, 50);
    let obstacle_radius = v(10, 1);

    let collision = swept_aabb2(
        &Line2::new(object_center, object_center + object_velocity),
        object_radius,
        obstacle_center,
        obstacle_radius,
    );
    assert!(collision.is_none());

    let collision = swept_aabb2(
        &Line2::new(
            object_center,
            object_center + object_velocity - obstacle_velocity,
        ),
        object_radius,
        obstacle_center,
        object_radius,
    );
    assert!(collision.is_some());
    let collision = collision.unwrap();
    assert!(collision.t >= n(0) && collision.t <= n(1));
}

#[test]
fn test_reflect() {
    let normal = v(-1, 0);
    assert_eq!(v(1, 0).reflect(&normal), v(-1, 0));
}

#[test]
fn sweep_reports_the_time_and_the_side_of_the_first_touch() {
    let collision = swept_aabb2(&Line2::new(v(0, 10), v(0, -45)), v(1, 1), v(0, -20), v(1, 1))
        .unwrap();
    assert_eq!(collision.t.raw, 2135282);
    assert_eq!(collision.normal, v(0, 1));

    let from_below = swept_aabb2(&Line2::new(v(0, -30), v(0, -10)), v(1, 1), v(0, -20), v(1, 1))
        .unwrap();
    assert_eq!(from_below.t, Fixed::ratio(2, 5));
    assert_eq!(from_below.normal, v(0, -1));

    let from_left = swept_aabb2(&Line2::new(v(-10, -20), v(10, -20)), v(1, 1), v(0, -20), v(1, 1))
        .unwrap();
    assert_eq!(from_left.t, Fixed::ratio(2, 5));
    assert_eq!(from_left.normal, v(-1, 0));

    let from_right = swept_aabb2(&Line2::new(v(10, -20), v(-10, -20)), v(1, 1), v(0, -20), v(1, 1))
        .unwrap();
    assert_eq!(from_right.t, Fixed::ratio(2, 5));
    assert_eq!(from_right.normal, v(1, 0));
}

#[test]
fn sweep_breaks_ties_by_the_order_of_the_sides() {
    // Into the upper right corner: the top and the right side are crossed
    // at the same time, and the top comes first.
    let collision = swept_aabb2(&Line2::new(v(2, 2), v(0, 0)), v(0, 0), v(0, 0), v(1, 1)).unwrap();
    assert_eq!(collision.t, Fixed::ratio(1, 2));
    assert_eq!(collision.normal, v(0, 1));

    // Into the lower left corner: the bottom comes before the left side.
    let collision = swept_aabb2(&Line2::new(v(-2, -2), v(0, 0)), v(0, 0), v(0, 0), v(1, 1))
        .unwrap();
    assert_eq!(collision.t, Fixed::ratio(1, 2));
    assert_eq!(collision.normal, v(0, -1));
}

#[test]
fn sweep_finds_nothing_for_a_mover_at_rest_or_moving_past() {
    assert!(swept_aabb2(&Line2::new(v(0, 10), v(0, 10)), v(1, 1), v(0, 0), v(1, 1)).is_none());
    assert!(swept_aabb2(&Line2::new(v(5, 10), v(5, -10)), v(1, 1), v(0, 0), v(1, 1)).is_none());
    assert!(swept_aabb2(&Line2::new(v(0, 10), v(0, 3)), v(1, 1), v(0, 0), v(1, 1)).is_none());
}

#[test]
fn sweep_counts_a_touch_at_the_very_end_of_the_movement() {
    let collision = swept_aabb2(&Line2::new(v(0, 10), v(0, 2)), v(1, 1), v(0, 0), v(1, 1)).unwrap();
    assert_eq!(collision.t, n(1));
    assert_eq!(collision.normal, v(0, 1));
}

#[test]
fn parallel_lines_do_not_intersect() {
    assert_eq!(line_intersection(n(0), n(0), n(1), n(1), n(0), n(1), n(1), n(2)), None);
    assert_eq!(line_intersection(n(0), n(0), n(4), n(0), n(0), n(3), n(9), n(3)), None);
    // A segment of no length has no direction.
    assert_eq!(line_intersection(n(1), n(1), n(1), n(1), n(0), n(0), n(2), n(0)), None);
}

#[test]
fn crossing_lines_give_both_parameters() {
    // The diagonals of a square of side two cross in their middles.
    assert_eq!(
        line_intersection(n(0), n(0), n(2), n(2), n(0), n(2), n(2), n(0)),
        Some((Fixed::ratio(1, 2), Fixed::ratio(1, 2)))
    );
    // The lines cross beyond the end of the first segment.
    assert_eq!(
        line_intersection(n(0), n(0), n(1), n(0), n(3), n(-1), n(3), n(1)),
        Some((n(3), Fixed::ratio(1, 2)))
    );
    // And before the start of the second.
    assert_eq!(
        line_intersection(n(0), n(0), n(4), n(0), n(1), n(1), n(1), n(3)),
        Some((Fixed::ratio(1, 4), Fixed::ratio(-1, 2)))
    );
    // Quotients are rounded toward zero.
    assert_eq!(
        line_intersection(n(0), n(0), n(3), n(0), n(1), n(-1), n(1), n(2)),
        Some((Fixed::from_raw(1398101), Fixed::from_raw(1398101)))
    );
}

#[test]
fn vectors_add_subtract_and_scale() {
    assert_eq!(v(1, 2) + v(3, -5), v(4, -3));
    assert_eq!(v(1, 2) - v(3, -5), v(-2, 7));
    assert_eq!(&v(1, 2) - v(3, -5), v(-2, 7));
    assert_eq!(&v(1, 2) - &v(3, -5), v(-2, 7));
    assert_eq!(-v(1, -2), v(-1, 2));
    assert_eq!(v(1, -2) * n(3), v(3, -6));
    assert_eq!(&v(1, -2) * n(3), v(3, -6));
    assert_eq!(n(3) * &v(1, -2), v(3, -6));
    assert_eq!(v(3, -6) / n(3), v(1, -2));
    assert_eq!(v(1, 1) / Fixed::ratio(1, 64), v(64, 64));
    assert_eq!(Vec2::zero(), v(0, 0));
    assert_eq!(Vec2::default(), v(0, 0));
}

#[test]
fn dot_and_cross_products() {
    assert_eq!(v(1, 2) * v(3, 4), n(11));
    assert_eq!(&v(1, 2) * &v(3, 4), n(11));
    assert_eq!(v(1, 2).dot_with(v(3, 4)), n(11));
    assert_eq!(v(1, 0) * v(0, 1), n(0));
    assert_eq!(v(1, 2).cross(&v(3, 4)), n(-2));
    assert_eq!(v(1, 0).cross(&v(0, 1)), n(1));
    assert_eq!(v(3, 4).len2(), n(25));
    // The sum of the products is rounded once.
    let tiny = Vec2::new(Fixed::from_raw(1448), Fixed::from_raw(1448));
    assert_eq!((tiny * tiny).raw, 0);
    let small = Vec2::new(Fixed::from_raw(1449), Fixed::from_raw(1449));
    assert_eq!((small * small).raw, 1);
}

#[test]
fn length_and_direction() {
    assert_eq!(v(3, 4).len(), n(5));
    assert_eq!(v(-3, 4).len(), n(5));
    assert_eq!(v(0, 0).len(), n(0));
    assert_eq!(Vec2::new(Fixed::from_raw(1), Fixed::from_raw(1)).len().raw, 1);
    assert_eq!(v(8, 0).normalized(), v(1, 0));
    assert_eq!(v(0, -8).normalized(), v(0, -1));
    assert_eq!(
        v(3, 4).normalized(),
        Vec2::new(Fixed::from_raw(2516582), Fixed::from_raw(3355443))
    );
    assert!(v(0, 0).is_zero());
    assert!(!Vec2::new(Fixed::from_raw(1), Fixed::zero()).is_zero());
}

#[test]
fn the_zero_vector_normalizes_to_itself() {
    assert_eq!(v(0, 0).normalized(), v(0, 0));
}

#[test]
fn perpendicular_is_a_quarter_turn_counterclockwise() {
    assert_eq!(v(1, 0).perp(), v(0, 1));
    assert_eq!(v(0, 1).perp(), v(-1, 0));
    assert_eq!(v(3, -2).perp(), v(2, 3));
}

#[test]
fn reflection_mirrors_across_the_normal() {
    assert_eq!(v(3, -4).reflect(&v(0, 1)), v(3, 4));
    assert_eq!(v(3, -4).reflect(&v(0, -1)), v(3, 4));
    assert_eq!(v(3, -4).reflect(&v(1, 0)), v(-3, -4));
    assert_eq!(v(-30, -40).reflect(&v(0, 1)), v(-30, 40));
    // Without a normal nothing is mirrored.
    assert_eq!(v(3, -4).reflect(&v(0, 0)), v(3, -4));
    // No product on the way is too large to be held.
    assert_eq!(v(20000, 0).reflect(&v(-1, 0)), v(-20000, 0));
    assert_eq!(v(-524288, 524287).reflect(&v(0, 1)), v(-524288, -524287));
    assert_eq!(v(20000, -30000).reflect(&v(1, 0)).reflect(&v(1, 0)), v(20000, -30000));
    // Also at the ends of the range.
    assert_eq!(
        Vec2::new(Fixed::from_raw(i64::MIN), n(0)).reflect(&v(1, 0)),
        Vec2::new(Fixed::from_raw(i64::MAX), n(0))
    );
    // The whole is rounded once: off a slanted surface of (0.6, 0.8).
    let slanted = Vec2::new(Fixed::from_raw(2516582), Fixed::from_raw(3355443));
    assert_eq!(
        v(0, -10).reflect(&slanted),
        Vec2::new(Fixed::from_raw(40265309), Fixed::from_raw(11744044))
    );
}

#[test]
fn segments_are_walked_by_their_parameter() {
    let mut line = Line2::new(v(1, 1), v(5, 9));
    assert_eq!(line.vec(), v(4, 8));
    assert_eq!(line.point(n(0)), v(1, 1));
    assert_eq!(line.point(n(1)), v(5, 9));
    assert_eq!(line.point(Fixed::ratio(1, 4)), v(2, 3));
    line.truncate(Fixed::ratio(1, 2));
    assert_eq!(line.start, v(1, 1));
    assert_eq!(line.end, v(3, 5));
}

#[test]
fn boxes_grow_by_the_extent_of_another() {
    let a = Rect2 { center: v(1, 2), radius: v(3, 4) };
    let b = Rect2 { center: v(9, 9), radius: v(1, 2) };
    let sum = a.minkowski_sum(&b);
    assert_eq!(sum.center, v(1, 2));
    assert_eq!(sum.radius, v(4, 6));
    assert_eq!(Rect2::zero().center, v(0, 0));
    assert_eq!(Rect2::zero().radius, v(0, 0));
}

#[test]
fn clamp_keeps_a_value_between_its_bounds() {
    assert_eq!(clamp(0, -5, 10), 0);
    assert_eq!(clamp(0, 5, 10), 5);
    assert_eq!(clamp(0, 15, 10), 10);
    assert_eq!(clamp(0, 0, 10), 0);
    assert_eq!(clamp(0, 10, 10), 10);
    assert_eq!(clamp(n(0), n(3), n(2)), n(2));
    // With the bounds the wrong way round the lower one wins below it.
    assert_eq!(clamp(0, -1, -1), 0);
    assert_eq!(clamp(0, 5, -1), -1);
}

#[test]
fn boxes_that_touch_overlap() {
    assert!(aabb_vs_aabb(v(0, 0), v(1, 1), v(1, 1), v(1, 1)));
    assert!(aabb_vs_aabb(v(0, 0), v(1, 1), v(2, 0), v(1, 1)));
    assert!(!aabb_vs_aabb(v(0, 0), v(1, 1), v(3, 0), v(1, 1)));
    assert!(!aabb_vs_aabb(v(0, 0), v(1, 1), v(0, -3), v(1, 1)));
    assert!(aabb_vs_aabb(v(0, 0), v(5, 5), v(1, 1), v(1, 1)));
}
