use particle_background::fixed::LIMIT;
use particle_background::point::{direct, Point};

fn at(x: i64, y: i64) -> Point {
    Point { x, y, xv: 0, yv: 0 }
}

fn moving(x: i64, y: i64, xv: i64, yv: i64) -> Point {
    Point { x, y, xv, yv }
}

#[test]
fn is_valid_tells_points_within_the_limit() {
    assert!(at(0, 0).is_valid());
    assert!(moving(LIMIT, -LIMIT, LIMIT, -LIMIT).is_valid());
    assert!(!moving(LIMIT + 1, 0, 0, 0).is_valid());
    assert!(!moving(0, -LIMIT - 1, 0, 0).is_valid());
    assert!(!moving(0, 0, LIMIT + 1, 0).is_valid());
    assert!(!moving(0, 0, 0, i64::MIN).is_valid());
}

#[test]
fn distance_of_a_three_four_five_triangle() {
    let p = at(100_000_000, 100_000_000);
    let q = at(103_000_000, 104_000_000);
    assert_eq!(Point::distance(&p, &q), 5_000_000);
    assert_eq!(Point::distance(&q, &p), 5_000_000);
}

#[test]
fn distance_to_itself_is_zero() {
    let p = moving(5, -7, 3, 4);
    assert_eq!(Point::distance(&p, &p), 0);
}

#[test]
fn distance_rounds_down() {
    assert_eq!(Point::distance(&at(0, 0), &at(1, 1)), 1);
    assert_eq!(Point::distance(&at(0, 0), &at(1_000_000, 1_000_000)), 1_414_213);
    assert_eq!(Point::distance(&at(0, 0), &at(2, 2)), 2);
}

#[test]
fn distance_across_the_whole_range() {
    let p = at(-LIMIT, -LIMIT);
    let q = at(LIMIT, LIMIT);
    // 2^41 * sqrt(2), rounded down
    assert_eq!(Point::distance(&p, &q), 3_109_888_511_975);
    assert_eq!(Point::distance(&at(-LIMIT, 0), &at(LIMIT, 0)), 2 * LIMIT);
}

#[test]
fn distance_ignores_the_velocities() {
    let p = moving(0, 0, 9, 9);
    let q = moving(0, 6, -9, 1);
    assert_eq!(Point::distance(&p, &q), 6);
}

#[test]
fn direction_to_along_an_axis() {
    let p = at(0, 0);
    assert_eq!(p.direction_to(&at(10_000_000, 0)), at(1_000_000, 0));
    assert_eq!(p.direction_to(&at(-10_000_000, 0)), at(-1_000_000, 0));
    assert_eq!(p.direction_to(&at(0, 7)), at(0, 1_000_000));
    assert_eq!(p.direction_to(&at(0, -7)), at(0, -1_000_000));
}

#[test]
fn direction_to_along_a_diagonal() {
    let p = at(100_000_000, 100_000_000);
    let q = at(103_000_000, 104_000_000);
    assert_eq!(p.direction_to(&q), at(600_000, 800_000));
    assert_eq!(q.direction_to(&p), at(-600_000, -800_000));
    assert_eq!(at(0, 0).direction_to(&at(1_000_000, 1_000_000)), at(707_107, 707_107));
}

#[test]
fn direction_to_the_same_place_is_zero() {
    let p = moving(5, 5, 1, 2);
    assert_eq!(p.direction_to(&p), at(0, 0));
}

#[test]
fn direction_to_leaves_the_velocities_out() {
    let p = moving(0, 0, 7, 8);
    let q = moving(0, 9, -7, -8);
    assert_eq!(p.direction_to(&q), at(0, 1_000_000));
}

#[test]
fn direct_brings_a_vector_to_a_length() {
    assert_eq!(direct(3_000_000, 4_000_000, 1_000_000), (600_000, 800_000));
    assert_eq!(direct(3_000_000, 4_000_000, 5_000_000), (3_000_000, 4_000_000));
    assert_eq!(direct(3_000_000, 4_000_000, 30_000_000), (18_000_000, 24_000_000));
    assert_eq!(direct(3, 4, 0), (0, 0));
    assert_eq!(direct(0, 0, 1_000_000), (0, 0));
}

#[test]
fn direction_rounds_toward_zero() {
    // the distance from (0, 0) to (1, 2) is 2 when rounded down
    assert_eq!(direct(1, 2, 3), (1, 3));
    assert_eq!(direct(-1, -2, 3), (-1, -3));
    assert_eq!(direct(1, 2, -3), (-1, -3));
}

#[test]
fn direction_takes_the_largest_lengths() {
    assert_eq!(direct(5, 0, i64::MAX), (i64::MAX, 0));
    assert_eq!(direct(0, -5, i64::MAX), (0, -i64::MAX));
    assert_eq!(direct(2 * LIMIT, 0, -i64::MAX), (-i64::MAX, 0));
}

#[test]
fn sub_takes_the_difference_of_each_component() {
    let p = moving(10, 20, 30, 40);
    let q = moving(1, 22, -3, 40);
    assert_eq!(p.sub(&q), moving(9, -2, 33, 0));
    assert_eq!(q.sub(&p), moving(-9, 2, -33, 0));
    assert_eq!(
        moving(LIMIT, -LIMIT, LIMIT, -LIMIT).sub(&moving(-LIMIT, LIMIT, -LIMIT, LIMIT)),
        moving(2 * LIMIT, -2 * LIMIT, 2 * LIMIT, -2 * LIMIT)
    );
}

#[test]
fn elastic_collision_head_on_exchanges_the_velocities() {
    let mut p = moving(100_000_000, 100_000_000, 5_000_000, 0);
    let mut q = moving(103_000_000, 100_000_000, -5_000_000, 0);
    Point::elastic_collision(&mut p, &mut q);
    assert_eq!(p, moving(100_000_000, 100_000_000, -5_000_000, 0));
    assert_eq!(q, moving(103_000_000, 100_000_000, 5_000_000, 0));
}

#[test]
fn elastic_collision_head_on_along_a_diagonal() {
    let mut p = moving(0, 0, 3_000_000, 4_000_000);
    let mut q = moving(3_000, 4_000, -6_000_000, -8_000_000);
    Point::elastic_collision(&mut p, &mut q);
    assert_eq!(p, moving(0, 0, -6_000_000, -8_000_000));
    assert_eq!(q, moving(3_000, 4_000, 3_000_000, 4_000_000));
}

#[test]
fn elastic_collision_keeps_the_speeds_of_a_head_on_pair() {
    let mut p = moving(7, 7, 1_234_567, 0);
    let mut q = moving(9, 7, -7_654_321, 0);
    let before = [
        (p.xv as i128) * (p.xv as i128) + (p.yv as i128) * (p.yv as i128),
        (q.xv as i128) * (q.xv as i128) + (q.yv as i128) * (q.yv as i128),
    ];
    Point::elastic_collision(&mut p, &mut q);
    let after = [
        (p.xv as i128) * (p.xv as i128) + (p.yv as i128) * (p.yv as i128),
        (q.xv as i128) * (q.xv as i128) + (q.yv as i128) * (q.yv as i128),
    ];
    assert_eq!(after, [before[1], before[0]]);
}

#[test]
fn elastic_collision_leaves_the_part_across_the_line() {
    let mut p = moving(0, 0, 5_000_000, 7_000_000);
    let mut q = moving(2_000_000, 0, -3_000_000, 1_000_000);
    Point::elastic_collision(&mut p, &mut q);
    assert_eq!(p, moving(0, 0, -3_000_000, 7_000_000));
    assert_eq!(q, moving(2_000_000, 0, 5_000_000, 1_000_000));
}

#[test]
fn elastic_collision_of_a_moving_and_a_resting_point() {
    let mut p = moving(0, 0, 1_000_000, 0);
    let mut q = moving(1_000_000, 1_000_000, 0, 0);
    Point::elastic_collision(&mut p, &mut q);
    assert_eq!(p, moving(0, 0, 500_000, -500_000));
    assert_eq!(q, moving(1_000_000, 1_000_000, 500_000, 500_000));
}

#[test]
fn elastic_collision_rounds_toward_zero() {
    // the line from p to q is (1, 2); the relative velocity (10, 0) has
    // 10 * 1 / 5 = 2 and 10 * 2 / 5 = 4 along it; with (11, 0) it is 2.2
    // and 4.4
    let mut p = moving(0, 0, 11, 0);
    let mut q = moving(1, 2, 0, 0);
    Point::elastic_collision(&mut p, &mut q);
    assert_eq!(p, moving(0, 0, 9, -4));
    assert_eq!(q, moving(1, 2, 2, 4));
    let mut r = moving(0, 0, -11, 0);
    let mut s = moving(1, 2, 0, 0);
    Point::elastic_collision(&mut r, &mut s);
    assert_eq!(r, moving(0, 0, -9, 4));
    assert_eq!(s, moving(1, 2, -2, -4));
}

#[test]
fn elastic_collision_at_one_place_changes_nothing() {
    let mut p = moving(5, 5, 1_000_000, -2_000_000);
    let mut q = moving(5, 5, -3_000_000, 4_000_000);
    Point::elastic_collision(&mut p, &mut q);
    assert_eq!(p, moving(5, 5, 1_000_000, -2_000_000));
    assert_eq!(q, moving(5, 5, -3_000_000, 4_000_000));
}

#[test]
fn elastic_collision_keeps_the_sum_of_the_velocities() {
    let mut p = moving(10, 20, 1_234_567, -7_654_321);
    let mut q = moving(-30, 45, 9_876_543, 2_345_678);
    let sum = (p.xv + q.xv, p.yv + q.yv);
    Point::elastic_collision(&mut p, &mut q);
    assert_eq!((p.xv + q.xv, p.yv + q.yv), sum);
    assert_eq!((p.x, p.y, q.x, q.y), (10, 20, -30, 45));
}

#[test]
fn elastic_collision_beyond_the_limit_does_not_take_place() {
    // the exchange would give the first point twice the limit
    let mut p = moving(0, 0, LIMIT, -LIMIT);
    let mut q = moving(1, 1, LIMIT, LIMIT);
    Point::elastic_collision(&mut p, &mut q);
    assert_eq!(p, moving(0, 0, LIMIT, -LIMIT));
    assert_eq!(q, moving(1, 1, LIMIT, LIMIT));
}

#[test]
fn elastic_collision_at_the_limit_takes_place() {
    let mut p = moving(0, 0, LIMIT, 0);
    let mut q = moving(1, 0, -LIMIT, 0);
    Point::elastic_collision(&mut p, &mut q);
    assert_eq!(p, moving(0, 0, -LIMIT, 0));
    assert_eq!(q, moving(1, 0, LIMIT, 0));
    let mut r = moving(0, 0, LIMIT / 5, -LIMIT / 5);
    let mut s = moving(1, 1, LIMIT / 5, LIMIT / 5);
    Point::elastic_collision(&mut r, &mut s);
    assert_eq!(r, moving(0, 0, 2 * (LIMIT / 5), 0));
    assert_eq!(s, moving(1, 1, 0, 0));
}

#[test]
fn elastic_collision_keeps_the_sum_of_the_velocities_of_fast_points() {
    let speeds = [-LIMIT, -LIMIT / 2, -1, 0, 1, LIMIT / 3, LIMIT];
    for &a in &speeds {
        for &b in &speeds {
            for &c in &speeds {
                let mut p = moving(0, 0, a, b);
                let mut q = moving(3, -4, c, a);
                Point::elastic_collision(&mut p, &mut q);
                assert_eq!((p.xv as i128 + q.xv as i128, p.yv as i128 + q.yv as i128),
                    (a as i128 + c as i128, b as i128 + a as i128));
                assert!(p.is_valid() && q.is_valid());
            }
        }
    }
}
