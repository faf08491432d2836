use particle_background::fixed::{div_trunc, isqrt, saturate, scale, wrap_coordinate, LIMIT, UNIT};

#[test]
fn unit_is_a_million_and_limit_is_two_to_the_forty() {
    assert_eq!(UNIT, 1_000_000);
    assert_eq!(LIMIT, 1i64 << 40);
}

#[test]
fn div_trunc_rounds_toward_zero() {
    assert_eq!(div_trunc(7, 2), 3);
    assert_eq!(div_trunc(-7, 2), -3);
    assert_eq!(div_trunc(6, 3), 2);
    assert_eq!(div_trunc(-6, 3), -2);
    assert_eq!(div_trunc(0, 5), 0);
    assert_eq!(div_trunc(-1, 5), 0);
    assert_eq!(div_trunc(1, 5), 0);
}

#[test]
fn scale_is_the_fixed_point_product() {
    assert_eq!(scale(1_500_000, 2_000_000), 3_000_000);
    assert_eq!(scale(-1_500_000, 2_000_000), -3_000_000);
    assert_eq!(scale(1, 999_000), 0);
    assert_eq!(scale(-1, 999_000), 0);
    assert_eq!(scale(980_000, 999_000), 979_020);
    assert_eq!(scale(0, 123), 0);
}

#[test]
fn scale_takes_the_largest_numbers() {
    let max: i128 = i64::MAX as i128;
    let min: i128 = i64::MIN as i128;
    assert_eq!(scale(i64::MAX, i64::MAX), max * max / 1_000_000);
    assert_eq!(scale(i64::MIN, i64::MIN), min * min / 1_000_000);
    assert_eq!(scale(i64::MIN, i64::MAX), -(max * -min / 1_000_000));
    assert_eq!(scale(i64::MAX, i64::MIN), -(max * -min / 1_000_000));
}

#[test]
fn saturate_cuts_back_to_the_limit() {
    assert_eq!(saturate(0), 0);
    assert_eq!(saturate(LIMIT as i128), LIMIT);
    assert_eq!(saturate(LIMIT as i128 + 1), LIMIT);
    assert_eq!(saturate(-(LIMIT as i128)), -LIMIT);
    assert_eq!(saturate(-(LIMIT as i128) - 1), -LIMIT);
    assert_eq!(saturate(i128::MAX), LIMIT);
    assert_eq!(saturate(i128::MIN), -LIMIT);
    assert_eq!(saturate(-12345), -12345);
}

#[test]
fn wrap_leaves_a_coordinate_inside_alone() {
    assert_eq!(wrap_coordinate(0, 800_000_000), 0);
    assert_eq!(wrap_coordinate(123_456_789, 800_000_000), 123_456_789);
    assert_eq!(wrap_coordinate(799_999_999, 800_000_000), 799_999_999);
}

#[test]
fn wrap_at_width_is_zero() {
    assert_eq!(wrap_coordinate(800_000_000, 800_000_000), 0);
    assert_eq!(wrap_coordinate(1, 1), 0);
    assert_eq!(wrap_coordinate(LIMIT as i128, LIMIT), 0);
}

#[test]
fn wrap_brings_a_point_back_at_the_opposite_edge() {
    assert_eq!(wrap_coordinate(819_000_000, 800_000_000), 19_000_000);
    assert_eq!(wrap_coordinate(-1, 800_000_000), 799_999_999);
    assert_eq!(wrap_coordinate(-15_000_000, 800_000_000), 785_000_000);
    assert_eq!(wrap_coordinate(-800_000_000, 800_000_000), 0);
    assert_eq!(wrap_coordinate(1_600_000_005, 800_000_000), 5);
    assert_eq!(wrap_coordinate(-1_600_000_005, 800_000_000), 799_999_995);
}

#[test]
fn wrap_result_is_never_negative_and_below_the_width() {
    let widths: [i64; 5] = [1, 2, 7, 600_000_000, LIMIT];
    let xs: [i128; 9] = [
        i128::MIN,
        -(1i128 << 100),
        -800_000_001,
        -1,
        0,
        1,
        800_000_001,
        1i128 << 100,
        i128::MAX,
    ];
    for w in widths {
        for x in xs {
            let r = wrap_coordinate(x, w);
            assert!(0 <= r && r < w);
            assert_eq!(x.rem_euclid(w as i128), r as i128);
        }
    }
}

#[test]
fn isqrt_of_squares_is_exact() {
    assert_eq!(isqrt(0), 0);
    assert_eq!(isqrt(1), 1);
    assert_eq!(isqrt(16), 4);
    assert_eq!(isqrt(25_000_000_000_000), 5_000_000);
    assert_eq!(isqrt(3_600_000_000_000_000), 60_000_000);
}

#[test]
fn isqrt_rounds_down() {
    assert_eq!(isqrt(2), 1);
    assert_eq!(isqrt(3), 1);
    assert_eq!(isqrt(15), 3);
    assert_eq!(isqrt(17), 4);
    assert_eq!(isqrt(24), 4);
    assert_eq!(isqrt(2_000_000_000_000), 1_414_213);
}

#[test]
fn isqrt_of_the_largest_number() {
    assert_eq!(isqrt(u128::MAX), u64::MAX);
    let r: u128 = 1u128 << 63;
    assert_eq!(isqrt(r * r), 1u64 << 63);
    assert_eq!(isqrt(r * r - 1), (1u64 << 63) - 1);
}
