use wasmlib::math::{isqrt_ceil, mul_div, scale_to_magnitude, wrap_coord, Vec2};

#[test]
fn wrap_folds_overflow_back_into_the_extent() {
    // 150 units in a 100-unit-wide world comes back in at 50.
    assert_eq!(wrap_coord(150_000, 100_000), 50_000);
}

#[test]
fn wrap_folds_negative_positions() {
    assert_eq!(wrap_coord(-10_000, 100_000), 90_000);
    // Far out on the negative side, more than one circumference away.
    assert_eq!(wrap_coord(-250_000, 100_000), 50_000);
}

#[test]
fn wrap_keeps_interior_positions() {
    assert_eq!(wrap_coord(0, 100_000), 0);
    assert_eq!(wrap_coord(99_999, 100_000), 99_999);
}

#[test]
fn wrap_sends_the_far_edge_to_the_origin() {
    assert_eq!(wrap_coord(100_000, 100_000), 0);
}

#[test]
fn isqrt_ceil_on_squares_and_between() {
    assert_eq!(isqrt_ceil(0), 0);
    assert_eq!(isqrt_ceil(1), 1);
    assert_eq!(isqrt_ceil(25), 5);
    assert_eq!(isqrt_ceil(26), 6);
    assert_eq!(isqrt_ceil(2_401_000_000), 49_000);
}

#[test]
fn mul_div_rounds_toward_zero() {
    assert_eq!(mul_div(7, 10, 3), 23);
    assert_eq!(mul_div(-7, 10, 3), -23);
    assert_eq!(mul_div(0, 10, 3), 0);
}

#[test]
fn rescaling_a_three_four_five_vector_is_exact() {
    let v = Vec2 { x: 3_000, y: 4_000 };
    let r = scale_to_magnitude(v, 30_000);
    assert_eq!(r, Vec2 { x: 18_000, y: 24_000 });
}

#[test]
fn rescaling_the_zero_vector_stays_zero() {
    let v = Vec2 { x: 0, y: 0 };
    let r = scale_to_magnitude(v, 30_000);
    assert_eq!(r, Vec2 { x: 0, y: 0 });
}
