use simple_physics::{isqrt, Vec2, LIMIT, SCALE};

#[test]
fn integer_square_root_rounds_down() {
    assert_eq!(isqrt(0), 0);
    assert_eq!(isqrt(1), 1);
    assert_eq!(isqrt(15), 3);
    assert_eq!(isqrt(16), 4);
    assert_eq!(isqrt(17), 4);
    assert_eq!(isqrt(1 << 100), 1 << 50);
}

#[test]
fn length_of_three_four_five() {
    let v = Vec2::new(3 * SCALE, 4 * SCALE);
    assert_eq!(v.length(), 5 * SCALE);
    assert_eq!(v.length_squared(), (25 * SCALE as u128) * SCALE as u128);
}

#[test]
fn normalise_gives_unit_vector() {
    let v = Vec2::new(3 * SCALE, -4 * SCALE);
    assert_eq!(v.normalise(), Vec2::new(6000, -8000));
    let w = Vec2::new(0, 7);
    assert_eq!(w.normalise(), Vec2::new(0, SCALE));
}

#[test]
fn normalise_of_zero_is_zero() {
    let z = Vec2::new(0, 0);
    assert_eq!(z.normalise(), z);
}

#[test]
fn arithmetic_saturates() {
    let a = Vec2::new(LIMIT, -LIMIT);
    assert_eq!(a.add(Vec2::new(5, -5)), Vec2::new(LIMIT, -LIMIT));
    assert_eq!(a.sub(Vec2::new(-1, 1)), Vec2::new(LIMIT, -LIMIT));
    assert_eq!(Vec2::new(1, 2).add(Vec2::new(3, 4)), Vec2::new(4, 6));
    assert_eq!(Vec2::new(1, 2).sub(Vec2::new(3, 5)), Vec2::new(-2, -3));
}

#[test]
fn scale_and_dot_are_fixed_point() {
    let v = Vec2::new(2 * SCALE, -3 * SCALE);
    assert_eq!(v.scale(SCALE / 2), Vec2::new(SCALE, -3 * SCALE / 2));
    assert_eq!(Vec2::dot(v, Vec2::new(SCALE, SCALE)), -SCALE);
    assert_eq!(Vec2::dot(Vec2::new(3, 0), Vec2::new(SCALE / 2, 0)), 1);
}
