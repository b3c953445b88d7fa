use simple_physics::{Ball, Block, Vec2, MASS_LIMIT, SCALE};

#[test]
fn ball_accessors() {
    let b = Ball::new(1, 2, 3, 4, 5, String::from("red"), 2 * SCALE, SCALE / 2);
    assert_eq!(b.position(), Vec2::new(1, 2));
    assert_eq!(b.velocity(), Vec2::new(4, 5));
    assert_eq!(b.radius(), 3);
    assert_eq!(b.color(), "red");
    assert_eq!(b.mass(), 2 * SCALE);
    assert_eq!(b.inv_mass(), SCALE / 2);
    assert_eq!(b.restitution(), SCALE / 2);
}

#[test]
fn zero_mass_ball_has_zero_inverse_mass() {
    let b = Ball::new(0, 0, 1, 0, 0, String::new(), 0, SCALE);
    assert_eq!(b.mass(), 0);
    assert_eq!(b.inv_mass(), 0);
}

#[test]
fn mass_is_clamped() {
    let b = Ball::new(0, 0, 1, 0, 0, String::new(), -5, SCALE);
    assert_eq!(b.mass(), 0);
    let c = Ball::new(0, 0, 1, 0, 0, String::new(), i64::MAX, SCALE);
    assert_eq!(c.mass(), MASS_LIMIT);
}

#[test]
fn ball_setters() {
    let mut b = Ball::new(0, 0, 1, 0, 0, String::from("x"), SCALE, SCALE);
    b.set_position(Vec2::new(7, 8));
    b.set_velocity(Vec2::new(-1, -2));
    assert_eq!(b.position(), Vec2::new(7, 8));
    assert_eq!(b.velocity(), Vec2::new(-1, -2));
    assert_eq!(b.color(), "x");
}

#[test]
fn block_is_fixed_and_elastic() {
    let k = Block::new(10, 20, 30, 40);
    assert_eq!(k.position(), Vec2::new(10, 20));
    assert_eq!(k.size(), Vec2::new(30, 40));
    assert_eq!(k.velocity(), Vec2::new(0, 0));
    assert_eq!(k.mass(), 0);
    assert_eq!(k.inv_mass(), 0);
    assert_eq!(k.restitution(), SCALE);
    let s = k.state();
    assert_eq!(s.mass, 0);
    assert_eq!(s.position, Vec2::new(10, 20));
}

#[test]
fn obstacle_setters_change_nothing() {
    let mut k = Block::new(10, 20, 30, 40);
    k.set_position(Vec2::new(1, 1));
    k.set_velocity(Vec2::new(5, 5));
    assert_eq!(k.position(), Vec2::new(10, 20));
    assert_eq!(k.size(), Vec2::new(30, 40));
    assert_eq!(k.velocity(), Vec2::new(0, 0));
}
