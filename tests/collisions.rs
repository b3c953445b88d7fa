use simple_physics::{
    ball_block_colliding, balls_colliding, closest_point_ball_block, correct_positions, resolve_collision,
    Ball, Block, Contact, Vec2, SCALE,
};

const S: i64 = SCALE;

fn ball(x: i64, y: i64, r: i64, vx: i64, vy: i64, mass: i64, e: i64) -> Ball {
    Ball::new(x, y, r, vx, vy, String::from("blue"), mass, e)
}

#[test]
fn coincident_centres_use_fallback_normal() {
    let a = ball(5 * S, 5 * S, 2 * S, 0, 0, S, S);
    let b = ball(5 * S, 5 * S, 3 * S, 0, 0, S, S);
    let c = balls_colliding(&a, &b).unwrap();
    assert_eq!(c.normal, Vec2::new(0, -S));
    assert_eq!(c.penetration, 2 * S);
}

#[test]
fn overlapping_circles_give_normal_from_b_to_a() {
    let a = ball(0, 0, 2 * S, 0, 0, S, S);
    let b = ball(3 * S, 0, 2 * S, 0, 0, S, S);
    let c = balls_colliding(&a, &b).unwrap();
    assert_eq!(c, Contact { normal: Vec2::new(-S, 0), penetration: S });
    let d = balls_colliding(&b, &a).unwrap();
    assert_eq!(d, Contact { normal: Vec2::new(S, 0), penetration: S });
}

#[test]
fn separate_and_touching_circles_do_not_collide() {
    let a = ball(0, 0, S, 0, 0, S, S);
    let far = ball(3 * S, 0, S, 0, 0, S, S);
    let touching = ball(2 * S, 0, S, 0, 0, S, S);
    assert_eq!(balls_colliding(&a, &far), None);
    assert_eq!(balls_colliding(&a, &touching), None);
}

#[test]
fn closest_point_is_clamped_into_the_rectangle() {
    let k = Block::new(0, 100 * S, 200 * S, 20 * S);
    let b = ball(250 * S, 50 * S, S, 0, 0, S, S);
    assert_eq!(closest_point_ball_block(&b, &k), Vec2::new(200 * S, 100 * S));
    let inside = ball(150 * S, 108 * S, S, 0, 0, S, S);
    assert_eq!(closest_point_ball_block(&inside, &k), Vec2::new(150 * S, 108 * S));
}

#[test]
fn circle_touching_top_of_rectangle() {
    let k = Block::new(0, 100 * S, 200 * S, 20 * S);
    let b = ball(100 * S, 95 * S, 10 * S, 0, 0, S, S);
    let c = ball_block_colliding(&b, &k).unwrap();
    assert_eq!(c, Contact { normal: Vec2::new(0, -S), penetration: 5 * S });
}

#[test]
fn circle_clear_of_rectangle() {
    let k = Block::new(0, 100 * S, 200 * S, 20 * S);
    let b = ball(100 * S, 80 * S, 10 * S, 0, 0, S, S);
    assert_eq!(ball_block_colliding(&b, &k), None);
}

#[test]
fn centre_inside_pushes_out_through_horizontal_face() {
    let k = Block::new(0, 100 * S, 200 * S, 20 * S);
    let b = ball(150 * S, 108 * S, 10 * S, 0, 0, S, S);
    let c = ball_block_colliding(&b, &k).unwrap();
    assert_eq!(c, Contact { normal: Vec2::new(0, -S), penetration: 2 * S });
}

#[test]
fn centre_inside_pushes_out_through_vertical_face() {
    let k = Block::new(0, 100 * S, 200 * S, 20 * S);
    let b = ball(101 * S, 118 * S, 10 * S, 0, 0, S, S);
    let c = ball_block_colliding(&b, &k).unwrap();
    assert_eq!(c, Contact { normal: Vec2::new(S, 0), penetration: -89 * S });
}

#[test]
fn equal_mass_elastic_head_on_swaps_velocities() {
    let a = ball(0, 0, 10 * S, S, 0, S, S);
    let b = ball(19 * S, 0, 10 * S, -S, 0, S, S);
    let c = balls_colliding(&a, &b).unwrap();
    let (va, vb) = resolve_collision(&a.state(), &b.state(), c.normal);
    assert_eq!(va, Vec2::new(-S, 0));
    assert_eq!(vb, Vec2::new(S, 0));
}

#[test]
fn separating_pair_is_untouched() {
    let a = ball(0, 0, 2 * S, -S, 3, S, S / 2);
    let b = ball(3 * S, 0, 2 * S, S, -7, 2 * S, S);
    let c = balls_colliding(&a, &b).unwrap();
    let (va, vb) = resolve_collision(&a.state(), &b.state(), c.normal);
    assert_eq!(va, a.velocity());
    assert_eq!(vb, b.velocity());
}

#[test]
fn two_fixed_bodies_are_untouched() {
    let a = ball(0, 0, 2 * S, S, 0, 0, S);
    let b = ball(3 * S, 0, 2 * S, -S, 0, 0, S);
    let c = balls_colliding(&a, &b).unwrap();
    let (va, vb) = resolve_collision(&a.state(), &b.state(), c.normal);
    assert_eq!((va, vb), (a.velocity(), b.velocity()));
}

#[test]
fn bounce_off_obstacle_keeps_restitution() {
    let k = Block::new(0, 100 * S, 200 * S, 20 * S);
    let b = ball(100 * S, 95 * S, 10 * S, 0, 2 * S, S, S / 2);
    let c = ball_block_colliding(&b, &k).unwrap();
    let (vb, vk) = resolve_collision(&b.state(), &k.state(), c.normal);
    assert_eq!(vb, Vec2::new(0, -S));
    assert_eq!(vk, Vec2::new(0, 0));
}

#[test]
fn heavier_body_receives_less_impulse() {
    let a = ball(0, 0, 2 * S, S, 0, S, 0);
    let b = ball(3 * S, 0, 2 * S, 0, 0, 3 * S, 0);
    let c = balls_colliding(&a, &b).unwrap();
    let (va, vb) = resolve_collision(&a.state(), &b.state(), c.normal);
    // perfectly inelastic: both end with the common velocity of the pair
    assert_eq!(va, Vec2::new(S / 4, 0));
    assert_eq!(vb, Vec2::new(S / 4, 0));
}

#[test]
fn one_correction_reduces_penetration() {
    let a = ball(0, 0, 2 * S, 0, 0, S, S);
    let b = ball(3 * S, 0, 2 * S, 0, 0, S, S);
    let c = balls_colliding(&a, &b).unwrap();
    let (pa, pb) = correct_positions(&a.state(), &b.state(), &c, S / 10, 100);
    assert_eq!(pa, Vec2::new(-500, 0));
    assert_eq!(pb, Vec2::new(3 * S + 500, 0));
    let mut a2 = a.clone();
    let mut b2 = b.clone();
    a2.set_position(pa);
    b2.set_position(pb);
    assert_eq!(balls_colliding(&a2, &b2).unwrap().penetration, 9000);
}

#[test]
fn repeated_corrections_converge_below_slop() {
    let slop = 100;
    let mut a = ball(0, 0, 2 * S, 0, 0, S, S);
    let mut b = ball(3 * S, S, 2 * S, 0, 0, 2 * S, S);
    let mut last = balls_colliding(&a, &b).unwrap().penetration;
    assert!(last > slop);
    for _ in 0..200 {
        let c = match balls_colliding(&a, &b) {
            Some(c) => c,
            None => break,
        };
        assert!(c.penetration <= last);
        last = c.penetration;
        let (pa, pb) = correct_positions(&a.state(), &b.state(), &c, S / 10, slop);
        a.set_position(pa);
        b.set_position(pb);
        if let Some(n) = balls_colliding(&a, &b) {
            if c.penetration >= slop {
                assert!(n.penetration < c.penetration);
            }
        }
    }
    if let Some(c) = balls_colliding(&a, &b) {
        assert!(c.penetration <= slop);
    }
}

#[test]
fn shallow_overlap_is_not_corrected() {
    let a = ball(0, 0, 2 * S, 0, 0, S, S);
    let b = ball(4 * S - 50, 0, 2 * S, 0, 0, S, S);
    let c = balls_colliding(&a, &b).unwrap();
    assert_eq!(c.penetration, 50);
    let (pa, pb) = correct_positions(&a.state(), &b.state(), &c, S / 10, 100);
    assert_eq!((pa, pb), (a.position(), b.position()));
}

#[test]
fn fixed_body_is_not_corrected() {
    let a = ball(0, 0, 2 * S, 0, 0, 0, S);
    let b = ball(3 * S, 0, 2 * S, 0, 0, S, S);
    let c = balls_colliding(&a, &b).unwrap();
    let (pa, pb) = correct_positions(&a.state(), &b.state(), &c, S / 10, 100);
    assert_eq!(pa, a.position());
    assert_eq!(pb, Vec2::new(3 * S + 1000, 0));
}

#[test]
fn diagonal_normal_between_close_circles_is_unit() {
    let a = ball(1, 1, S, 0, 0, S, S);
    let b = ball(0, 0, S, 0, 0, S, S);
    let c = balls_colliding(&a, &b).unwrap();
    assert_eq!(c.normal, Vec2::new(7071, 7071));
    let len2 = c.normal.length_squared() as i64;
    assert!((S * S - 4 * S - 1..=S * S + 2 * S).contains(&len2));
}

#[test]
fn normal_at_rectangle_corner_is_unit() {
    let k = Block::new(0, 0, 10 * S, 10 * S);
    let b = ball(-1, -1, S, 0, 0, S, S);
    let c = ball_block_colliding(&b, &k).unwrap();
    assert_eq!(c.normal, Vec2::new(-7071, -7071));
    assert_eq!(c.penetration, S - 1);
}

#[test]
fn closest_point_is_exact_for_odd_sizes() {
    let k = Block::new(0, 0, 3, 3);
    let b = ball(10, 10, 1, 0, 0, S, S);
    assert_eq!(closest_point_ball_block(&b, &k), Vec2::new(3, 3));
    let inside = ball(1, 2, 1, 0, 0, S, S);
    assert_eq!(closest_point_ball_block(&inside, &k), Vec2::new(1, 2));
}

#[test]
fn deep_centre_inside_is_not_corrected() {
    let k = Block::new(0, 0, 10 * S, 10 * S);
    let b = ball(5 * S, 3 * S, S, 0, 0, S, S);
    let c = ball_block_colliding(&b, &k).unwrap();
    assert_eq!(c, Contact { normal: Vec2::new(-S, 0), penetration: -4 * S });
    let (pb, pk) = correct_positions(&b.state(), &k.state(), &c, 6 * S / 10, 100);
    assert_eq!(pb, b.position());
    assert_eq!(pk, k.position());
}
