use simple_physics::{
    ball_block_colliding, closest_point_ball_block, Ball, Block, Config, Contact, Engine, Manifold, Partner, Vec2,
    SCALE,
};

const S: i64 = SCALE;

fn ball(x: i64, y: i64, r: i64, vx: i64, vy: i64, mass: i64, e: i64) -> Ball {
    Ball::new(x, y, r, vx, vy, String::from("blue"), mass, e)
}

#[test]
fn default_config_values() {
    let c = Config::default();
    assert_eq!(c.gravity, S / 10);
    assert_eq!(c.decay, 99 * S / 100);
    assert_eq!(c.slop, S / 100);
    assert_eq!(c.ball_percent, S / 10);
    assert_eq!(c.block_percent, 6 * S / 10);
}

#[test]
fn free_fall_one_step() {
    let mut e = Engine::new(800, 600, vec![ball(0, 0, S, 0, 0, S, S)], vec![]);
    e.update_manifest();
    let b = &e.balls()[0];
    assert_eq!(b.position(), Vec2::new(0, 1000));
    assert_eq!(b.velocity(), Vec2::new(0, 990));
}

#[test]
fn free_fall_uses_velocity_after_gravity() {
    let mut e = Engine::new(800, 600, vec![ball(0, 0, S, 2 * S, -S, S, S)], vec![]);
    e.update_manifest();
    let b = &e.balls()[0];
    assert_eq!(b.position(), Vec2::new(2 * S, -9000));
    assert_eq!(b.velocity(), Vec2::new(19800, -8910));
}

#[test]
fn add_and_read_bodies() {
    let mut e = Engine::new(10, 20, vec![], vec![]);
    e.add_ball(ball(1, 2, 3, 0, 0, S, S));
    e.add_block(Block::new(4, 5, 6, 7));
    assert_eq!(e.width, 10);
    assert_eq!(e.height, 20);
    let balls = e.balls();
    assert_eq!(balls.len(), 1);
    assert_eq!(balls[0].position(), Vec2::new(1, 2));
    assert_eq!(balls[0].color(), "blue");
    let blocks = e.blocks();
    assert_eq!(blocks.len(), 1);
    assert_eq!(blocks[0].size(), Vec2::new(6, 7));
}

#[test]
fn contacts_are_listed_in_pair_order() {
    let balls = vec![
        ball(0, 0, 2 * S, 0, 0, S, S),
        ball(3 * S, 0, 2 * S, 0, 0, S, S),
        ball(6 * S, 0, 2 * S, 0, 0, S, S),
        ball(100 * S, 0, S, 0, 0, S, S),
    ];
    let blocks = vec![Block::new(-10 * S, S, 14 * S, 5 * S)];
    let e = Engine::new(0, 0, balls, blocks);
    let ms = e.collect_contacts();
    let pairs: Vec<(usize, Partner)> = ms.iter().map(|m| (m.a, m.b)).collect();
    assert_eq!(
        pairs,
        vec![(0, Partner::Ball(1)), (1, Partner::Ball(2)), (0, Partner::Block(0)), (1, Partner::Block(0))]
    );
}

#[test]
fn fixed_bodies_never_change() {
    let fixed = ball(50 * S, 50 * S, 5 * S, 0, 0, 0, S);
    let moving = ball(50 * S, 40 * S, 6 * S, S / 3, 2 * S, S, S);
    let other = ball(44 * S, 52 * S, 3 * S, S, 0, 2 * S, S / 2);
    let block = Block::new(0, 56 * S, 100 * S, 10 * S);
    let mut e = Engine::new(100, 100, vec![fixed, moving, other], vec![block]);
    for _ in 0..300 {
        e.update_manifest();
        let b = &e.balls()[0];
        assert_eq!(b.position(), Vec2::new(50 * S, 50 * S));
        assert_eq!(b.velocity(), Vec2::new(0, 0));
        let k = &e.blocks()[0];
        assert_eq!(k.position(), Vec2::new(0, 56 * S));
        assert_eq!(k.size(), Vec2::new(100 * S, 10 * S));
    }
}

#[test]
fn resting_circle_does_not_sink() {
    // Each step gravity carries a resting circle about one increment into
    // the floor before the correction pushes it back, so the gap settles
    // near that increment and does not grow.
    let floor = Block::new(0, 100 * S, 200 * S, 20 * S);
    let b = ball(100 * S, 85 * S, 10 * S, 0, 0, S, S / 2);
    let mut e = Engine::new(200, 200, vec![b], vec![floor]);
    let bound = 2 * Config::default().gravity;
    let mut worst_early = 0;
    let mut worst_late = 0;
    for step in 0..3000 {
        e.update_manifest();
        let b = &e.balls()[0];
        let k = &e.blocks()[0];
        let d = closest_point_ball_block(b, k).sub(b.position()).length();
        let gap = (d - b.radius()).abs();
        if (1000..1200).contains(&step) && gap > worst_early {
            worst_early = gap;
        }
        if step >= 2800 && gap > worst_late {
            worst_late = gap;
        }
        assert!(b.position().y < 100 * S);
    }
    assert!(worst_early <= bound, "worst gap {}", worst_early);
    assert!(worst_late <= worst_early, "gap grew from {} to {}", worst_early, worst_late);
}

#[test]
fn equal_mass_elastic_head_on_in_a_step() {
    let a = ball(0, 0, 10 * S, S, 0, S, S);
    let b = ball(19 * S, 0, 10 * S, -S, 0, S, S);
    let mut e = Engine::with_config(
        0,
        0,
        vec![a, b],
        vec![],
        Config { gravity: 0, decay: S, slop: 100, ball_percent: S / 10, block_percent: 6 * S / 10 },
    );
    e.update_manifest();
    let balls = e.balls();
    assert_eq!(balls[0].velocity(), Vec2::new(-S, 0));
    assert_eq!(balls[1].velocity(), Vec2::new(S, 0));
}

#[test]
fn circle_inside_obstacle_is_reported() {
    let k = Block::new(0, 0, 10 * S, 10 * S);
    let b = ball(5 * S, 3 * S, S, 0, 0, S, S);
    assert!(ball_block_colliding(&b, &k).is_some());
}

#[test]
fn manifold_holds_its_parts() {
    let c = Contact { normal: Vec2::new(0, -S), penetration: 7 };
    let m = Manifold::new(2, Partner::Block(1), c);
    assert_eq!(m.a, 2);
    assert_eq!(m.b, Partner::Block(1));
    assert_eq!(m.contact, c);
}
