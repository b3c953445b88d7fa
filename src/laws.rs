//! Properties of the engine that hold across calls.
use vstd::prelude::*;
use crate::body::{Ball, Block, BodyState};
use crate::collision::balls_contact;
use crate::engine::{
    correct_all, correct_one, default_config, integrate_all, integrate_ball, resolve_all, resolve_one,
    step_model, with_position, Config, Manifold,
};
use crate::fixed::{
    abs, fmul, is_root, lemma_root_at_least, lemma_root_exists, lemma_tdiv_sign, root, sat, tdiv, LIMIT, MASS_LIMIT,
    SCALE,
};
use crate::resolve::{corrected_positions, normal_speed, resolved_velocities, share_den, share_num};
use crate::vec2::{norm, norm_sq, vnormalise, vsub, Vec2};

verus! {

/// The circles after `steps` steps.
pub open spec fn run(balls: Seq<Ball>, blocks: Seq<Block>, cfg: Config, steps: nat) -> Seq<Ball>
    decreases steps,
{
    if steps == 0 {
        balls
    } else {
        step_model(run(balls, blocks, cfg, (steps - 1) as nat), blocks, cfg)
    }
}

/// `after` has the circles of `before`, with the same masses, and every
/// fixed circle of `before` unchanged.
pub open spec fn keeps_fixed(before: Seq<Ball>, after: Seq<Ball>) -> bool {
    &&& after.len() == before.len()
    &&& forall|i: int| 0 <= i < before.len() ==> (#[trigger] after[i]).mass == before[i].mass
    &&& forall|i: int| 0 <= i < before.len() && before[i].mass == 0 ==> #[trigger] after[i] == before[i]
}

proof fn lemma_keeps_trans(a: Seq<Ball>, b: Seq<Ball>, c: Seq<Ball>)
    requires
        keeps_fixed(a, b),
        keeps_fixed(b, c),
    ensures
        keeps_fixed(a, c),
{
    assert forall|i: int| 0 <= i < a.len() && a[i].mass == 0 implies #[trigger] c[i] == a[i] by {
        assert(b[i] == a[i]);
    }
    assert forall|i: int| 0 <= i < a.len() implies (#[trigger] c[i]).mass == a[i].mass by {
        assert(b[i].mass == a[i].mass);
    }
}

proof fn lemma_resolve_one(balls: Seq<Ball>, blocks: Seq<Block>, m: Manifold)
    ensures
        keeps_fixed(balls, resolve_one(balls, blocks, m)),
{
}

proof fn lemma_correct_one(balls: Seq<Ball>, blocks: Seq<Block>, m: Manifold, cfg: Config)
    ensures
        keeps_fixed(balls, correct_one(balls, blocks, m, cfg)),
{
}

proof fn lemma_resolve_all(balls: Seq<Ball>, blocks: Seq<Block>, ms: Seq<Manifold>, k: int)
    ensures
        keeps_fixed(balls, resolve_all(balls, blocks, ms, k)),
    decreases k,
{
    if k > 0 {
        lemma_resolve_all(balls, blocks, ms, k - 1);
        let prev = resolve_all(balls, blocks, ms, k - 1);
        lemma_resolve_one(prev, blocks, ms[k - 1]);
        lemma_keeps_trans(balls, prev, resolve_all(balls, blocks, ms, k));
    }
}

proof fn lemma_correct_all(balls: Seq<Ball>, blocks: Seq<Block>, ms: Seq<Manifold>, k: int, cfg: Config)
    ensures
        keeps_fixed(balls, correct_all(balls, blocks, ms, k, cfg)),
    decreases k,
{
    if k > 0 {
        lemma_correct_all(balls, blocks, ms, k - 1, cfg);
        let prev = correct_all(balls, blocks, ms, k - 1, cfg);
        lemma_correct_one(prev, blocks, ms[k - 1], cfg);
        lemma_keeps_trans(balls, prev, correct_all(balls, blocks, ms, k, cfg));
    }
}

proof fn lemma_step(balls: Seq<Ball>, blocks: Seq<Block>, cfg: Config)
    ensures
        keeps_fixed(balls, step_model(balls, blocks, cfg)),
{
    let ms = crate::engine::contacts(balls, blocks);
    let k = ms.len() as int;
    let resolved = resolve_all(balls, blocks, ms, k);
    let integrated = integrate_all(resolved, cfg);
    lemma_resolve_all(balls, blocks, ms, k);
    assert(keeps_fixed(resolved, integrated)) by {
        assert forall|i: int| 0 <= i < resolved.len() implies (#[trigger] integrated[i]).mass
            == resolved[i].mass by {
            assert(integrated[i] == integrate_ball(resolved[i], cfg));
        }
    }
    lemma_keeps_trans(balls, resolved, integrated);
    lemma_correct_all(integrated, blocks, ms, k, cfg);
    lemma_keeps_trans(balls, integrated, correct_all(integrated, blocks, ms, k, cfg));
}

/// A fixed circle (zero mass) keeps its position, its velocity and all the
/// rest of its state across any number of steps, whatever it collides with.
/// Obstacles are never changed by a step at all (see `Engine::update_manifest`).
pub proof fn fixed_circles_never_move(
    balls: Seq<Ball>,
    blocks: Seq<Block>,
    cfg: Config,
    steps: nat,
    i: int,
)
    requires
        0 <= i < balls.len(),
        balls[i].mass == 0,
    ensures
        run(balls, blocks, cfg, steps).len() == balls.len(),
        run(balls, blocks, cfg, steps)[i] == balls[i],
    decreases steps,
{
    if steps > 0 {
        let prev = run(balls, blocks, cfg, (steps - 1) as nat);
        fixed_circles_never_move(balls, blocks, cfg, (steps - 1) as nat, i);
        lemma_step(prev, blocks, cfg);
    }
}

/// Moving a point away from the origin in the direction of each of its
/// components, by at least 3 along its larger one, lifts its rounded-down
/// distance from the origin by at least one.
proof fn lemma_moving_out(x: int, y: int, u: int, v: int, d: int)
    requires
        is_root(d, x * x + y * y),
        d >= 1,
        x >= 0 ==> u >= 0,
        x <= 0 ==> u <= 0,
        y >= 0 ==> v >= 0,
        y <= 0 ==> v <= 0,
        abs(x) >= abs(y) ==> abs(u) >= 3,
        abs(y) >= abs(x) ==> abs(v) >= 3,
    ensures
        root((x + u) * (x + u) + (y + v) * (y + v)) >= d + 1,
{
    let ax = abs(x);
    let ay = abs(y);
    let au = abs(u);
    let av = abs(v);
    assert((x + u) * (x + u) >= x * x + 2 * ax * au) by (nonlinear_arith)
        requires
            x >= 0 ==> u >= 0,
            x <= 0 ==> u <= 0,
            ax == abs(x),
            au == abs(u),
    ;
    assert((y + v) * (y + v) >= y * y + 2 * ay * av) by (nonlinear_arith)
        requires
            y >= 0 ==> v >= 0,
            y <= 0 ==> v <= 0,
            ay == abs(y),
            av == abs(v),
    ;
    assert(x * x == ax * ax && y * y == ay * ay) by (nonlinear_arith)
        requires
            ax == abs(x),
            ay == abs(y),
    ;
    assert(ax * ay >= 0 && ax * av >= 0 && ay * au >= 0 && ay * av >= 0 && ax * au >= 0) by (nonlinear_arith)
        requires
            ax >= 0,
            ay >= 0,
            au >= 0,
            av >= 0,
    ;
    let big = if ax >= ay { ax } else { ay };
    let step = if ax >= ay { au } else { av };
    assert(2 * ax * au + 2 * ay * av >= 2 * big * step);
    assert(d * d <= 2 * big * big) by (nonlinear_arith)
        requires
            d * d <= ax * ax + ay * ay,
            big == if ax >= ay { ax } else { ay },
            ax >= 0,
            ay >= 0,
    ;
    assert(2 * big >= d) by (nonlinear_arith)
        requires
            d * d <= 2 * big * big,
            big >= 0,
            d >= 1,
    ;
    assert(2 * big * step >= 3 * d) by (nonlinear_arith)
        requires
            2 * big >= d,
            step >= 3,
            big >= 0,
    ;
    assert((x + u) * (x + u) + (y + v) * (y + v) >= (d + 1) * (d + 1)) by (nonlinear_arith)
        requires
            (x + u) * (x + u) + (y + v) * (y + v) >= x * x + y * y + 3 * d,
            x * x + y * y >= d * d,
            d >= 1,
    ;
    lemma_root_at_least((x + u) * (x + u) + (y + v) * (y + v), d + 1);
}

/// The displacement of one body's component in a correction.
pub open spec fn part(nc: int, amount: int, m: int, other: int) -> int {
    if m == 0 {
        0
    } else {
        tdiv(nc * amount * share_num(m, other), SCALE * share_den(m, other))
    }
}

/// The two bodies' displacements along one component follow the sign of the
/// normal's component; where that component is at least half a unit and the
/// amount at least 10 units, they add up to at least 3.
proof fn lemma_parts(nc: int, amount: int, ma: int, mb: int)
    requires
        -SCALE <= nc <= SCALE,
        amount >= 0,
        0 <= ma <= MASS_LIMIT,
        0 <= mb <= MASS_LIMIT,
        ma > 0 || mb > 0,
    ensures
        nc >= 0 ==> part(nc, amount, ma, mb) + part(nc, amount, mb, ma) >= 0,
        nc <= 0 ==> part(nc, amount, ma, mb) + part(nc, amount, mb, ma) <= 0,
        abs(nc) >= SCALE / 2 && amount >= 10 ==> abs(part(nc, amount, ma, mb) + part(nc, amount, mb, ma)) >= 3,
        abs(part(nc, amount, ma, mb)) <= amount,
        abs(part(nc, amount, mb, ma)) <= amount,
{
    let an = abs(nc);
    if ma > 0 {
        let q = SCALE * share_den(ma, mb);
        assert(q > 0);
        lemma_tdiv_sign(nc * amount * share_num(ma, mb), q);
        assert(nc >= 0 ==> nc * amount * share_num(ma, mb) >= 0) by (nonlinear_arith)
            requires
                amount >= 0,
                share_num(ma, mb) >= 0,
        ;
        assert(nc <= 0 ==> nc * amount * share_num(ma, mb) <= 0) by (nonlinear_arith)
            requires
                amount >= 0,
                share_num(ma, mb) >= 0,
        ;
        assert(abs(nc * amount * share_num(ma, mb)) == an * amount * share_num(ma, mb)) by (nonlinear_arith)
            requires
                amount >= 0,
                share_num(ma, mb) >= 0,
                an == abs(nc),
        ;
        assert((an * amount * share_num(ma, mb)) / q <= amount) by (nonlinear_arith)
            requires
                0 <= an <= 10000,
                amount >= 0,
                0 <= share_num(ma, mb) <= share_den(ma, mb),
                q == 10000 * share_den(ma, mb),
                q > 0,
        ;
    }
    if mb > 0 {
        let q = SCALE * share_den(mb, ma);
        assert(q > 0);
        lemma_tdiv_sign(nc * amount * share_num(mb, ma), q);
        assert(nc >= 0 ==> nc * amount * share_num(mb, ma) >= 0) by (nonlinear_arith)
            requires
                amount >= 0,
                share_num(mb, ma) >= 0,
        ;
        assert(nc <= 0 ==> nc * amount * share_num(mb, ma) <= 0) by (nonlinear_arith)
            requires
                amount >= 0,
                share_num(mb, ma) >= 0,
        ;
        assert(abs(nc * amount * share_num(mb, ma)) == an * amount * share_num(mb, ma)) by (nonlinear_arith)
            requires
                amount >= 0,
                share_num(mb, ma) >= 0,
                an == abs(nc),
        ;
        assert((an * amount * share_num(mb, ma)) / q <= amount) by (nonlinear_arith)
            requires
                0 <= an <= 10000,
                amount >= 0,
                0 <= share_num(mb, ma) <= share_den(mb, ma),
                q == 10000 * share_den(mb, ma),
                q > 0,
        ;
    }
    let pa = part(nc, amount, ma, mb);
    let pb = part(nc, amount, mb, ma);
    if an >= SCALE / 2 && amount >= 10 {
        assert(an * amount >= 50000) by (nonlinear_arith)
            requires
                an >= 5000,
                amount >= 10,
        ;
        if ma > 0 && mb > 0 {
            let q = SCALE * (ma + mb);
            let xa = an * amount * mb;
            let xb = an * amount * ma;
            assert(xa + xb >= 5 * q) by (nonlinear_arith)
                requires
                    an * amount >= 50000,
                    xa == an * amount * mb,
                    xb == an * amount * ma,
                    q == 10000 * (ma + mb),
                    ma > 0,
                    mb > 0,
            ;
            assert((xa / q) * q > xa - q && (xb / q) * q > xb - q) by (nonlinear_arith)
                requires
                    q > 0,
            ;
            assert(xa / q + xb / q >= 3) by (nonlinear_arith)
                requires
                    (xa / q) * q > xa - q,
                    (xb / q) * q > xb - q,
                    xa + xb >= 5 * q,
                    q > 0,
            ;
        } else if ma > 0 {
            assert((an * amount) / 10000 >= 5) by (nonlinear_arith)
                requires
                    an * amount >= 50000,
            ;
        } else {
            assert((an * amount) / 10000 >= 5) by (nonlinear_arith)
                requires
                    an * amount >= 50000,
            ;
        }
    }
}

/// Bound on coordinates and radii under which no quantity of a correction
/// between two circles saturates.
pub const MODEST: i64 = 72057594037927936;

pub open spec fn modest(b: Ball) -> bool {
    &&& -MODEST <= b.position.x <= MODEST
    &&& -MODEST <= b.position.y <= MODEST
    &&& 0 <= b.radius <= MODEST
}

/// How deeply two circles overlap: the penetration of their contact, or
/// zero when they do not touch.
pub open spec fn overlap(a: Ball, b: Ball) -> int {
    match balls_contact(a, b) {
        Some(c) => c.penetration as int,
        None => 0,
    }
}

/// Two circles after one positional correction with the default settings,
/// when they overlap.
pub open spec fn correct_pass(a: Ball, b: Ball) -> (Ball, Ball) {
    match balls_contact(a, b) {
        Some(c) => {
            let cfg = default_config();
            let moved = corrected_positions(
                a.spec_state(),
                b.spec_state(),
                c,
                cfg.ball_percent as int,
                cfg.slop as int,
            );
            (with_position(a, moved.0), with_position(b, moved.1))
        },
        None => (a, b),
    }
}

/// One correction of two circles with distinct centres that overlap by at
/// least the slop, at least one of them movable: the overlap shrinks, the
/// centres stay distinct, and no coordinate moves by more than the overlap.
proof fn lemma_pass(a: Ball, b: Ball)
    requires
        a.wf(),
        b.wf(),
        modest(a),
        modest(b),
        a.mass > 0 || b.mass > 0,
        a.position != b.position,
        balls_contact(a, b) is Some,
        balls_contact(a, b).unwrap().penetration >= default_config().slop,
    ensures
        overlap(correct_pass(a, b).0, correct_pass(a, b).1) < overlap(a, b),
        correct_pass(a, b).0.position != correct_pass(a, b).1.position,
        abs(correct_pass(a, b).0.position.x - a.position.x) <= overlap(a, b),
        abs(correct_pass(a, b).0.position.y - a.position.y) <= overlap(a, b),
        abs(correct_pass(a, b).1.position.x - b.position.x) <= overlap(a, b),
        abs(correct_pass(a, b).1.position.y - b.position.y) <= overlap(a, b),
        correct_pass(a, b).0 == with_position(a, correct_pass(a, b).0.position),
        correct_pass(a, b).1 == with_position(b, correct_pass(a, b).1.position),
{
    let cfg = default_config();
    let c = balls_contact(a, b).unwrap();
    let dv = vsub(a.position, b.position);
    let x = dv.x as int;
    let y = dv.y as int;
    assert(x == a.position.x - b.position.x);
    assert(y == a.position.y - b.position.y);
    let r = a.radius + b.radius;
    assert(sat(a.radius + b.radius) == r);
    let s = norm_sq(dv);
    assert(s >= 1) by (nonlinear_arith)
        requires
            s == x * x + y * y,
            x != 0 || y != 0,
    ;
    lemma_root_exists(s);
    let d = norm(dv);
    assert(d >= 1) by (nonlinear_arith)
        requires
            s < (d + 1) * (d + 1),
            s >= 1,
            d >= 0,
    ;
    assert(s < r * r);
    assert(d < r) by (nonlinear_arith)
        requires
            d * d <= s,
            s < r * r,
            d >= 0,
            r >= 0,
    ;
    let p = r - d;
    assert(c.penetration == p);
    assert(c.normal == vnormalise(dv));
    let n = c.normal;
    crate::vec2::lemma_normalise(dv);
    // the amount moved is a tenth of the penetration
    let amount = fmul(cfg.ball_percent as int, p);
    assert(amount == (1000 * p) / 10000);
    assert(10 <= (1000 * p) / 10000 <= p) by (nonlinear_arith)
        requires
            p >= 100,
    ;
    let ma = a.mass as int;
    let mb = b.mass as int;
    lemma_parts(n.x as int, amount, ma, mb);
    lemma_parts(n.y as int, amount, ma, mb);
    let ux = part(n.x as int, amount, ma, mb) + part(n.x as int, amount, mb, ma);
    let uy = part(n.y as int, amount, ma, mb) + part(n.y as int, amount, mb, ma);
    let moved = corrected_positions(a.spec_state(), b.spec_state(), c, cfg.ball_percent as int, cfg.slop as int);
    let a2 = with_position(a, moved.0);
    let b2 = with_position(b, moved.1);
    assert(moved.0.x == a.position.x + part(n.x as int, amount, ma, mb));
    assert(moved.0.y == a.position.y + part(n.y as int, amount, ma, mb));
    assert(moved.1.x == b.position.x - part(n.x as int, amount, mb, ma));
    assert(moved.1.y == b.position.y - part(n.y as int, amount, mb, ma));
    let dv2 = vsub(a2.position, b2.position);
    assert(dv2.x == x + ux && dv2.y == y + uy);
    lemma_moving_out(x, y, ux, uy, d);
    let s2 = norm_sq(dv2);
    assert(s2 == (x + ux) * (x + ux) + (y + uy) * (y + uy));
    assert(s2 >= 0) by (nonlinear_arith)
        requires
            s2 == (x + ux) * (x + ux) + (y + uy) * (y + uy),
    ;
    if s2 < r * r {
        let d2 = norm(dv2);
        lemma_root_exists(s2);
        assert(d2 < r) by (nonlinear_arith)
            requires
                d2 * d2 <= s2,
                s2 < r * r,
                d2 >= 0,
                r >= 0,
        ;
        assert(balls_contact(a2, b2).unwrap().penetration == r - d2);
    }
    assert(correct_pass(a, b) == (a2, b2));
    if a2.position == b2.position {
        assert(ux == -x && uy == -y);
        assert(s2 == 0);
        lemma_root_exists(0);
        assert(norm(dv2) == 0) by (nonlinear_arith)
            requires
                norm(dv2) * norm(dv2) <= 0,
                norm(dv2) >= 0,
        ;
    }
}

/// For two circles with distinct centres that overlap by more than the slop,
/// at least one of them movable, one positional correction with the default
/// settings strictly reduces the penetration (or ends the overlap).
/// The circles keep overlapping by a non-negative amount or stop touching.
/// Coordinates and radii are taken within `MODEST`, where nothing saturates.
pub proof fn correction_reduces_penetration(a: Ball, b: Ball)
    requires
        a.wf(),
        b.wf(),
        modest(a),
        modest(b),
        a.mass > 0 || b.mass > 0,
        a.position != b.position,
        balls_contact(a, b) is Some,
        balls_contact(a, b).unwrap().penetration > default_config().slop,
    ensures
        0 <= overlap(correct_pass(a, b).0, correct_pass(a, b).1) < overlap(a, b),
{
    lemma_pass(a, b);
    let next = correct_pass(a, b);
    if let Some(c) = balls_contact(next.0, next.1) {
        lemma_overlap_bounds(next.0, next.1);
    }
}

/// Two circles after `k` default corrections.
pub open spec fn correct_passes(a: Ball, b: Ball, k: nat) -> (Ball, Ball)
    decreases k,
{
    if k == 0 {
        (a, b)
    } else {
        let prev = correct_passes(a, b, (k - 1) as nat);
        correct_pass(prev.0, prev.1)
    }
}

/// Bound on the coordinates of two circles whose corrections are followed.
pub const NEAR: i64 = 36028797018963968;

/// Bound on their radii.
pub const SMALL_RADIUS: i64 = 67108864;

/// Two circles that started as `a0`, `b0` and have been corrected some
/// times: same bodies, distinct centres, no deeper overlap, and coordinates
/// that have moved by at most `2 * SMALL_RADIUS` for each unit the overlap
/// has lost.
pub open spec fn followed(a0: Ball, b0: Ball, a: Ball, b: Ball) -> bool {
    let lost = overlap(a0, b0) - overlap(a, b);
    let bound = NEAR + lost * (2 * SMALL_RADIUS);
    &&& a == with_position(a0, a.position)
    &&& b == with_position(b0, b.position)
    &&& a.position != b.position
    &&& 0 <= overlap(a, b) <= overlap(a0, b0)
    &&& -bound <= a.position.x <= bound
    &&& -bound <= a.position.y <= bound
    &&& -bound <= b.position.x <= bound
    &&& -bound <= b.position.y <= bound
}

pub open spec fn start(a: Ball, b: Ball) -> bool {
    &&& a.wf()
    &&& b.wf()
    &&& -NEAR <= a.position.x <= NEAR
    &&& -NEAR <= a.position.y <= NEAR
    &&& -NEAR <= b.position.x <= NEAR
    &&& -NEAR <= b.position.y <= NEAR
    &&& 0 <= a.radius <= SMALL_RADIUS
    &&& 0 <= b.radius <= SMALL_RADIUS
    &&& a.mass > 0 || b.mass > 0
    &&& a.position != b.position
}

proof fn lemma_overlap_bounds(a: Ball, b: Ball)
    requires
        a.position != b.position,
        a.wf(),
        b.wf(),
        0 <= a.radius <= MODEST,
        0 <= b.radius <= MODEST,
    ensures
        0 <= overlap(a, b) <= a.radius + b.radius,
{
    if let Some(c) = balls_contact(a, b) {
        let dv = vsub(a.position, b.position);
        let s = norm_sq(dv);
        crate::vec2::lemma_norm_sq_bound(dv);
        lemma_root_exists(s);
        let r = a.radius + b.radius;
        assert(sat(a.radius + b.radius) == r);
        assert(s < r * r);
        let d = norm(dv);
        assert(d < r) by (nonlinear_arith)
            requires
                d * d <= s,
                s < r * r,
                d >= 0,
                r >= 0,
        ;
        assert(dv.x != 0 || dv.y != 0);
        assert(s >= 1) by (nonlinear_arith)
            requires
                s == dv.x * dv.x + dv.y * dv.y,
                dv.x != 0 || dv.y != 0,
        ;
        assert(d >= 1) by (nonlinear_arith)
            requires
                s < (d + 1) * (d + 1),
                s >= 1,
                d >= 0,
        ;
    }
}

/// One more correction keeps the circles followed, never deepens the
/// overlap, and reduces it when it is at least the slop.
proof fn lemma_follow_step(a0: Ball, b0: Ball, a: Ball, b: Ball)
    requires
        start(a0, b0),
        followed(a0, b0, a, b),
    ensures
        followed(a0, b0, correct_pass(a, b).0, correct_pass(a, b).1),
        overlap(correct_pass(a, b).0, correct_pass(a, b).1) <= overlap(a, b),
        overlap(a, b) >= default_config().slop ==> overlap(correct_pass(a, b).0, correct_pass(a, b).1)
            < overlap(a, b),
{
    lemma_overlap_bounds(a0, b0);
    let p_start = overlap(a0, b0);
    let p = overlap(a, b);
    let lost = p_start - p;
    assert(0 <= lost * (2 * SMALL_RADIUS) <= 2 * SMALL_RADIUS * (2 * SMALL_RADIUS)) by (nonlinear_arith)
        requires
            0 <= lost <= p_start,
            p_start <= 2 * SMALL_RADIUS,
    ;
    assert(a.wf() && b.wf());
    match balls_contact(a, b) {
        Some(c) => {
            if c.penetration >= default_config().slop {
                lemma_pass(a, b);
                let next = correct_pass(a, b);
                lemma_overlap_bounds(next.0, next.1);
                let q = overlap(next.0, next.1);
                assert(q <= p - 1);
                assert((p_start - q) * (2 * SMALL_RADIUS) >= lost * (2 * SMALL_RADIUS) + 2 * SMALL_RADIUS) by (nonlinear_arith)
                    requires
                        q <= p - 1,
                        lost == p_start - p,
                ;
                assert(p <= 2 * SMALL_RADIUS);
            } else {
                assert(correct_pass(a, b).0 == a);
                assert(correct_pass(a, b).1 == b);
            }
        },
        None => {},
    }
}

proof fn lemma_follow(a0: Ball, b0: Ball, k: nat)
    requires
        start(a0, b0),
    ensures
        followed(a0, b0, correct_passes(a0, b0, k).0, correct_passes(a0, b0, k).1),
        overlap(correct_passes(a0, b0, k).0, correct_passes(a0, b0, k).1) < default_config().slop
            || overlap(correct_passes(a0, b0, k).0, correct_passes(a0, b0, k).1) <= overlap(a0, b0) - k,
    decreases k,
{
    if k == 0 {
        lemma_overlap_bounds(a0, b0);
        assert(a0 == with_position(a0, a0.position));
        assert(b0 == with_position(b0, b0.position));
    } else {
        lemma_follow(a0, b0, (k - 1) as nat);
        let prev = correct_passes(a0, b0, (k - 1) as nat);
        lemma_follow_step(a0, b0, prev.0, prev.1);
    }
}

/// Repeated default corrections of two circles with distinct centres, at
/// least one of them movable, never deepen their overlap, and each one made
/// while the overlap is at least the slop reduces it: after `k` of them the
/// overlap is below the slop or smaller than at the start by at least `k`,
/// so it falls below the slop within as many corrections as it started with.
/// Coordinates start within `NEAR` and radii within `SMALL_RADIUS`, where
/// nothing saturates however many corrections are made.
pub proof fn repeated_corrections_converge(a: Ball, b: Ball, k: nat)
    requires
        start(a, b),
    ensures
        overlap(correct_passes(a, b, k + 1).0, correct_passes(a, b, k + 1).1)
            <= overlap(correct_passes(a, b, k).0, correct_passes(a, b, k).1),
        overlap(correct_passes(a, b, k).0, correct_passes(a, b, k).1) < default_config().slop
            || overlap(correct_passes(a, b, k).0, correct_passes(a, b, k).1) <= overlap(a, b) - k,
{
    lemma_follow(a, b, k);
    let cur = correct_passes(a, b, k);
    lemma_follow_step(a, b, cur.0, cur.1);
}

/// Two bodies of equal positive mass and full restitution meeting head-on
/// along the x axis, `a` moving at `v` toward `b` moving at `-v`, with the
/// normal pointing from `b` to `a`, leave the impulse with their velocities
/// exchanged. Speeds are taken up to a quarter of `LIMIT`, where nothing
/// saturates.
pub proof fn elastic_head_on_exchange(a: BodyState, b: BodyState, v: int)
    requires
        a.wf(),
        b.wf(),
        a.mass == b.mass > 0,
        a.restitution == SCALE,
        b.restitution == SCALE,
        0 < v <= LIMIT / 4,
        a.velocity == (Vec2 { x: v as i64, y: 0 }),
        b.velocity == (Vec2 { x: (-v) as i64, y: 0 }),
    ensures
        resolved_velocities(a, b, Vec2 { x: (-SCALE) as i64, y: 0 }) == (
            Vec2 { x: (-v) as i64, y: 0 },
            Vec2 { x: v as i64, y: 0 },
        ),
{
    let n = Vec2 { x: (-SCALE) as i64, y: 0 };
    let rel = vsub(a.velocity, b.velocity);
    assert(rel.x == 2 * v && rel.y == 0);
    assert(rel.x * n.x + rel.y * n.y == -(2 * v) * 10000) by (nonlinear_arith)
        requires
            rel.x == 2 * v,
            rel.y == 0,
            n.x == -10000,
            n.y == 0,
    ;
    assert(tdiv(-(2 * v) * 10000, 10000) == -(2 * v)) by (nonlinear_arith)
        requires
            v > 0,
    ;
    let vn = normal_speed(a, b, n);
    assert(vn == -(2 * v));
    assert(tdiv(-((10000 + 10000) * vn), 10000) == 4 * v) by (nonlinear_arith)
        requires
            vn == -(2 * v),
            v > 0,
    ;
    let m = a.mass as int;
    let k = 4 * v;
    assert(share_num(m, m) == m && share_den(m, m) == 2 * m);
    let q = 10000 * (2 * m);
    assert(-10000 * k * m == -((2 * v) * q) && q > 0) by (nonlinear_arith)
        requires
            k == 4 * v,
            q == 10000 * (2 * m),
            m > 0,
    ;
    assert(((2 * v) * q) / q == 2 * v) by (nonlinear_arith)
        requires
            q > 0,
    ;
    assert(tdiv(-10000 * k * m, q) == -(2 * v));
    assert(0 * k * m == 0) by (nonlinear_arith);
    assert(0int / q == 0) by (nonlinear_arith)
        requires
            q > 0,
    ;
    assert(tdiv(0 * k * m, q) == 0);
}

} // verus!
