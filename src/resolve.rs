//! Contact response: an impulse along the normal changes velocities, and a
//! positional correction pushes overlapping bodies apart. Either is shared
//! between the two bodies in proportion to their inverse masses, and a fixed
//! body (zero mass) is never changed.
use vstd::prelude::*;
use crate::body::BodyState;
use crate::collision::Contact;
use crate::fixed::{abs, fmul, fx_mul, in_range, sat, sat_i128, tdiv, tdiv_i128, LIMIT, MASS_LIMIT, SCALE};
use crate::vec2::{vadd, vdot, vsub, Vec2};

verus! {

/// The part of a shared push that falls to a movable body of mass `m`
/// facing one of mass `other`, as `num / den`: `inv(m) / (inv(m) + inv(other))`,
/// which is `other / (m + other)`, or all of it against a fixed body.
pub open spec fn share_num(m: int, other: int) -> int {
    if other == 0 {
        1
    } else {
        other
    }
}

pub open spec fn share_den(m: int, other: int) -> int {
    if other == 0 {
        1
    } else {
        m + other
    }
}

/// `n * k * num / den`, `n` being a unit normal and `k` a fixed-point amount.
pub open spec fn push(n: Vec2, k: int, num: int, den: int) -> Vec2 {
    Vec2 {
        x: tdiv(n.x * k * num, SCALE * den) as i64,
        y: tdiv(n.y * k * num, SCALE * den) as i64,
    }
}

/// Relative velocity of `a` with respect to `b` along the normal.
pub open spec fn normal_speed(a: BodyState, b: BodyState, n: Vec2) -> int {
    vdot(vsub(a.velocity, b.velocity), n)
}

pub open spec fn min(a: int, b: int) -> int {
    if a < b {
        a
    } else {
        b
    }
}

/// Velocities after the impulse: `j = -(1 + e) * vn / (inv_a + inv_b)` with
/// `e` the smaller restitution, `a` gains `n * j * inv_a` and `b` loses
/// `n * j * inv_b`. Separating pairs and pairs of fixed bodies are left alone.
pub open spec fn resolved_velocities(a: BodyState, b: BodyState, n: Vec2) -> (Vec2, Vec2) {
    let vn = normal_speed(a, b, n);
    if vn > 0 || (a.mass == 0 && b.mass == 0) {
        (a.velocity, b.velocity)
    } else {
        let e = min(a.restitution as int, b.restitution as int);
        let k = sat(tdiv(-((SCALE + e) * vn), SCALE as int));
        let va = if a.mass == 0 {
            a.velocity
        } else {
            vadd(a.velocity, push(n, k, share_num(a.mass as int, b.mass as int), share_den(a.mass as int, b.mass as int)))
        };
        let vb = if b.mass == 0 {
            b.velocity
        } else {
            vsub(b.velocity, push(n, k, share_num(b.mass as int, a.mass as int), share_den(b.mass as int, a.mass as int)))
        };
        (va, vb)
    }
}

/// Positions after correcting the overlap: nothing below `slop`; otherwise
/// `percent` of the penetration, split by inverse mass along the normal.
pub open spec fn corrected_positions(
    a: BodyState,
    b: BodyState,
    c: Contact,
    percent: int,
    slop: int,
) -> (Vec2, Vec2) {
    if c.penetration < slop || (a.mass == 0 && b.mass == 0) {
        (a.position, b.position)
    } else {
        let amount = fmul(percent, c.penetration as int);
        let pa = if a.mass == 0 {
            a.position
        } else {
            vadd(a.position, push(c.normal, amount, share_num(a.mass as int, b.mass as int), share_den(a.mass as int, b.mass as int)))
        };
        let pb = if b.mass == 0 {
            b.position
        } else {
            vsub(b.position, push(c.normal, amount, share_num(b.mass as int, a.mass as int), share_den(b.mass as int, a.mass as int)))
        };
        (pa, pb)
    }
}

proof fn lemma_push_component(nc: int, k: int, num: int, den: int)
    requires
        -SCALE <= nc <= SCALE,
        in_range(k),
        1 <= num <= den <= 2 * MASS_LIMIT,
    ensures
        -0x0100_0000_0000_0000_0000_0000_0000 <= nc * k <= 0x0100_0000_0000_0000_0000_0000_0000,
        -0x0100_0000_0000_0000_0000_0000_0000_0000 <= nc * k * num <= 0x0100_0000_0000_0000_0000_0000_0000_0000,
        in_range(tdiv(nc * k * num, SCALE * den)),
{
    let a = nc * k * num;
    let b = SCALE * den;
    assert(-0x0100_0000_0000_0000_0000_0000_0000 <= nc * k <= 0x0100_0000_0000_0000_0000_0000_0000) by (nonlinear_arith)
        requires
            -SCALE <= nc <= SCALE,
            in_range(k),
    ;
    let ak = abs(k);
    assert(abs(a) <= SCALE * ak * num) by (nonlinear_arith)
        requires
            -SCALE <= nc <= SCALE,
            num >= 1,
            a == nc * k * num,
            ak == abs(k),
    ;
    assert(SCALE * ak * num <= b * ak) by (nonlinear_arith)
        requires
            num <= den,
            ak >= 0,
            b == SCALE * den,
    ;
    assert(b * ak <= b * LIMIT) by (nonlinear_arith)
        requires
            0 <= ak <= LIMIT,
            b >= 0,
    ;
    assert(b * LIMIT <= 0x0100_0000_0000_0000_0000_0000_0000_0000) by (nonlinear_arith)
        requires
            b == SCALE * den,
            den <= 2 * MASS_LIMIT,
    ;
    if a >= 0 {
        assert(a / b <= LIMIT) by (nonlinear_arith)
            requires
                0 <= a <= b * LIMIT,
                b > 0,
        ;
        assert(a / b >= 0) by (nonlinear_arith)
            requires
                0 <= a,
                b > 0,
        ;
    } else {
        assert((-a) / b <= LIMIT) by (nonlinear_arith)
            requires
                0 <= -a <= b * LIMIT,
                b > 0,
        ;
        assert((-a) / b >= 0) by (nonlinear_arith)
            requires
                0 <= -a,
                b > 0,
        ;
    }
}

fn push_exec(n: Vec2, k: i64, num: i64, den: i64) -> (r: Vec2)
    requires
        -SCALE <= n.x <= SCALE,
        -SCALE <= n.y <= SCALE,
        in_range(k as int),
        1 <= num <= den <= 2 * MASS_LIMIT,
    ensures
        r == push(n, k as int, num as int, den as int),
        r.wf(),
{
    proof {
        lemma_push_component(n.x as int, k as int, num as int, den as int);
        lemma_push_component(n.y as int, k as int, num as int, den as int);
    }
    let d = (SCALE as i128) * (den as i128);
    let x = tdiv_i128((n.x as i128) * (k as i128) * (num as i128), d);
    let y = tdiv_i128((n.y as i128) * (k as i128) * (num as i128), d);
    Vec2 { x: x as i64, y: y as i64 }
}

/// The share of body `m` facing body `other`, as `(num, den)`.
fn share(m: i64, other: i64) -> (r: (i64, i64))
    requires
        0 < m <= MASS_LIMIT,
        0 <= other <= MASS_LIMIT,
    ensures
        r.0 == share_num(m as int, other as int),
        r.1 == share_den(m as int, other as int),
        1 <= r.0 <= r.1 <= 2 * MASS_LIMIT,
{
    if other == 0 {
        (1, 1)
    } else {
        (other, m + other)
    }
}

/// Applies the impulse of a contact with normal `normal` to two bodies and
/// returns their new velocities.
pub fn resolve_collision(a: &BodyState, b: &BodyState, normal: Vec2) -> (r: (Vec2, Vec2))
    requires
        a.wf(),
        b.wf(),
        normal.wf(),
        -SCALE <= normal.x <= SCALE,
        -SCALE <= normal.y <= SCALE,
    ensures
        r == resolved_velocities(*a, *b, normal),
        r.0.wf(),
        r.1.wf(),
        normal_speed(*a, *b, normal) > 0 ==> r == (a.velocity, b.velocity),
        a.mass == 0 ==> r.0 == a.velocity,
        b.mass == 0 ==> r.1 == b.velocity,
{
    let vn = Vec2::dot(a.velocity.sub(b.velocity), normal);
    if vn > 0 || (a.mass == 0 && b.mass == 0) {
        return (a.velocity, b.velocity);
    }
    let e = if a.restitution < b.restitution {
        a.restitution
    } else {
        b.restitution
    };
    proof {
        assert(-0x0400_0000_0000_0000_0000_0000_0000_0000 <= (SCALE + e) * vn
            <= 0x0400_0000_0000_0000_0000_0000_0000_0000) by (nonlinear_arith)
            requires
                in_range(e as int),
                in_range(vn as int),
        ;
    }
    let k = sat_i128(tdiv_i128(-((SCALE as i128 + e as i128) * (vn as i128)), SCALE as i128));
    let va = if a.mass == 0 {
        a.velocity
    } else {
        let (num, den) = share(a.mass, b.mass);
        a.velocity.add(push_exec(normal, k, num, den))
    };
    let vb = if b.mass == 0 {
        b.velocity
    } else {
        let (num, den) = share(b.mass, a.mass);
        b.velocity.sub(push_exec(normal, k, num, den))
    };
    (va, vb)
}

/// Moves two overlapping bodies apart along the contact normal and returns
/// their new positions.
pub fn correct_positions(a: &BodyState, b: &BodyState, c: &Contact, percent: i64, slop: i64) -> (r: (
    Vec2,
    Vec2,
))
    requires
        a.wf(),
        b.wf(),
        c.wf(),
        in_range(percent as int),
    ensures
        r == corrected_positions(*a, *b, *c, percent as int, slop as int),
        r.0.wf(),
        r.1.wf(),
        c.penetration < slop ==> r == (a.position, b.position),
        a.mass == 0 ==> r.0 == a.position,
        b.mass == 0 ==> r.1 == b.position,
{
    if c.penetration < slop || (a.mass == 0 && b.mass == 0) {
        return (a.position, b.position);
    }
    let amount = fx_mul(percent, c.penetration);
    let pa = if a.mass == 0 {
        a.position
    } else {
        let (num, den) = share(a.mass, b.mass);
        a.position.add(push_exec(c.normal, amount, num, den))
    };
    let pb = if b.mass == 0 {
        b.position
    } else {
        let (num, den) = share(b.mass, a.mass);
        b.position.sub(push_exec(c.normal, amount, num, den))
    };
    (pa, pb)
}

} // verus!
