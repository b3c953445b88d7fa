//! Narrow-phase detection: whether a circle overlaps another circle or a
//! rectangle, and if so the contact's normal and penetration depth.
use vstd::prelude::*;
use crate::body::{Ball, Block};
use crate::fixed::{abs, clamp, in_range, isqrt, sat, sat_i128, tdiv, tdiv_i128, LIMIT, SCALE};
use crate::vec2::{lemma_norm_sq_bound, near_unit, norm, norm_sq, vnormalise, vsub, Vec2};

verus! {

/// A contact: the unit normal, pointing from the second body toward the
/// first, and how deep the two overlap.
#[derive(Clone, Copy, Debug, PartialEq, Eq, Structural)]
pub struct Contact {
    pub normal: Vec2,
    pub penetration: i64,
}

impl Contact {
    pub open spec fn wf(self) -> bool {
        &&& self.normal.wf()
        &&& -SCALE <= self.normal.x <= SCALE
        &&& -SCALE <= self.normal.y <= SCALE
        &&& in_range(self.penetration as int)
    }
}

/// The normal used when two circles share a centre.
pub open spec fn fallback_normal() -> Vec2 {
    Vec2 { x: 0, y: (-SCALE) as i64 }
}

/// Circle against circle: they overlap when the squared distance between the
/// centres is below the squared sum of the radii.
pub open spec fn balls_contact(a: Ball, b: Ball) -> Option<Contact> {
    let r = sat(a.radius + b.radius);
    let diff = vsub(a.position, b.position);
    if norm_sq(diff) >= r * r {
        None
    } else if norm(diff) != 0 {
        Some(Contact { normal: vnormalise(diff), penetration: sat(r - norm(diff)) as i64 })
    } else {
        Some(Contact { normal: fallback_normal(), penetration: a.radius })
    }
}

/// Twice the offset of `c` from the middle of `[pos, pos + size]`; working
/// with doubled offsets keeps odd sizes exact.
pub open spec fn offset2(c: int, pos: int, size: int) -> int {
    2 * c - 2 * pos - size
}

/// The doubled offset clamped into the interval.
pub open spec fn clamped2(c: int, pos: int, size: int) -> int {
    clamp(offset2(c, pos, size), -size, size)
}

/// The point of `[pos, pos + size]` nearest to `c`.
pub open spec fn nearest(c: int, pos: int, size: int) -> int {
    sat(pos + tdiv(size + clamped2(c, pos, size), 2))
}

/// The point of the rectangle nearest to the circle's centre.
pub open spec fn closest_point(b: Ball, k: Block) -> Vec2 {
    Vec2 {
        x: nearest(b.position.x as int, k.position.x as int, k.size.x as int) as i64,
        y: nearest(b.position.y as int, k.position.y as int, k.size.y as int) as i64,
    }
}

/// The circle's centre lies within the rectangle.
pub open spec fn center_inside(b: Ball, k: Block) -> bool {
    &&& clamped2(b.position.x as int, k.position.x as int, k.size.x as int) == offset2(
        b.position.x as int,
        k.position.x as int,
        k.size.x as int,
    )
    &&& clamped2(b.position.y as int, k.position.y as int, k.size.y as int) == offset2(
        b.position.y as int,
        k.position.y as int,
        k.size.y as int,
    )
}

/// For a centre inside the rectangle, the nearest point moved onto a face:
/// a vertical face when the centre is nearer the middle horizontally than
/// vertically, else a horizontal one; of the two parallel faces, the one on
/// the centre's side.
pub open spec fn face_point(b: Ball, k: Block) -> Vec2 {
    let c = closest_point(b, k);
    let ox = offset2(b.position.x as int, k.position.x as int, k.size.x as int);
    let oy = offset2(b.position.y as int, k.position.y as int, k.size.y as int);
    if abs(ox) < abs(oy) {
        Vec2 {
            x: if ox > 0 { sat(k.position.x + k.size.x) as i64 } else { k.position.x },
            y: c.y,
        }
    } else {
        Vec2 {
            x: c.x,
            y: if oy > 0 { sat(k.position.y + k.size.y) as i64 } else { k.position.y },
        }
    }
}

pub open spec fn vneg(v: Vec2) -> Vec2 {
    Vec2 { x: (-v.x) as i64, y: (-v.y) as i64 }
}

/// Circle against rectangle. A centre outside overlaps when it is nearer to
/// the rectangle than the radius. A centre inside always collides, with the
/// normal turned to push it back out through the chosen face and the
/// penetration measured from that face point as for a centre outside.
pub open spec fn ball_block_contact(b: Ball, k: Block) -> Option<Contact> {
    if center_inside(b, k) {
        let v = vsub(b.position, face_point(b, k));
        Some(Contact { normal: vneg(vnormalise(v)), penetration: sat(b.radius - norm(v)) as i64 })
    } else {
        let v = vsub(b.position, closest_point(b, k));
        if norm(v) < b.radius {
            Some(Contact { normal: vnormalise(v), penetration: sat(b.radius - norm(v)) as i64 })
        } else {
            None
        }
    }
}

/// Contact between two circles, if they overlap.
pub fn balls_colliding(a: &Ball, b: &Ball) -> (r: Option<Contact>)
    requires
        a.wf(),
        b.wf(),
    ensures
        r == balls_contact(*a, *b),
        r matches Some(c) ==> c.wf() && near_unit(c.normal),
        a.position == b.position && a.radius + b.radius != 0 ==> r == Some(
            Contact { normal: fallback_normal(), penetration: a.radius },
        ),
{
    let r = sat_i128(a.radius as i128 + b.radius as i128);
    let diff = a.position.sub(b.position);
    proof {
        lemma_norm_sq_bound(diff);
        assert(0 <= (r as int) * (r as int) <= LIMIT * LIMIT) by (nonlinear_arith)
            requires
                -LIMIT <= r <= LIMIT,
        ;
    }
    let dsq = diff.length_squared();
    let rr = ((r as i128) * (r as i128)) as u128;
    proof {
        if a.position == b.position && a.radius + b.radius != 0 {
            assert(r != 0);
            assert((r as int) * (r as int) > 0) by (nonlinear_arith)
                requires
                    r != 0,
            ;
            assert(diff.x == 0 && diff.y == 0);
            assert(dsq == 0) by (nonlinear_arith)
                requires
                    dsq == diff.x * diff.x + diff.y * diff.y,
                    diff.x == 0,
                    diff.y == 0,
            ;
        }
    }
    if dsq >= rr {
        return None;
    }
    let d = isqrt(dsq);
    proof {
        if a.position == b.position {
            assert(diff.x == 0 && diff.y == 0);
            assert(dsq == 0) by (nonlinear_arith)
                requires
                    dsq == diff.x * diff.x + diff.y * diff.y,
                    diff.x == 0,
                    diff.y == 0,
            ;
            assert(d == 0) by (nonlinear_arith)
                requires
                    d * d <= dsq,
                    dsq == 0,
            ;
        }
    }
    if d != 0 {
        proof {
            if dsq == 0 {
                assert(d == 0) by (nonlinear_arith)
                    requires
                        d * d <= dsq,
                        dsq == 0,
                ;
            }
        }
        let normal = diff.normalise();
        Some(Contact { normal, penetration: sat_i128(r as i128 - d as i128) })
    } else {
        proof {
            let f = fallback_normal();
            assert(f.x * f.x + f.y * f.y == 100000000) by (nonlinear_arith)
                requires
                    f.x == 0,
                    f.y == -10000,
            ;
        }
        Some(Contact { normal: Vec2 { x: 0, y: -SCALE }, penetration: a.radius })
    }
}

/// Along one axis: the nearest point of `[pos, pos + size]` to `c`, the
/// doubled offset of `c` from its middle, and whether `c` lies within it.
fn nearest_on_axis(c: i64, pos: i64, size: i64) -> (r: (i64, i128, bool))
    requires
        in_range(c as int),
        in_range(pos as int),
        in_range(size as int),
    ensures
        r.0 == nearest(c as int, pos as int, size as int),
        r.1 == offset2(c as int, pos as int, size as int),
        r.2 == (clamped2(c as int, pos as int, size as int) == offset2(c as int, pos as int, size as int)),
        in_range(r.0 as int),
{
    let o = 2 * (c as i128) - 2 * (pos as i128) - size as i128;
    let lo = -(size as i128);
    let hi = size as i128;
    let cl = if o < lo {
        lo
    } else if o > hi {
        hi
    } else {
        o
    };
    let h = tdiv_i128(size as i128 + cl, 2);
    (sat_i128(pos as i128 + h), o, cl == o)
}

fn abs_i128(x: i128) -> (r: i128)
    requires
        -0x1000_0000_0000_0000_0000 <= x <= 0x1000_0000_0000_0000_0000,
    ensures
        r == abs(x as int),
{
    if x < 0 {
        -x
    } else {
        x
    }
}

/// The point of the rectangle nearest to the circle's centre.
pub fn closest_point_ball_block(ball: &Ball, block: &Block) -> (r: Vec2)
    requires
        ball.wf(),
        block.wf(),
    ensures
        r == closest_point(*ball, *block),
        r.wf(),
{
    let (x, _, _) = nearest_on_axis(ball.position.x, block.position.x, block.size.x);
    let (y, _, _) = nearest_on_axis(ball.position.y, block.position.y, block.size.y);
    Vec2 { x, y }
}

/// Contact between a circle and a rectangle, if they overlap.
pub fn ball_block_colliding(ball: &Ball, block: &Block) -> (r: Option<Contact>)
    requires
        ball.wf(),
        block.wf(),
    ensures
        r == ball_block_contact(*ball, *block),
        r matches Some(c) ==> c.wf(),
        r matches Some(c) ==> c.normal == (Vec2 { x: 0, y: 0 }) || near_unit(c.normal),
{
    let (cx, ox, in_x) = nearest_on_axis(ball.position.x, block.position.x, block.size.x);
    let (cy, oy, in_y) = nearest_on_axis(ball.position.y, block.position.y, block.size.y);
    let closest = Vec2 { x: cx, y: cy };
    if in_x && in_y {
        let face = if abs_i128(ox) < abs_i128(oy) {
            let fx = if ox > 0 {
                sat_i128(block.position.x as i128 + block.size.x as i128)
            } else {
                block.position.x
            };
            Vec2 { x: fx, y: closest.y }
        } else {
            let fy = if oy > 0 {
                sat_i128(block.position.y as i128 + block.size.y as i128)
            } else {
                block.position.y
            };
            Vec2 { x: closest.x, y: fy }
        };
        let v = ball.position.sub(face);
        let n = v.normalise();
        proof {
            lemma_norm_sq_bound(v);
        }
        let d = isqrt(v.length_squared());
        proof {
            let m = vneg(n);
            assert(norm_sq(m) == norm_sq(n)) by (nonlinear_arith)
                requires
                    m.x == -n.x,
                    m.y == -n.y,
            ;
            if norm_sq(v) == 0 {
                assert(v.x == 0 && v.y == 0) by (nonlinear_arith)
                    requires
                        v.x * v.x + v.y * v.y == 0,
                ;
            }
        }
        Some(
            Contact {
                normal: Vec2 { x: -n.x, y: -n.y },
                penetration: sat_i128(ball.radius as i128 - d as i128),
            },
        )
    } else {
        let v = ball.position.sub(closest);
        proof {
            lemma_norm_sq_bound(v);
        }
        let d = isqrt(v.length_squared());
        if (d as i128) < (ball.radius as i128) {
            let n = v.normalise();
            proof {
                if norm_sq(v) == 0 {
                    assert(v.x == 0 && v.y == 0) by (nonlinear_arith)
                        requires
                            v.x * v.x + v.y * v.y == 0,
                    ;
                }
            }
            Some(Contact { normal: n, penetration: sat_i128(ball.radius as i128 - d as i128) })
        } else {
            None
        }
    }
}

} // verus!
