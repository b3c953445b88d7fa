//! Two-dimensional vectors of fixed-point quantities.
use vstd::prelude::*;
use crate::fixed::{
    abs, fmul, in_range, is_root, isqrt, fx_mul, lemma_root_at_least, lemma_root_exists, lemma_tdiv_sign, root, sat, sat_i128, tdiv,
    tdiv_i128, LIMIT, SCALE,
};

verus! {

#[derive(Clone, Copy, Debug, PartialEq, Eq, Structural)]
pub struct Vec2 {
    pub x: i64,
    pub y: i64,
}

/// Squared length, in squared units.
pub open spec fn norm_sq(v: Vec2) -> int {
    v.x * v.x + v.y * v.y
}

/// Length, rounded down, in units.
pub open spec fn norm(v: Vec2) -> int {
    root(norm_sq(v))
}

pub open spec fn vadd(a: Vec2, b: Vec2) -> Vec2 {
    Vec2 { x: sat(a.x + b.x) as i64, y: sat(a.y + b.y) as i64 }
}

pub open spec fn vsub(a: Vec2, b: Vec2) -> Vec2 {
    Vec2 { x: sat(a.x - b.x) as i64, y: sat(a.y - b.y) as i64 }
}

pub open spec fn vscale(v: Vec2, k: int) -> Vec2 {
    Vec2 { x: fmul(v.x as int, k) as i64, y: fmul(v.y as int, k) as i64 }
}

/// Fixed-point dot product.
pub open spec fn vdot(a: Vec2, b: Vec2) -> int {
    sat(tdiv(a.x * b.x + a.y * b.y, SCALE as int))
}

/// Squared lengths below this are normalised at a resolution finer by
/// `SCALE`.
pub const FINE_BELOW: u128 = 316912650057057350374175801344;

/// Resolution factor used when normalising `v`.
pub open spec fn refine(v: Vec2) -> int {
    if norm_sq(v) < FINE_BELOW {
        SCALE as int
    } else {
        1
    }
}

/// The length of `v` in units of `1 / refine(v)`, rounded down.
pub open spec fn fine_norm(v: Vec2) -> int {
    root(norm_sq(v) * refine(v) * refine(v))
}

/// Unit vector along `v`, of length `SCALE` up to rounding in each
/// component, or `v` itself when it is zero.
pub open spec fn vnormalise(v: Vec2) -> Vec2 {
    if norm_sq(v) == 0 {
        v
    } else {
        Vec2 {
            x: tdiv(v.x * SCALE * refine(v), fine_norm(v)) as i64,
            y: tdiv(v.y * SCALE * refine(v), fine_norm(v)) as i64,
        }
    }
}

/// A vector whose length is `SCALE` up to the rounding of its components.
pub open spec fn near_unit(n: Vec2) -> bool {
    SCALE * SCALE - 4 * SCALE - 1 <= norm_sq(n) <= SCALE * SCALE + 2 * SCALE
}

proof fn lemma_abs_scaled(x: int, m: int)
    requires
        m >= 1,
    ensures
        abs(x * 10000 * m) == abs(x) * 10000 * m,
{
    if x >= 0 {
        assert(x * 10000 * m >= 0) by (nonlinear_arith)
            requires
                x >= 0,
                m >= 1,
        ;
    } else {
        assert(x * 10000 * m < 0 && -(x * 10000 * m) == (-x) * 10000 * m) by (nonlinear_arith)
            requires
                x < 0,
                m >= 1,
        ;
    }
}

/// Dividing an offset `(x, y)` scaled by `SCALE * m` by its length `l`
/// (in units of `1 / m`) gives components of at most `SCALE` with the
/// offset's signs, a squared length within a few units of `SCALE²`, and at
/// least half of `SCALE` along the larger component.
proof fn lemma_unit_ratio(x: int, y: int, m: int, l: int)
    requires
        m >= 1,
        x * x + y * y >= 1,
        is_root(l, (x * x + y * y) * m * m),
        l >= 10000,
    ensures
        ({
            let qx = tdiv(x * 10000 * m, l);
            let qy = tdiv(y * 10000 * m, l);
            &&& -10000 <= qx <= 10000
            &&& -10000 <= qy <= 10000
            &&& (x >= 0 ==> qx >= 0) && (x <= 0 ==> qx <= 0)
            &&& (y >= 0 ==> qy >= 0) && (y <= 0 ==> qy <= 0)
            &&& 100000000 - 40000 - 1 <= qx * qx + qy * qy <= 100000000 + 20000
            &&& abs(x) >= abs(y) ==> abs(qx) >= 5000
            &&& abs(y) >= abs(x) ==> abs(qy) >= 5000
        }),
{
    let s = x * x + y * y;
    let ax = abs(x);
    let ay = abs(y);
    let big_x = ax * 10000 * m;
    let big_y = ay * 10000 * m;
    lemma_abs_scaled(x, m);
    lemma_abs_scaled(y, m);
    lemma_tdiv_sign(x * 10000 * m, l);
    lemma_tdiv_sign(y * 10000 * m, l);
    assert(x * 10000 * m >= 0 <==> x >= 0) by (nonlinear_arith)
        requires
            m >= 1,
    ;
    assert(x * 10000 * m <= 0 <==> x <= 0) by (nonlinear_arith)
        requires
            m >= 1,
    ;
    assert(y * 10000 * m >= 0 <==> y >= 0) by (nonlinear_arith)
        requires
            m >= 1,
    ;
    assert(y * 10000 * m <= 0 <==> y <= 0) by (nonlinear_arith)
        requires
            m >= 1,
    ;
    let qx = big_x / l;
    let qy = big_y / l;
    assert(x * x == ax * ax && y * y == ay * ay) by (nonlinear_arith)
        requires
            ax == abs(x),
            ay == abs(y),
    ;
    assert(ax >= 0 && ay >= 0);
    // each component of the offset, scaled, is at most the length
    assert(ax * m <= l && ay * m <= l) by (nonlinear_arith)
        requires
            s == ax * ax + ay * ay,
            s * m * m < (l + 1) * (l + 1),
            ax >= 0,
            ay >= 0,
            m >= 1,
            l >= 0,
    ;
    assert(qx * l <= big_x < (qx + 1) * l && qy * l <= big_y < (qy + 1) * l) by (nonlinear_arith)
        requires
            qx == big_x / l,
            qy == big_y / l,
            l > 0,
            big_x >= 0,
            big_y >= 0,
    ;
    assert(0 <= qx <= 10000 && 0 <= qy <= 10000) by (nonlinear_arith)
        requires
            qx * l <= big_x,
            big_x == ax * 10000 * m,
            ax * m <= l,
            qy * l <= big_y,
            big_y == ay * 10000 * m,
            ay * m <= l,
            qx == big_x / l,
            qy == big_y / l,
            big_x >= 0,
            big_y >= 0,
            l > 0,
    ;
    // upper bound on the squared length
    let l2 = l * l;
    assert(l2 > 0) by (nonlinear_arith)
        requires
            l2 == l * l,
            l >= 1,
    ;
    let m2 = m * m;
    let x2 = ax * ax;
    let y2 = ay * ay;
    let qx2 = qx * qx;
    let qy2 = qy * qy;
    assert(qx2 * l2 <= big_x * big_x) by (nonlinear_arith)
        requires
            0 <= qx * l <= big_x,
            qx2 == qx * qx,
            l2 == l * l,
    ;
    assert(qy2 * l2 <= big_y * big_y) by (nonlinear_arith)
        requires
            0 <= qy * l <= big_y,
            qy2 == qy * qy,
            l2 == l * l,
    ;
    assert(big_x * big_x == x2 * 100000000 * m2) by (nonlinear_arith)
        requires
            big_x == ax * 10000 * m,
            x2 == ax * ax,
            m2 == m * m,
    ;
    assert(big_y * big_y == y2 * 100000000 * m2) by (nonlinear_arith)
        requires
            big_y == ay * 10000 * m,
            y2 == ay * ay,
            m2 == m * m,
    ;
    assert(s * m2 == x2 * m2 + y2 * m2) by (nonlinear_arith)
        requires
            s == x2 + y2,
    ;
    assert(s * m * m == s * m2) by (nonlinear_arith)
        requires
            m2 == m * m,
    ;
    assert((qx2 + qy2) * l2 == qx2 * l2 + qy2 * l2) by (nonlinear_arith);
    assert((s * m2) * 100000000 == x2 * 100000000 * m2 + y2 * 100000000 * m2) by (nonlinear_arith)
        requires
            s == x2 + y2,
    ;
    assert((qx2 + qy2) * l2 <= (s * m2) * 100000000);
    assert((s * m2) * 100000000 < (l + 1) * (l + 1) * 100000000);
    assert(10001 * l >= (l + 1) * 10000);
    assert((10001 * l) * (10001 * l) >= ((l + 1) * 10000) * ((l + 1) * 10000)) by (nonlinear_arith)
        requires
            10001 * l >= (l + 1) * 10000 >= 0,
    ;
    assert(qx2 + qy2 <= 100000000 + 20000) by (nonlinear_arith)
        requires
            (qx2 + qy2) * l2 < (l + 1) * (l + 1) * 100000000,
            (10001 * l) * (10001 * l) >= ((l + 1) * 10000) * ((l + 1) * 10000),
            l2 == l * l,
            l >= 10000,
            qx2 + qy2 >= 0,
    ;
    // lower bound on the squared length
    let px2 = (qx + 1) * (qx + 1);
    let py2 = (qy + 1) * (qy + 1);
    assert(px2 * l2 > big_x * big_x) by (nonlinear_arith)
        requires
            0 <= big_x < (qx + 1) * l,
            px2 == (qx + 1) * (qx + 1),
            l2 == l * l,
    ;
    assert(py2 * l2 > big_y * big_y) by (nonlinear_arith)
        requires
            0 <= big_y < (qy + 1) * l,
            py2 == (qy + 1) * (qy + 1),
            l2 == l * l,
    ;
    assert((px2 + py2) * l2 == px2 * l2 + py2 * l2) by (nonlinear_arith);
    assert((px2 + py2) * l2 > (s * m2) * 100000000);
    assert(l2 <= s * m2);
    assert((px2 + py2) * l2 > l2 * 100000000) by (nonlinear_arith)
        requires
            (px2 + py2) * l2 > (s * m2) * 100000000,
            l2 <= s * m2,
    ;
    assert(px2 + py2 > 100000000) by (nonlinear_arith)
        requires
            (px2 + py2) * l2 > l2 * 100000000,
            l2 > 0,
    ;
    assert(px2 == qx2 + 2 * qx + 1 && py2 == qy2 + 2 * qy + 1) by (nonlinear_arith)
        requires
            px2 == (qx + 1) * (qx + 1),
            py2 == (qy + 1) * (qy + 1),
            qx2 == qx * qx,
            qy2 == qy * qy,
    ;
    assert(qx * qx + qy * qy >= 100000000 - 40000 - 1);
    // the larger component keeps at least half
    if ax >= ay {
        assert(big_x >= big_y) by (nonlinear_arith)
            requires
                ax >= ay,
                big_x == ax * 10000 * m,
                big_y == ay * 10000 * m,
                m >= 1,
        ;
        assert(qx >= qy) by (nonlinear_arith)
            requires
                big_x >= big_y >= 0,
                qx == big_x / l,
                qy == big_y / l,
                l > 0,
        ;
        assert(qx >= 5000) by (nonlinear_arith)
            requires
                qx >= qy >= 0,
                qx * qx + qy * qy >= 100000000 - 40000 - 1,
        ;
    }
    if ay >= ax {
        assert(big_y >= big_x) by (nonlinear_arith)
            requires
                ay >= ax,
                big_x == ax * 10000 * m,
                big_y == ay * 10000 * m,
                m >= 1,
        ;
        assert(qy >= qx) by (nonlinear_arith)
            requires
                big_y >= big_x >= 0,
                qx == big_x / l,
                qy == big_y / l,
                l > 0,
        ;
        assert(qy >= 5000) by (nonlinear_arith)
            requires
                qy >= qx >= 0,
                qx * qx + qy * qy >= 100000000 - 40000 - 1,
        ;
    }
    let tx = tdiv(x * 10000 * m, l);
    let ty = tdiv(y * 10000 * m, l);
    assert(abs(tx) == qx && abs(ty) == qy);
    assert(tx * tx + ty * ty == qx * qx + qy * qy) by (nonlinear_arith)
        requires
            abs(tx) == qx,
            abs(ty) == qy,
    ;
}

pub proof fn lemma_norm_sq_bound(v: Vec2)
    requires
        v.wf(),
    ensures
        0 <= norm_sq(v) <= 2 * LIMIT * LIMIT,
        v.x * v.x <= norm_sq(v),
        v.y * v.y <= norm_sq(v),
{
    assert(0 <= v.x * v.x <= LIMIT * LIMIT) by (nonlinear_arith)
        requires
            -LIMIT <= v.x <= LIMIT,
    ;
    assert(0 <= v.y * v.y <= LIMIT * LIMIT) by (nonlinear_arith)
        requires
            -LIMIT <= v.y <= LIMIT,
    ;
}

/// What normalising a non-zero vector gives: components of at most `SCALE`
/// with the vector's signs, a length of `SCALE` up to rounding, and at least
/// half of `SCALE` along the larger component.
pub proof fn lemma_normalise(v: Vec2)
    requires
        v.wf(),
        norm_sq(v) != 0,
    ensures
        -SCALE <= vnormalise(v).x <= SCALE,
        -SCALE <= vnormalise(v).y <= SCALE,
        v.x >= 0 ==> vnormalise(v).x >= 0,
        v.x <= 0 ==> vnormalise(v).x <= 0,
        v.y >= 0 ==> vnormalise(v).y >= 0,
        v.y <= 0 ==> vnormalise(v).y <= 0,
        near_unit(vnormalise(v)),
        abs(v.x as int) >= abs(v.y as int) ==> abs(vnormalise(v).x as int) >= SCALE / 2,
        abs(v.y as int) >= abs(v.x as int) ==> abs(vnormalise(v).y as int) >= SCALE / 2,
        fine_norm(v) >= SCALE,
{
    lemma_norm_sq_bound(v);
    let s = norm_sq(v);
    let m = refine(v);
    let t = s * m * m;
    assert(t >= 100000000) by (nonlinear_arith)
        requires
            t == s * m * m,
            s >= 1,
            m == 10000 || (m == 1 && s >= 316912650057057350374175801344),
    ;
    lemma_root_exists(t);
    lemma_root_at_least(t, 10000);
    lemma_unit_ratio(v.x as int, v.y as int, m, fine_norm(v));
}

impl Vec2 {
    pub open spec fn wf(self) -> bool {
        in_range(self.x as int) && in_range(self.y as int)
    }

    pub fn new(x: i64, y: i64) -> (r: Vec2)
        ensures
            r.x == x,
            r.y == y,
    {
        Vec2 { x, y }
    }

    pub fn add(self, o: Vec2) -> (r: Vec2)
        requires
            self.wf(),
            o.wf(),
        ensures
            r == vadd(self, o),
            r.wf(),
    {
        Vec2 {
            x: sat_i128(self.x as i128 + o.x as i128),
            y: sat_i128(self.y as i128 + o.y as i128),
        }
    }

    pub fn sub(self, o: Vec2) -> (r: Vec2)
        requires
            self.wf(),
            o.wf(),
        ensures
            r == vsub(self, o),
            r.wf(),
    {
        Vec2 {
            x: sat_i128(self.x as i128 - o.x as i128),
            y: sat_i128(self.y as i128 - o.y as i128),
        }
    }

    /// Each component multiplied by the fixed-point factor `k`.
    pub fn scale(self, k: i64) -> (r: Vec2)
        requires
            self.wf(),
            in_range(k as int),
        ensures
            r == vscale(self, k as int),
            r.wf(),
    {
        Vec2 { x: fx_mul(self.x, k), y: fx_mul(self.y, k) }
    }

    pub fn dot(a: Vec2, b: Vec2) -> (r: i64)
        requires
            a.wf(),
            b.wf(),
        ensures
            r == vdot(a, b),
            in_range(r as int),
    {
        proof {
            assert(-LIMIT * LIMIT <= a.x * b.x <= LIMIT * LIMIT) by (nonlinear_arith)
                requires
                    a.wf(),
                    b.wf(),
            ;
            assert(-LIMIT * LIMIT <= a.y * b.y <= LIMIT * LIMIT) by (nonlinear_arith)
                requires
                    a.wf(),
                    b.wf(),
            ;
        }
        let raw = (a.x as i128) * (b.x as i128) + (a.y as i128) * (b.y as i128);
        sat_i128(tdiv_i128(raw, SCALE as i128))
    }

    /// Squared length, in squared units.
    pub fn length_squared(self) -> (r: u128)
        requires
            self.wf(),
        ensures
            r == norm_sq(self),
    {
        proof {
            lemma_norm_sq_bound(self);
        }
        let xx = (self.x as i128) * (self.x as i128);
        let yy = (self.y as i128) * (self.y as i128);
        (xx + yy) as u128
    }

    /// Length rounded down, saturated into the stored range.
    pub fn length(self) -> (r: i64)
        requires
            self.wf(),
        ensures
            r == sat(norm(self)),
            0 <= r <= LIMIT,
    {
        proof {
            lemma_norm_sq_bound(self);
        }
        let n = isqrt(self.length_squared());
        if n > LIMIT as u64 {
            LIMIT
        } else {
            n as i64
        }
    }

    /// The unit vector along `self`; a zero vector is returned unchanged.
    pub fn normalise(self) -> (r: Vec2)
        requires
            self.wf(),
        ensures
            r == vnormalise(self),
            r.wf(),
            -SCALE <= r.x <= SCALE,
            -SCALE <= r.y <= SCALE,
            norm_sq(self) != 0 ==> near_unit(r),
    {
        proof {
            lemma_norm_sq_bound(self);
        }
        let s = self.length_squared();
        if s == 0 {
            proof {
                assert(self.x == 0 && self.y == 0) by (nonlinear_arith)
                    requires
                        self.x * self.x + self.y * self.y == 0,
                ;
            }
            return self;
        }
        proof {
            lemma_normalise(self);
        }
        let m: i128 = if s < FINE_BELOW {
            SCALE as i128
        } else {
            1
        };
        proof {
            if s < FINE_BELOW {
                assert(s * 100000000 < 0x4000_0000_0000_0000_0000_0000_0000_0000) by (nonlinear_arith)
                    requires
                        s < 316912650057057350374175801344,
                ;
            }
        }
        let mm = (m * m) as u128;
        proof {
            assert(s * mm == norm_sq(self) * refine(self) * refine(self)) by (nonlinear_arith)
                requires
                    mm == m * m,
                    m == refine(self),
                    s == norm_sq(self),
            ;
        }
        let l = isqrt(s * mm);
        proof {
            assert(-LIMIT * SCALE * SCALE <= self.x * SCALE * m <= LIMIT * SCALE * SCALE) by (nonlinear_arith)
                requires
                    in_range(self.x as int),
                    1 <= m <= SCALE,
            ;
            assert(-LIMIT * SCALE * SCALE <= self.y * SCALE * m <= LIMIT * SCALE * SCALE) by (nonlinear_arith)
                requires
                    in_range(self.y as int),
                    1 <= m <= SCALE,
            ;
        }
        let x = tdiv_i128((self.x as i128) * (SCALE as i128) * m, l as i128);
        let y = tdiv_i128((self.y as i128) * (SCALE as i128) * m, l as i128);
        Vec2 { x: x as i64, y: y as i64 }
    }
}

} // verus!
