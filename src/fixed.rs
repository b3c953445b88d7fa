//! Fixed-point scalars: a quantity is an `i64` count of `1 / SCALE` units.
//! Every stored quantity lies within `[-LIMIT, LIMIT]`; arithmetic saturates
//! at those bounds, so every operation is total.
use vstd::prelude::*;

verus! {

/// Number of units in one world unit.
pub const SCALE: i64 = 10000;

/// Largest magnitude a stored quantity may have.
pub const LIMIT: i64 = 1152921504606846976;

/// Largest mass a body may have.
pub const MASS_LIMIT: i64 = 1099511627776;

/// `x` clamped into `[lo, hi]`.
pub open spec fn clamp(x: int, lo: int, hi: int) -> int {
    if x < lo {
        lo
    } else if x > hi {
        hi
    } else {
        x
    }
}

/// `x` saturated into the range of stored quantities.
pub open spec fn sat(x: int) -> int {
    clamp(x, -LIMIT, LIMIT as int)
}

pub open spec fn in_range(x: int) -> bool {
    -LIMIT <= x <= LIMIT
}

/// Division rounding toward zero, for a positive divisor.
pub open spec fn tdiv(a: int, b: int) -> int
    recommends
        b > 0,
{
    if a >= 0 {
        a / b
    } else {
        -((-a) / b)
    }
}

pub open spec fn abs(x: int) -> int {
    if x < 0 {
        -x
    } else {
        x
    }
}

/// Division rounding toward zero keeps the sign and divides the magnitude.
pub proof fn lemma_tdiv_sign(a: int, b: int)
    requires
        b > 0,
    ensures
        a >= 0 ==> tdiv(a, b) >= 0,
        a <= 0 ==> tdiv(a, b) <= 0,
        abs(tdiv(a, b)) == abs(a) / b,
{
    if a >= 0 {
        assert(a / b >= 0) by (nonlinear_arith)
            requires
                a >= 0,
                b > 0,
        ;
    } else {
        assert((-a) / b >= 0) by (nonlinear_arith)
            requires
                -a > 0,
                b > 0,
        ;
    }
}

/// Fixed-point product of two quantities.
pub open spec fn fmul(a: int, b: int) -> int {
    sat(tdiv(a * b, SCALE as int))
}

/// `r` is the integer square root of `n`.
pub open spec fn is_root(r: int, n: int) -> bool {
    0 <= r && r * r <= n && n < (r + 1) * (r + 1)
}

/// The integer square root of `n` (rounded down).
pub open spec fn root(n: int) -> int {
    choose|r: int| is_root(r, n)
}

pub proof fn lemma_root_unique(r1: int, r2: int, n: int)
    requires
        is_root(r1, n),
        is_root(r2, n),
    ensures
        r1 == r2,
{
    if r1 < r2 {
        assert((r1 + 1) * (r1 + 1) <= r2 * r2) by (nonlinear_arith)
            requires
                0 <= r1 + 1 <= r2,
        ;
    } else if r2 < r1 {
        assert((r2 + 1) * (r2 + 1) <= r1 * r1) by (nonlinear_arith)
            requires
                0 <= r2 + 1 <= r1,
        ;
    }
}

pub proof fn lemma_root_of(r: int, n: int)
    requires
        is_root(r, n),
    ensures
        root(n) == r,
{
    lemma_root_unique(root(n), r, n);
}

pub proof fn lemma_root_exists(s: int)
    requires
        s >= 0,
    ensures
        is_root(root(s), s),
    decreases s,
{
    if s == 0 {
        assert(is_root(0, 0));
    } else {
        lemma_root_exists(s - 1);
        let r = root(s - 1);
        if (r + 1) * (r + 1) <= s {
            assert(is_root(r + 1, s)) by (nonlinear_arith)
                requires
                    (r + 1) * (r + 1) <= s,
                    s - 1 < (r + 1) * (r + 1),
                    r >= 0,
            ;
        } else {
            assert(is_root(r, s));
        }
    }
}

/// The root of a number at least `m * m` is at least `m`.
pub proof fn lemma_root_at_least(s: int, m: int)
    requires
        m >= 0,
        s >= m * m,
    ensures
        root(s) >= m,
{
    assert(s >= 0) by (nonlinear_arith)
        requires
            s >= m * m,
    ;
    lemma_root_exists(s);
    let r = root(s);
    if r < m {
        assert((r + 1) * (r + 1) <= m * m) by (nonlinear_arith)
            requires
                0 <= r + 1 <= m,
        ;
    }
}

/// Saturates an `i128` into the stored range.
pub fn sat_i128(x: i128) -> (r: i64)
    ensures
        r == sat(x as int),
{
    if x < -(LIMIT as i128) {
        -LIMIT
    } else if x > LIMIT as i128 {
        LIMIT
    } else {
        x as i64
    }
}

/// Division rounding toward zero.
pub fn tdiv_i128(a: i128, b: i128) -> (r: i128)
    requires
        b > 0,
        -0x4000_0000_0000_0000_0000_0000_0000_0000 <= a <= 0x4000_0000_0000_0000_0000_0000_0000_0000,
    ensures
        r == tdiv(a as int, b as int),
        a >= 0 ==> 0 <= r <= a,
        a < 0 ==> a <= r <= 0,
{
    if a >= 0 {
        let q = (a as u128) / (b as u128);
        assert(q <= a) by (nonlinear_arith)
            requires
                q == (a as u128) / (b as u128),
                b >= 1,
                a >= 0,
        ;
        q as i128
    } else {
        let q = ((-a) as u128) / (b as u128);
        assert(q <= -a) by (nonlinear_arith)
            requires
                q == ((-a) as u128) / (b as u128),
                b >= 1,
                a < 0,
        ;
        -(q as i128)
    }
}

/// Fixed-point product, saturated.
pub fn fx_mul(a: i64, b: i64) -> (r: i64)
    requires
        in_range(a as int),
        in_range(b as int),
    ensures
        r == fmul(a as int, b as int),
        in_range(r as int),
{
    assert(-0x0100_0000_0000_0000_0000_0000_0000_0000 <= (a as int) * (b as int)
        <= 0x0100_0000_0000_0000_0000_0000_0000_0000) by (nonlinear_arith)
        requires
            in_range(a as int),
            in_range(b as int),
    ;
    sat_i128(tdiv_i128((a as i128) * (b as i128), SCALE as i128))
}

/// Integer square root, rounded down.
pub fn isqrt(n: u128) -> (r: u64)
    requires
        n < 0x4000_0000_0000_0000_0000_0000_0000_0000,
    ensures
        is_root(r as int, n as int),
        r as int == root(n as int),
{
    let mut lo: u128 = 0;
    let mut hi: u128 = 0x8000_0000_0000_0000;
    assert(hi * hi == 0x4000_0000_0000_0000_0000_0000_0000_0000) by (nonlinear_arith)
        requires
            hi == 0x8000_0000_0000_0000,
    ;
    while hi - lo > 1
        invariant
            lo < hi <= 0x8000_0000_0000_0000,
            lo * lo <= n,
            n < hi * hi,
        decreases hi - lo,
    {
        let mid = lo + (hi - lo) / 2;
        assert(mid * mid <= 0x4000_0000_0000_0000_0000_0000_0000_0000) by (nonlinear_arith)
            requires
                mid <= 0x8000_0000_0000_0000,
        ;
        if mid * mid <= n {
            lo = mid;
        } else {
            hi = mid;
        }
    }
    assert(hi == lo + 1);
    proof {
        lemma_root_of(lo as int, n as int);
    }
    lo as u64
}

} // verus!
