//! Fixed-point scale, world limits, vectors and integer arithmetic helpers.
use vstd::prelude::*;

verus! {

/// Thousandths per world unit: the scale of every length, speed and input.
pub const UNIT: i64 = 1000;

/// Milliseconds per second: the scale of every time and timer.
pub const MS_PER_SECOND: i64 = 1000;

/// Largest magnitude a coordinate may take anywhere in the world.
pub const COORD_LIMIT: i64 = 0x100_0000_0000;

/// Largest magnitude of a track boundary coordinate: a player's radius
/// beyond it still lies within the world.
pub const SHAPE_LIMIT: i64 = 0x80_0000_0000;

/// Largest magnitude of a velocity component, and of a speed setting.
pub const SPEED_LIMIT: i64 = 0x100_0000_0000;

/// Largest radius of a player or an obstacle.
pub const RADIUS_LIMIT: i64 = 0x10_0000;

/// A point or a vector of the plane in fixed-point units.
#[derive(Clone, Copy, Debug, PartialEq, Eq, Structural)]
pub struct Vec2 {
    pub x: i64,
    pub y: i64,
}

impl Vec2 {
    pub open spec fn within(self, limit: int) -> bool {
        -limit <= self.x <= limit && -limit <= self.y <= limit
    }
}

pub open spec fn clamp_spec(v: int, lo: int, hi: int) -> int {
    if v < lo {
        lo
    } else if v > hi {
        hi
    } else {
        v
    }
}

/// `v` clamped to `lo..=hi`; `lo` wins when the range is empty.
pub fn clamp(v: i64, lo: i64, hi: i64) -> (r: i64)
    ensures
        r == clamp_spec(v as int, lo as int, hi as int),
{
    if v < lo {
        lo
    } else if v > hi {
        hi
    } else {
        v
    }
}

/// Floor division by a positive divisor (`a / b` of the specifications).
pub fn floor_div(a: i128, b: i128) -> (r: i128)
    requires
        b > 0,
        a > i128::MIN,
    ensures
        r == a as int / b as int,
{
    if a >= 0 {
        a / b
    } else {
        let n: i128 = -a;
        let q: i128 = n / b;
        let m: i128 = n % b;
        proof {
            assert(n == b * q + m) by (nonlinear_arith)
                requires n >= 0, b > 0, q == n / b, m == n % b;
            assert(0 <= m < b);
            assert(q >= 0) by (nonlinear_arith)
                requires n >= 0, b > 0, q == n / b;
        }
        if m == 0 {
            proof {
                lemma_floor_div_exact(a as int, b as int, q as int);
            }
            -q
        } else {
            proof {
                lemma_floor_div_inexact(a as int, b as int, q as int, m as int);
            }
            -q - 1
        }
    }
}

proof fn lemma_floor_div_exact(a: int, b: int, q: int)
    requires
        b > 0,
        -a == b * q,
    ensures
        a / b == -q,
{
    assert(a == (-q) * b + 0) by (nonlinear_arith)
        requires -a == b * q;
    vstd::arithmetic::div_mod::lemma_fundamental_div_mod_converse(a, b, -q, 0);
}

proof fn lemma_floor_div_inexact(a: int, b: int, q: int, m: int)
    requires
        b > 0,
        -a == b * q + m,
        0 < m < b,
    ensures
        a / b == -q - 1,
{
    assert(a == (-q - 1) * b + (b - m)) by (nonlinear_arith)
        requires -a == b * q + m;
    vstd::arithmetic::div_mod::lemma_fundamental_div_mod_converse(a, b, -q - 1, b - m);
}

/// Whether `r` is the integer square root of `n`.
pub open spec fn is_isqrt(n: int, r: int) -> bool {
    0 <= r && r * r <= n && n < (r + 1) * (r + 1)
}

/// Integer square root, rounded down, of a value below 2^100.
pub fn isqrt(n: u128) -> (r: u128)
    requires
        n < 0x10_0000_0000_0000_0000_0000_0000,
    ensures
        is_isqrt(n as int, r as int),
        r <= 0x4_0000_0000_0000,
{
    let mut lo: u128 = 0;
    let mut hi: u128 = 0x4_0000_0000_0000;
    assert(hi * hi > n) by (nonlinear_arith)
        requires hi == 0x4_0000_0000_0000, n < 0x10_0000_0000_0000_0000_0000_0000;
    while hi - lo > 1
        invariant
            lo < hi <= 0x4_0000_0000_0000,
            lo * lo <= n,
            n < hi * hi,
        decreases hi - lo,
    {
        let mid: u128 = lo + (hi - lo) / 2;
        assert(mid * mid <= 0x10_0000_0000_0000_0000_0000_0000) by (nonlinear_arith)
            requires mid <= 0x4_0000_0000_0000;
        if mid * mid <= n {
            lo = mid;
        } else {
            hi = mid;
        }
    }
    assert(hi == lo + 1);
    lo
}

} // verus!
