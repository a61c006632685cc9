//! Integer square roots and truncating division, the two primitives that
//! the fixed-point geometry is built from.

use vstd::prelude::*;

verus! {

/// `r` is the integer square root of `s`: the largest integer whose square
/// does not exceed `s`.
pub open spec fn is_floor_sqrt(s: int, r: int) -> bool {
    0 <= r && r * r <= s && s < (r + 1) * (r + 1)
}

/// The integer square root of `s`.
pub open spec fn floor_sqrt(s: nat) -> nat {
    choose|r: nat| is_floor_sqrt(s as int, r as int)
}

/// A number has at most one integer square root.
pub proof fn lemma_floor_sqrt_unique(s: int, a: int, b: int)
    requires
        is_floor_sqrt(s, a),
        is_floor_sqrt(s, b),
    ensures
        a == b,
{
    if a < b {
        assert((a + 1) * (a + 1) <= b * b) by (nonlinear_arith)
            requires
                0 <= a,
                a + 1 <= b,
        ;
    } else if b < a {
        assert((b + 1) * (b + 1) <= a * a) by (nonlinear_arith)
            requires
                0 <= b,
                b + 1 <= a,
        ;
    }
}

/// Whatever satisfies `is_floor_sqrt` is the value of `floor_sqrt`.
pub proof fn lemma_floor_sqrt_is(s: nat, r: nat)
    requires
        is_floor_sqrt(s as int, r as int),
    ensures
        floor_sqrt(s) == r,
{
    let c = floor_sqrt(s);
    lemma_floor_sqrt_unique(s as int, c as int, r as int);
}

/// Every natural number has an integer square root, and `floor_sqrt` is it.
pub proof fn lemma_floor_sqrt_exists(s: nat)
    ensures
        is_floor_sqrt(s as int, floor_sqrt(s) as int),
    decreases s,
{
    if s == 0 {
        lemma_floor_sqrt_is(0, 0);
    } else {
        lemma_floor_sqrt_exists((s - 1) as nat);
        let p = floor_sqrt((s - 1) as nat);
        if (p + 1) * (p + 1) <= s {
            assert(s < (p + 2) * (p + 2)) by (nonlinear_arith)
                requires
                    (p + 1) * (p + 1) == s,
                    0 <= p,
            ;
            lemma_floor_sqrt_is(s, p + 1);
        } else {
            lemma_floor_sqrt_is(s, p);
        }
    }
}

/// Computes the integer square root by bisection.
pub fn isqrt(s: u128) -> (r: u64)
    ensures
        r == floor_sqrt(s as nat),
        is_floor_sqrt(s as int, r as int),
{
    let mut lo: u128 = 0;
    let mut hi: u128 = 0x1_0000_0000_0000_0000;
    assert(0x1_0000_0000_0000_0000int * 0x1_0000_0000_0000_0000int
        == 0x1_0000_0000_0000_0000_0000_0000_0000_0000int) by (nonlinear_arith);
    while hi - lo > 1
        invariant
            lo < hi <= 0x1_0000_0000_0000_0000,
            lo * lo <= s,
            s < hi * hi,
        decreases hi - lo,
    {
        let mid: u128 = lo + (hi - lo) / 2;
        assert(mid * mid <= 0xFFFF_FFFF_FFFF_FFFF * 0xFFFF_FFFF_FFFF_FFFF) by (nonlinear_arith)
            requires
                0 <= mid <= 0xFFFF_FFFF_FFFF_FFFF,
        ;
        if mid * mid <= s {
            lo = mid;
        } else {
            hi = mid;
        }
    }
    proof {
        lemma_floor_sqrt_is(s as nat, lo as nat);
    }
    lo as u64
}

/// Division that rounds toward zero, as machine division of signed
/// integers does.
pub open spec fn trunc_div(a: int, d: int) -> int
    recommends
        d > 0,
{
    if a >= 0 {
        a / d
    } else {
        -((-a) / d)
    }
}

/// Truncating division never moves a value away from zero and keeps its sign.
pub proof fn lemma_trunc_div_bounds(a: int, d: int)
    requires
        d > 0,
    ensures
        a >= 0 ==> 0 <= trunc_div(a, d) <= a,
        a <= 0 ==> a <= trunc_div(a, d) <= 0,
{
    if a >= 0 {
        assert(0 <= a / d <= a) by (nonlinear_arith)
            requires
                a >= 0,
                d > 0,
        ;
    } else {
        assert(0 <= (-a) / d <= -a) by (nonlinear_arith)
            requires
                a < 0,
                d > 0,
        ;
    }
}

/// Divides by a positive number, rounding toward zero.
pub fn div_toward_zero(a: i64, d: i64) -> (q: i64)
    requires
        d > 0,
        a > i64::MIN,
    ensures
        q == trunc_div(a as int, d as int),
{
    proof {
        lemma_trunc_div_bounds(a as int, d as int);
    }
    if a >= 0 {
        a / d
    } else {
        -((-a) / d)
    }
}

} // verus!
