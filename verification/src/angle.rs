//! Integer trigonometry.
//!
//! Angles are signed counts of microradians. The sine is Bhaskara's rational
//! approximation, which needs no table and no series and is exact at every
//! quarter turn; a heading is the pair (cosine, sine) rescaled to the length
//! asked for, so its length does not depend on the quality of the
//! approximation.

use vstd::prelude::*;
use crate::vec2::{lemma_scaled_direction, lemma_scaled_length, Vec2, LENGTH_MAX};

verus! {

/// Half a turn (pi radians), in microradians.
pub const HALF_TURN: i64 = 3_141_592;

/// A quarter of a turn.
pub const QUARTER_TURN: i64 = 1_570_796;

/// A full turn.
pub const FULL_TURN: i64 = 6_283_184;

/// The value that stands for one in the results of `sine` and `cosine`.
pub const TRIG_ONE: i64 = 1_000_000;

/// Bhaskara's approximation of `TRIG_ONE * sin(theta)` on the first half
/// turn: `16 p / (5 H^2 - 4 p)` with `p = theta * (H - theta)`.
pub open spec fn half_sine(theta: int) -> int
    recommends
        0 <= theta <= HALF_TURN,
{
    let p = theta * (HALF_TURN - theta);
    (16 * p * TRIG_ONE) / (5 * HALF_TURN * HALF_TURN - 4 * p)
}

/// The angle brought into `[0, FULL_TURN)`.
pub open spec fn wrapped(angle: int) -> int {
    angle % (FULL_TURN as int)
}

/// `TRIG_ONE` times the sine of `angle`.
pub open spec fn sine(angle: int) -> int {
    let m = wrapped(angle);
    if m <= HALF_TURN {
        half_sine(m)
    } else {
        -half_sine(m - HALF_TURN)
    }
}

/// `TRIG_ONE` times the cosine of `angle`: the sine a quarter turn ahead.
pub open spec fn cosine(angle: int) -> int {
    sine(wrapped(angle) + QUARTER_TURN)
}

/// The vector of length `len` at `angle` from the positive x axis.
pub open spec fn heading(angle: int, len: int) -> Vec2 {
    Vec2 { x: cosine(angle) as i64, y: sine(angle) as i64 }.scaled_to(len)
}

/// On the first half turn the approximation stays between zero and
/// `TRIG_ONE`, and it is zero only at the two ends.
pub proof fn lemma_half_sine_range(theta: int)
    requires
        0 <= theta <= HALF_TURN,
    ensures
        0 <= half_sine(theta) <= TRIG_ONE,
        0 < theta < HALF_TURN ==> half_sine(theta) >= 1,
        theta == 0 || theta == HALF_TURN ==> half_sine(theta) == 0,
        theta == QUARTER_TURN ==> half_sine(theta) == TRIG_ONE,
{
    let h = HALF_TURN as int;
    let p = theta * (h - theta);
    let d = 5 * h * h - 4 * p;
    let num = 16 * p * TRIG_ONE;
    assert(h * h == 9_869_600_294_464) by (nonlinear_arith)
        requires
            h == 3_141_592,
    ;
    assert(0 <= p && 4 * p <= h * h) by (nonlinear_arith)
        requires
            p == theta * (h - theta),
            0 <= theta <= h,
    ;
    assert(0 <= num / d <= TRIG_ONE) by (nonlinear_arith)
        requires
            0 <= num <= 1_000_000 * d,
            d > 0,
    ;
    if 0 < theta < h {
        assert(p >= h - 1) by (nonlinear_arith)
            requires
                p == theta * (h - theta),
                1 <= theta <= h - 1,
        ;
        assert(num / d >= 1) by (nonlinear_arith)
            requires
                num >= d,
                d > 0,
        ;
    }
    if theta == 0 || theta == h {
        assert(p == 0) by (nonlinear_arith)
            requires
                p == theta * (h - theta),
                theta == 0 || theta == h,
        ;
        assert(0int / d == 0) by (nonlinear_arith)
            requires
                d > 0,
        ;
    }
    if theta == QUARTER_TURN {
        assert(p == 2_467_400_073_616) by (nonlinear_arith)
            requires
                p == theta * (h - theta),
                theta == 1_570_796,
                h == 3_141_592,
        ;
        assert(num / d == 1_000_000) by (nonlinear_arith)
            requires
                num == 1_000_000 * d,
                d > 0,
        ;
    }
}

/// The sine and the cosine stay within `TRIG_ONE` of zero and never vanish
/// together, so every angle has a direction.
pub proof fn lemma_sine_cosine_range(angle: int)
    ensures
        -TRIG_ONE <= sine(angle) <= TRIG_ONE,
        -TRIG_ONE <= cosine(angle) <= TRIG_ONE,
        sine(angle) != 0 || cosine(angle) != 0,
{
    let m = wrapped(angle);
    let c = wrapped(m + QUARTER_TURN);
    if m <= HALF_TURN {
        lemma_half_sine_range(m);
    } else {
        lemma_half_sine_range(m - HALF_TURN);
    }
    if c <= HALF_TURN {
        lemma_half_sine_range(c);
    } else {
        lemma_half_sine_range(c - HALF_TURN);
    }
    if sine(angle) == 0 {
        lemma_half_sine_range(QUARTER_TURN as int);
    }
}

/// A heading has the length asked for, up to rounding: its squared length
/// lies strictly between `len * len - 4 * len - 2` and
/// `(len + 1) * (len + 1)`.
pub proof fn lemma_heading_length(angle: int, len: int)
    requires
        0 <= len <= LENGTH_MAX,
    ensures
        heading(angle, len).within(len),
        len * len - 4 * len - 2 < heading(angle, len).norm_sq(),
        heading(angle, len).norm_sq() < (len + 1) * (len + 1),
{
    lemma_sine_cosine_range(angle);
    let v = Vec2 { x: cosine(angle) as i64, y: sine(angle) as i64 };
    lemma_scaled_length(v, len);
    lemma_scaled_direction(v, len);
}

/// Brings an angle into `[0, FULL_TURN)`.
pub fn wrap_angle(angle: i64) -> (m: i64)
    ensures
        m == wrapped(angle as int),
        0 <= m < FULL_TURN,
{
    if angle >= 0 {
        angle % FULL_TURN
    } else {
        let r: i64 = (-(angle + 1)) % FULL_TURN;
        FULL_TURN - 1 - r
    }
}

/// Bhaskara's approximation on the first half turn.
fn half_sine_of(theta: i64) -> (s: i64)
    requires
        0 <= theta <= HALF_TURN,
    ensures
        s == half_sine(theta as int),
        0 <= s <= TRIG_ONE,
{
    proof {
        lemma_half_sine_range(theta as int);
    }
    let h: i128 = HALF_TURN as i128;
    let t: i128 = theta as i128;
    assert(0 <= t * (h - t) <= 3_141_592 * 3_141_592) by (nonlinear_arith)
        requires
            0 <= t <= 3_141_592,
            h == 3_141_592,
    ;
    let p: i128 = t * (h - t);
    assert(h * h == 9_869_600_294_464) by (nonlinear_arith)
        requires
            h == 3_141_592,
    ;
    assert(4 * p <= h * h) by (nonlinear_arith)
        requires
            p == t * (h - t),
            0 <= t <= h,
    ;
    let d: i128 = 5 * h * h - 4 * p;
    let num: i128 = 16 * p * (TRIG_ONE as i128);
    (num / d) as i64
}

/// `TRIG_ONE` times the sine of `angle`.
pub fn sine_of(angle: i64) -> (s: i64)
    ensures
        s == sine(angle as int),
        -TRIG_ONE <= s <= TRIG_ONE,
{
    let m = wrap_angle(angle);
    if m <= HALF_TURN {
        half_sine_of(m)
    } else {
        -half_sine_of(m - HALF_TURN)
    }
}

/// `TRIG_ONE` times the cosine of `angle`.
pub fn cosine_of(angle: i64) -> (c: i64)
    ensures
        c == cosine(angle as int),
        -TRIG_ONE <= c <= TRIG_ONE,
{
    let m = wrap_angle(angle);
    sine_of(m + QUARTER_TURN)
}

/// The vector of length `len` at `angle` from the positive x axis.
pub fn heading_of(angle: i64, len: i64) -> (v: Vec2)
    requires
        0 <= len <= LENGTH_MAX,
    ensures
        v == heading(angle as int, len as int),
        v.within(len as int),
{
    let direction = Vec2::new(cosine_of(angle), sine_of(angle));
    direction.scale_to_length(len)
}

} // verus!
