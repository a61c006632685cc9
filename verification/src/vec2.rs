//! Two-dimensional fixed-point vectors.
//!
//! A coordinate is a signed count of thousandths of a world unit, so every
//! operation is exact integer arithmetic and gives the same result on every
//! machine. Lengths are rescaled with an integer square root; the laws at the
//! end of this file bound the rounding error of that step.

use vstd::prelude::*;
use crate::math::{floor_sqrt, is_floor_sqrt, isqrt, lemma_floor_sqrt_exists, trunc_div};

verus! {

/// Fixed-point steps per world unit.
pub const UNIT: i64 = 1_000;

/// Largest magnitude of a coordinate that the simulation stores.
pub const COORD_MAX: i64 = 1_000_000_000;

/// Largest length that a vector can be rescaled to.
pub const LENGTH_MAX: i64 = 1_000_000_000;

/// Factor by which a vector is magnified before its length is taken, so that
/// even the shortest vectors are measured to thirty-two binary digits.
pub const NORM_SCALE: u128 = 0x1_0000_0000;

/// The square of `NORM_SCALE`.
pub const NORM_SCALE_SQ: u128 = 0x1_0000_0000_0000_0000;

/// A point or a displacement in the plane, in fixed-point steps.
#[derive(Clone, Copy, Debug, PartialEq, Eq, Structural)]
pub struct Vec2 {
    pub x: i64,
    pub y: i64,
}

/// One component of a rescaled vector: `c * len / |v|`, rounded toward zero,
/// where `n` is the magnified length of `v`.
pub open spec fn scaled_component(c: int, len: int, n: int) -> int {
    trunc_div(c * len * NORM_SCALE as int, n)
}

impl Vec2 {
    /// Both components lie within `bound` of zero.
    pub open spec fn within(self, bound: int) -> bool {
        -bound <= self.x <= bound && -bound <= self.y <= bound
    }

    /// The squared Euclidean length.
    pub open spec fn norm_sq(self) -> int {
        self.x * self.x + self.y * self.y
    }

    /// The squared Euclidean distance to `other`.
    pub open spec fn dist_sq(self, other: Vec2) -> int {
        (self.x - other.x) * (self.x - other.x) + (self.y - other.y) * (self.y - other.y)
    }

    /// The length magnified by `NORM_SCALE`, rounded down.
    pub open spec fn magnified_norm(self) -> int {
        floor_sqrt((self.norm_sq() * NORM_SCALE_SQ as int) as nat) as int
    }

    /// The vector of length `len` that points the way `self` does; the zero
    /// vector has no direction and stays zero.
    pub open spec fn scaled_to(self, len: int) -> Vec2 {
        if self.x == 0 && self.y == 0 {
            self
        } else {
            Vec2 {
                x: scaled_component(self.x as int, len, self.magnified_norm()) as i64,
                y: scaled_component(self.y as int, len, self.magnified_norm()) as i64,
            }
        }
    }

    pub fn new(x: i64, y: i64) -> (v: Vec2)
        ensures
            v.x == x,
            v.y == y,
    {
        Vec2 { x, y }
    }

    pub fn zero() -> (v: Vec2)
        ensures
            v.x == 0,
            v.y == 0,
    {
        Vec2 { x: 0, y: 0 }
    }

    /// The vector with the given whole-unit coordinates.
    pub fn from_units(x: i64, y: i64) -> (v: Vec2)
        requires
            -1_000_000 <= x <= 1_000_000,
            -1_000_000 <= y <= 1_000_000,
        ensures
            v.x == x * UNIT,
            v.y == y * UNIT,
            v.within(COORD_MAX as int),
    {
        Vec2 { x: x * UNIT, y: y * UNIT }
    }

    pub fn is_zero(self) -> (b: bool)
        ensures
            b == (self.x == 0 && self.y == 0),
    {
        self.x == 0 && self.y == 0
    }

    /// The sum, component by component.
    pub fn plus(self, other: Vec2) -> (v: Vec2)
        requires
            i64::MIN <= self.x + other.x <= i64::MAX,
            i64::MIN <= self.y + other.y <= i64::MAX,
        ensures
            v.x == self.x + other.x,
            v.y == self.y + other.y,
    {
        Vec2 { x: self.x + other.x, y: self.y + other.y }
    }

    /// The difference, component by component.
    pub fn minus(self, other: Vec2) -> (v: Vec2)
        requires
            i64::MIN <= self.x - other.x <= i64::MAX,
            i64::MIN <= self.y - other.y <= i64::MAX,
        ensures
            v.x == self.x - other.x,
            v.y == self.y - other.y,
    {
        Vec2 { x: self.x - other.x, y: self.y - other.y }
    }

    /// The squared Euclidean length.
    pub fn length_squared(self) -> (s: i64)
        requires
            self.within(2 * COORD_MAX),
        ensures
            s == self.norm_sq(),
    {
        proof {
            lemma_square_bound(self.x as int);
            lemma_square_bound(self.y as int);
        }
        self.x * self.x + self.y * self.y
    }

    /// The squared Euclidean distance to `other`.
    pub fn distance_squared(self, other: Vec2) -> (s: i64)
        requires
            self.within(COORD_MAX as int),
            other.within(COORD_MAX as int),
        ensures
            s == self.dist_sq(other),
    {
        self.minus(other).length_squared()
    }

    /// The Euclidean length, rounded down to a whole step.
    pub fn length(self) -> (l: i64)
        requires
            self.within(2 * COORD_MAX),
        ensures
            l == floor_sqrt(self.norm_sq() as nat),
    {
        let s = self.length_squared();
        proof {
            lemma_square_bound(self.x as int);
            lemma_square_bound(self.y as int);
        }
        let r = isqrt(s as u128);
        assert(r <= 0x7FFF_FFFF_FFFF_FFFF) by (nonlinear_arith)
            requires
                r * r <= s,
                s <= 0x7FFF_FFFF_FFFF_FFFF,
                r >= 0,
        ;
        r as i64
    }

    /// The Euclidean distance to `other`, rounded down to a whole step.
    pub fn distance(self, other: Vec2) -> (l: i64)
        requires
            self.within(COORD_MAX as int),
            other.within(COORD_MAX as int),
        ensures
            l == floor_sqrt(self.dist_sq(other) as nat),
    {
        self.minus(other).length()
    }

    /// Rescales to length `len`, keeping the direction. The zero vector is
    /// returned unchanged.
    pub fn scale_to_length(self, len: i64) -> (v: Vec2)
        requires
            self.within(2 * COORD_MAX),
            0 <= len <= LENGTH_MAX,
        ensures
            v == self.scaled_to(len as int),
            v.within(len as int),
    {
        if self.x == 0 && self.y == 0 {
            return self;
        }
        let ax: u128 = magnitude(self.x);
        let ay: u128 = magnitude(self.y);
        proof {
            lemma_square_bound(self.x as int);
            lemma_square_bound(self.y as int);
            assert(ax * ax == self.x * self.x) by (nonlinear_arith)
                requires
                    ax == self.x || ax == -self.x,
            ;
            assert(ay * ay == self.y * self.y) by (nonlinear_arith)
                requires
                    ay == self.y || ay == -self.y,
            ;
            assert(ax * ax + ay * ay >= 1) by (nonlinear_arith)
                requires
                    ax >= 1 || ay >= 1,
                    ax >= 0,
                    ay >= 0,
            ;
        }
        let s: u128 = ax * ax + ay * ay;
        assert(s * NORM_SCALE_SQ <= 8_000_000_000_000_000_000 * 0x1_0000_0000_0000_0000)
            by (nonlinear_arith)
            requires
                0 <= s <= 8_000_000_000_000_000_000,
                NORM_SCALE_SQ == 0x1_0000_0000_0000_0000,
        ;
        let t: u128 = s * NORM_SCALE_SQ;
        let n: u128 = isqrt(t) as u128;
        proof {
            lemma_magnified_norm_bounds(self);
            lemma_component_bound(ax as int, ay as int, len as int, n as int);
            lemma_component_bound(ay as int, ax as int, len as int, n as int);
        }
        let qx: u128 = rescale(ax, len as u128, n);
        let qy: u128 = rescale(ay, len as u128, n);
        let x: i64 = if self.x < 0 {
            -(qx as i64)
        } else {
            qx as i64
        };
        let y: i64 = if self.y < 0 {
            -(qy as i64)
        } else {
            qy as i64
        };
        proof {
            lemma_scaled_component_of_magnitude(self.x as int, len as int, n as int);
            lemma_scaled_component_of_magnitude(self.y as int, len as int, n as int);
        }
        Vec2 { x, y }
    }
}

/// `a * len * NORM_SCALE / n`, rounded down.
fn rescale(a: u128, len: u128, n: u128) -> (q: u128)
    requires
        a <= 2 * COORD_MAX,
        len <= LENGTH_MAX,
        n >= 1,
    ensures
        q == (a * len * NORM_SCALE) / (n as int),
{
    assert(a * len <= 2_000_000_000_000_000_000) by (nonlinear_arith)
        requires
            0 <= a <= 2_000_000_000,
            0 <= len <= 1_000_000_000,
    ;
    let area: u128 = a * len;
    assert(area * NORM_SCALE <= 2_000_000_000_000_000_000 * 0x1_0000_0000) by (nonlinear_arith)
        requires
            0 <= area <= 2_000_000_000_000_000_000,
            NORM_SCALE == 0x1_0000_0000,
    ;
    area * NORM_SCALE / n
}

/// The absolute value, widened.
pub fn magnitude(c: i64) -> (m: u128)
    ensures
        c >= 0 ==> m == c,
        c < 0 ==> m == -c,
{
    if c >= 0 {
        c as u128
    } else if c == i64::MIN {
        0x8000_0000_0000_0000
    } else {
        (-c) as u128
    }
}

/// A rescaled component is the rescaled magnitude with the sign put back.
pub proof fn lemma_scaled_component_of_magnitude(c: int, len: int, n: int)
    requires
        0 <= len,
        n >= 1,
    ensures
        c >= 0 ==> scaled_component(c, len, n) == (c * len * NORM_SCALE as int) / n,
        c < 0 ==> scaled_component(c, len, n) == -(((-c) * len * NORM_SCALE as int) / n),
{
    let k = NORM_SCALE as int;
    if c >= 0 {
        assert(c * len * k >= 0) by (nonlinear_arith)
            requires
                c >= 0,
                len >= 0,
                k >= 0,
        ;
    } else {
        assert((-c) * len * k == -(c * len * k)) by (nonlinear_arith);
        assert((-c) * len * k >= 0) by (nonlinear_arith)
            requires
                c < 0,
                len >= 0,
                k >= 0,
        ;
        if c * len * k == 0 {
            assert(0int / n == 0) by (nonlinear_arith)
                requires
                    n >= 1,
            ;
        }
    }
}

/// The square of a coordinate difference fits in sixty-two bits.
pub proof fn lemma_square_bound(c: int)
    requires
        -2 * COORD_MAX <= c <= 2 * COORD_MAX,
    ensures
        0 <= c * c <= 4_000_000_000_000_000_000,
{
    assert(0 <= c * c <= 4_000_000_000_000_000_000) by (nonlinear_arith)
        requires
            -2_000_000_000 <= c <= 2_000_000_000,
    ;
}

/// The magnified length of a non-zero vector within range is at least
/// `NORM_SCALE` and is the integer square root that defines it.
pub proof fn lemma_magnified_norm_bounds(v: Vec2)
    requires
        v.within(2 * COORD_MAX),
        !(v.x == 0 && v.y == 0),
    ensures
        is_floor_sqrt(v.norm_sq() * NORM_SCALE_SQ as int, v.magnified_norm()),
        v.magnified_norm() >= NORM_SCALE,
        v.norm_sq() >= 1,
{
    lemma_square_bound(v.x as int);
    lemma_square_bound(v.y as int);
    let s = v.norm_sq();
    assert(s >= 1) by (nonlinear_arith)
        requires
            s == v.x * v.x + v.y * v.y,
            v.x != 0 || v.y != 0,
    ;
    let t = s * NORM_SCALE_SQ as int;
    assert(t >= NORM_SCALE_SQ as int) by (nonlinear_arith)
        requires
            t == s * NORM_SCALE_SQ as int,
            s >= 1,
    ;
    lemma_floor_sqrt_exists(t as nat);
    let n = v.magnified_norm();
    if n < NORM_SCALE {
        assert((n + 1) * (n + 1) <= 0x1_0000_0000 * 0x1_0000_0000) by (nonlinear_arith)
            requires
                0 <= n,
                n + 1 <= 0x1_0000_0000,
        ;
        assert(0x1_0000_0000int * 0x1_0000_0000int == 0x1_0000_0000_0000_0000int)
            by (nonlinear_arith);
    }
}

/// With `n` the magnified length of the vector `(a, b)`, the component `a`
/// rescaled to `len` is at most `len`.
pub proof fn lemma_component_bound(a: int, b: int, len: int, n: int)
    requires
        0 <= a,
        0 <= b,
        0 <= len,
        n >= 1,
        is_floor_sqrt((a * a + b * b) * NORM_SCALE_SQ as int, n),
    ensures
        0 <= a * len * NORM_SCALE as int <= len * n,
        0 <= (a * len * NORM_SCALE as int) / n <= len,
{
    let k = NORM_SCALE as int;
    let ak = a * k;
    assert(ak * ak <= (a * a + b * b) * NORM_SCALE_SQ as int) by (nonlinear_arith)
        requires
            ak == a * k,
            k * k == NORM_SCALE_SQ as int,
            0 <= a,
            0 <= b,
    ;
    assert(ak <= n) by (nonlinear_arith)
        requires
            ak * ak < (n + 1) * (n + 1),
            0 <= ak,
            0 <= n,
    ;
    assert(a * len * k == ak * len) by (nonlinear_arith)
        requires
            ak == a * k,
    ;
    assert(0 <= ak * len <= len * n) by (nonlinear_arith)
        requires
            0 <= ak <= n,
            0 <= len,
    ;
    assert(0 <= (ak * len) / n <= len) by (nonlinear_arith)
        requires
            0 <= ak * len <= len * n,
            n >= 1,
    ;
}

/// The arithmetic at the heart of rescaling. For non-negative `a`, `b` with
/// magnified length `n`, the rounded-down components `x = a * len * k / n`
/// and `y = b * len * k / n` span a vector whose squared length lies strictly
/// between `len * len - 4 * len - 2` and `(len + 1) * (len + 1)`, and which
/// is parallel to `(a, b)` up to one rounding step.
proof fn lemma_rescale_core(a: int, b: int, len: int, n: int, x: int, y: int)
    requires
        0 <= a,
        0 <= b,
        0 <= len <= n,
        n >= 1,
        is_floor_sqrt((a * a + b * b) * NORM_SCALE_SQ as int, n),
        x == (a * len * NORM_SCALE as int) / n,
        y == (b * len * NORM_SCALE as int) / n,
    ensures
        0 <= x <= len,
        0 <= y <= len,
        len * len - 4 * len - 2 < x * x + y * y,
        x * x + y * y < (len + 1) * (len + 1),
        -(a + b) <= x * b - y * a <= a + b,
{
    let k = NORM_SCALE as int;
    let t = (a * a + b * b) * NORM_SCALE_SQ as int;
    let p = a * len * k;
    let q = b * len * k;
    lemma_component_bound(a, b, len, n);
    lemma_component_bound(b, a, len, n);
    let u = len * k;
    let aa = a * a;
    let bb = b * b;
    let uu = u * u;
    let kk = k * k;
    let ll = len * len;
    assert(p == a * u && q == b * u) by (nonlinear_arith)
        requires
            p == a * len * k,
            q == b * len * k,
            u == len * k,
    ;
    assert(p * p == aa * uu) by (nonlinear_arith)
        requires
            p == a * u,
            aa == a * a,
            uu == u * u,
    ;
    assert(q * q == bb * uu) by (nonlinear_arith)
        requires
            q == b * u,
            bb == b * b,
            uu == u * u,
    ;
    assert(uu == ll * kk) by (nonlinear_arith)
        requires
            u == len * k,
            uu == u * u,
            kk == k * k,
            ll == len * len,
    ;
    assert(aa * uu + bb * uu == ll * ((aa + bb) * kk)) by (nonlinear_arith)
        requires
            uu == ll * kk,
    ;
    // The quotients and their remainders.
    assert(x * n <= p && p < x * n + n) by (nonlinear_arith)
        requires
            x == p / n,
            n >= 1,
            p >= 0,
    ;
    assert(y * n <= q && q < y * n + n) by (nonlinear_arith)
        requires
            y == q / n,
            n >= 1,
            q >= 0,
    ;
    let xn = x * n;
    let yn = y * n;
    // Upper bound on the squared length.
    assert(xn * xn <= p * p) by (nonlinear_arith)
        requires
            0 <= xn <= p,
    ;
    assert(yn * yn <= q * q) by (nonlinear_arith)
        requires
            0 <= yn <= q,
    ;
    let m = x * x + y * y;
    assert(xn * xn + yn * yn == m * (n * n)) by (nonlinear_arith)
        requires
            xn == x * n,
            yn == y * n,
            m == x * x + y * y,
    ;
    let ln = len * (n + 1);
    assert(len * len * t <= ln * ln) by (nonlinear_arith)
        requires
            t < (n + 1) * (n + 1),
            t >= 0,
            ln == len * (n + 1),
            len >= 0,
    ;
    if len > 0 {
        assert(len * len * t < ln * ln) by (nonlinear_arith)
            requires
                t < (n + 1) * (n + 1),
                ln == len * (n + 1),
                len > 0,
        ;
    } else {
        assert(p == 0 && q == 0) by (nonlinear_arith)
            requires
                len == 0,
                p == a * len * k,
                q == b * len * k,
        ;
    }
    let nl = n * (len + 1);
    assert(ln <= nl) by (nonlinear_arith)
        requires
            ln == len * (n + 1),
            nl == n * (len + 1),
            len <= n,
    ;
    assert(ln * ln <= nl * nl) by (nonlinear_arith)
        requires
            0 <= ln <= nl,
    ;
    assert(nl * nl == (len + 1) * (len + 1) * (n * n)) by (nonlinear_arith)
        requires
            nl == n * (len + 1),
    ;
    assert(m < (len + 1) * (len + 1)) by (nonlinear_arith)
        requires
            m * (n * n) < (len + 1) * (len + 1) * (n * n) || (len == 0 && m * (n * n) <= 0),
            n >= 1,
            m >= 0,
            len >= 0,
    ;
    // Lower bound on the squared length.
    let xm = (x + 1) * n;
    let ym = (y + 1) * n;
    assert(xm == x * n + n && ym == y * n + n) by (nonlinear_arith)
        requires
            xm == (x + 1) * n,
            ym == (y + 1) * n,
    ;
    assert(p * p < xm * xm) by (nonlinear_arith)
        requires
            0 <= p < xm,
    ;
    assert(q * q < ym * ym) by (nonlinear_arith)
        requires
            0 <= q < ym,
    ;
    let w = (x + 1) * (x + 1) + (y + 1) * (y + 1);
    assert(xm * xm + ym * ym == w * (n * n)) by (nonlinear_arith)
        requires
            xm == (x + 1) * n,
            ym == (y + 1) * n,
            w == (x + 1) * (x + 1) + (y + 1) * (y + 1),
    ;
    assert(len * len * (n * n) <= len * len * t) by (nonlinear_arith)
        requires
            n * n <= t,
    ;
    assert(len * len < w) by (nonlinear_arith)
        requires
            len * len * (n * n) < w * (n * n),
            n >= 1,
    ;
    assert(w == m + 2 * x + 2 * y + 2) by (nonlinear_arith)
        requires
            w == (x + 1) * (x + 1) + (y + 1) * (y + 1),
            m == x * x + y * y,
    ;
    // Parallelism: the two remainders bound the cross product.
    let rx = p - xn;
    let ry = q - yn;
    assert(p * b == q * a) by (nonlinear_arith)
        requires
            p == a * len * k,
            q == b * len * k,
    ;
    assert((x * b - y * a) * n == ry * a - rx * b) by (nonlinear_arith)
        requires
            rx == p - x * n,
            ry == q - y * n,
            p * b == q * a,
    ;
    assert(-(a + b) <= x * b - y * a <= a + b) by (nonlinear_arith)
        requires
            (x * b - y * a) * n == ry * a - rx * b,
            0 <= rx < n,
            0 <= ry < n,
            0 <= a,
            0 <= b,
            n >= 1,
    ;
}

/// Rescaling a non-zero vector gives the requested length up to rounding:
/// the squared length of the result lies strictly between
/// `len * len - 4 * len - 2` and `(len + 1) * (len + 1)`, so the length is
/// within three steps of `len`.
pub proof fn lemma_scaled_length(v: Vec2, len: int)
    requires
        v.within(2 * COORD_MAX),
        !(v.x == 0 && v.y == 0),
        0 <= len <= LENGTH_MAX,
    ensures
        len * len - 4 * len - 2 < v.scaled_to(len).norm_sq(),
        v.scaled_to(len).norm_sq() < (len + 1) * (len + 1),
{
    let n = v.magnified_norm();
    let a: int = if v.x >= 0 { v.x as int } else { -v.x };
    let b: int = if v.y >= 0 { v.y as int } else { -v.y };
    lemma_magnified_norm_bounds(v);
    assert(a * a + b * b == v.norm_sq()) by (nonlinear_arith)
        requires
            a == v.x || a == -v.x,
            b == v.y || b == -v.y,
            v.norm_sq() == v.x * v.x + v.y * v.y,
    ;
    let x = (a * len * NORM_SCALE as int) / n;
    let y = (b * len * NORM_SCALE as int) / n;
    lemma_rescale_core(a, b, len, n, x, y);
    lemma_scaled_component_of_magnitude(v.x as int, len, n);
    lemma_scaled_component_of_magnitude(v.y as int, len, n);
    let r = v.scaled_to(len);
    assert(r.norm_sq() == x * x + y * y) by (nonlinear_arith)
        requires
            r.x == x || r.x == -x,
            r.y == y || r.y == -y,
            r.norm_sq() == r.x * r.x + r.y * r.y,
    ;
}

/// Rescaling keeps the direction: no component changes sign or exceeds
/// `len`, and the result is parallel to the input up to one rounding step
/// (the cross product of the two is at most `|v.x| + |v.y|` in magnitude).
pub proof fn lemma_scaled_direction(v: Vec2, len: int)
    requires
        v.within(2 * COORD_MAX),
        0 <= len <= LENGTH_MAX,
    ensures
        v.scaled_to(len).within(len),
        v.x >= 0 ==> v.scaled_to(len).x >= 0,
        v.x <= 0 ==> v.scaled_to(len).x <= 0,
        v.y >= 0 ==> v.scaled_to(len).y >= 0,
        v.y <= 0 ==> v.scaled_to(len).y <= 0,
        ({
            let r = v.scaled_to(len);
            let slack = (if v.x >= 0 { v.x as int } else { -v.x })
                + (if v.y >= 0 { v.y as int } else { -v.y });
            -slack <= r.x * v.y - r.y * v.x <= slack
        }),
{
    if !(v.x == 0 && v.y == 0) {
        let n = v.magnified_norm();
        let a: int = if v.x >= 0 { v.x as int } else { -v.x };
        let b: int = if v.y >= 0 { v.y as int } else { -v.y };
        lemma_magnified_norm_bounds(v);
        assert(a * a + b * b == v.norm_sq()) by (nonlinear_arith)
            requires
                a == v.x || a == -v.x,
                b == v.y || b == -v.y,
                v.norm_sq() == v.x * v.x + v.y * v.y,
        ;
        let x = (a * len * NORM_SCALE as int) / n;
        let y = (b * len * NORM_SCALE as int) / n;
        lemma_rescale_core(a, b, len, n, x, y);
        lemma_scaled_component_of_magnitude(v.x as int, len, n);
        lemma_scaled_component_of_magnitude(v.y as int, len, n);
        let r = v.scaled_to(len);
        let cross = r.x * v.y - r.y * v.x;
        let core = x * b - y * a;
        assert(cross == core || cross == -core) by (nonlinear_arith)
            requires
                cross == r.x * v.y - r.y * v.x,
                core == x * b - y * a,
                (r.x == x && a == v.x) || (r.x == -x && a == -v.x),
                (r.y == y && b == v.y) || (r.y == -y && b == -v.y),
        ;
    }
}

} // verus!
