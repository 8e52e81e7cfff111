//! Fixed-point plane geometry and angle arithmetic.
//!
//! Lengths and angles are integers counting millionths of an arena unit or of
//! a radian. [`PI`], [`HALF_PI`] and [`TWO_PI`] are chosen so that
//! `PI == 2 * HALF_PI` and `TWO_PI == 2 * PI` hold exactly.

use vstd::prelude::*;
use vstd::arithmetic::div_mod::*;

verus! {

/// One arena unit / one radian in fixed-point millionths.
pub const UNIT: i64 = 1_000_000;

/// A quarter turn, in millionths of a radian.
pub const HALF_PI: i64 = 1_570_796;

/// Half a turn, in millionths of a radian.
pub const PI: i64 = 3_141_592;

/// A full turn, in millionths of a radian.
pub const TWO_PI: i64 = 6_283_184;

/// An eighth of a turn, in millionths of a radian.
pub const QUARTER_PI: i64 = 785_398;

/// Magnitude bound on the angle arguments of the angle functions; recursion
/// and intermediate sums stay inside `i64` below it.
pub const ANGLE_ARG_LIMIT: i64 = 0x1000_0000_0000_0000;

/// Magnitude bound on coordinates accepted by [`Point::dist`]; the distance of
/// two such points still fits `i64`.
pub const COORD_LIMIT: i64 = 4_000_000_000_000;

/// Magnitude bound on coordinates accepted by [`Point::dist_sqr`]; the squared
/// distance of two such points still fits `i128`.
pub const COORD_ARG_LIMIT: i64 = 0x2000_0000_0000_0000;

/// A position or displacement in the plane, in millionths of an arena unit.
#[derive(Clone, Copy, PartialEq, Eq, Structural, Debug)]
pub struct Point {
    pub x: i64,
    pub y: i64,
}

impl Point {
    /// Squared distance between two points, exactly.
    pub fn dist_sqr(&self, p: &Point) -> (r: i128)
        requires
            -COORD_ARG_LIMIT <= self.x <= COORD_ARG_LIMIT,
            -COORD_ARG_LIMIT <= self.y <= COORD_ARG_LIMIT,
            -COORD_ARG_LIMIT <= p.x <= COORD_ARG_LIMIT,
            -COORD_ARG_LIMIT <= p.y <= COORD_ARG_LIMIT,
        ensures
            r == spec_dist_sqr(*self, *p),
            0 <= r,
    {
        let dx: i128 = self.x as i128 - p.x as i128;
        let dy: i128 = self.y as i128 - p.y as i128;
        proof {
            lemma_square_bound(dx as int, 2 * COORD_ARG_LIMIT);
            lemma_square_bound(dy as int, 2 * COORD_ARG_LIMIT);
            lemma_square_nonneg(dx as int);
            lemma_square_nonneg(dy as int);
        }
        dx * dx + dy * dy
    }

    /// Distance between two points, rounded down to whole millionths.
    pub fn dist(&self, p: &Point) -> (r: i64)
        requires
            -COORD_LIMIT <= self.x <= COORD_LIMIT,
            -COORD_LIMIT <= self.y <= COORD_LIMIT,
            -COORD_LIMIT <= p.x <= COORD_LIMIT,
            -COORD_LIMIT <= p.y <= COORD_LIMIT,
        ensures
            r == spec_dist(*self, *p),
            0 <= r < 12_000_000_000_000,
    {
        let sq = self.dist_sqr(p);
        let n: u128 = sq as u128;
        let r = isqrt(n);
        proof {
            lemma_isqrt_unique(n as int, r as int);
            lemma_square_bound(self.x - p.x, 2 * COORD_LIMIT);
            lemma_square_bound(self.y - p.y, 2 * COORD_LIMIT);
            lemma_sqrt_bound(n as int, r as int, 12_000_000_000_000);
        }
        r as i64
    }

    /// Componentwise sum of two points.
    pub fn add(&self, p: &Point) -> (r: Self)
        requires
            i64::MIN <= self.x + p.x <= i64::MAX,
            i64::MIN <= self.y + p.y <= i64::MAX,
        ensures
            r.x == self.x + p.x,
            r.y == self.y + p.y,
    {
        Self { x: self.x + p.x, y: self.y + p.y }
    }

    /// Overwrites this point with `p`.
    pub fn set_to(&mut self, p: &Point)
        ensures
            *final(self) == *p,
    {
        self.x = p.x;
        self.y = p.y;
    }

    /// The origin.
    pub fn zero() -> (r: Self)
        ensures
            r == (Point { x: 0, y: 0 }),
    {
        Self { x: 0, y: 0 }
    }
}

/// Squared distance between two points, as unbounded integers.
pub open spec fn spec_dist_sqr(p: Point, q: Point) -> int {
    (p.x - q.x) * (p.x - q.x) + (p.y - q.y) * (p.y - q.y)
}

/// Distance between two points, rounded down to whole millionths.
pub open spec fn spec_dist(p: Point, q: Point) -> int {
    spec_isqrt(spec_dist_sqr(p, q))
}

/// The integer square root (rounded down) of `n`, as a recursive definition;
/// `lemma_isqrt_bounds` gives its characteristic property.
pub open spec fn spec_isqrt(n: int) -> int
    decreases n,
{
    if n <= 0 {
        0
    } else {
        let p = spec_isqrt(n - 1);
        if (p + 1) * (p + 1) <= n {
            p + 1
        } else {
            p
        }
    }
}

/// A square is never negative.
pub proof fn lemma_square_nonneg(a: int)
    ensures
        0 <= a * a,
{
    assert(0 <= a * a) by (nonlinear_arith);
}

/// Squaring is monotone in the magnitude of its argument.
pub proof fn lemma_square_bound(a: int, b: int)
    requires
        -b <= a <= b,
    ensures
        a * a <= b * b,
{
    assert(a * a <= b * b) by (nonlinear_arith)
        requires
            -b <= a <= b,
    ;
}

/// A number below a square `m * m` has its square root below `m`.
pub proof fn lemma_sqrt_bound(n: int, r: int, m: int)
    requires
        0 <= r,
        0 <= m,
        r * r <= n,
        n < m * m,
    ensures
        r < m,
{
    if r >= m {
        assert(m * m <= r * r) by (nonlinear_arith)
            requires
                0 <= m <= r,
        ;
    }
}

/// `spec_isqrt(n)` is the integer square root of `n`: its square is at most
/// `n`, and the next square is beyond `n`.
pub proof fn lemma_isqrt_bounds(n: int)
    requires
        0 <= n,
    ensures
        spec_isqrt(n) * spec_isqrt(n) <= n,
        n < (spec_isqrt(n) + 1) * (spec_isqrt(n) + 1),
        0 <= spec_isqrt(n),
    decreases n,
{
    if n > 0 {
        lemma_isqrt_bounds(n - 1);
        let p = spec_isqrt(n - 1);
        if (p + 1) * (p + 1) <= n {
            assert(n - 1 < (p + 1) * (p + 1));
            assert((p + 1) * (p + 1) < (p + 2) * (p + 2)) by (nonlinear_arith)
                requires
                    0 <= p,
            ;
        }
    }
}

/// Any `r` with `r * r <= n < (r + 1) * (r + 1)` equals `spec_isqrt(n)`.
pub proof fn lemma_isqrt_unique(n: int, r: int)
    requires
        0 <= n,
        0 <= r,
        r * r <= n,
        n < (r + 1) * (r + 1),
    ensures
        r == spec_isqrt(n),
{
    lemma_isqrt_bounds(n);
    let s = spec_isqrt(n);
    if r < s {
        assert((r + 1) * (r + 1) <= s * s) by (nonlinear_arith)
            requires 0 <= r, r + 1 <= s;
    }
    if s < r {
        assert((s + 1) * (s + 1) <= r * r) by (nonlinear_arith)
            requires 0 <= s, s + 1 <= r;
    }
}

/// Integer square root by binary search.
fn isqrt(n: u128) -> (r: u128)
    ensures
        r * r <= n,
        n < (r + 1) * (r + 1),
{
    let mut lo: u128 = 0;
    let mut hi: u128 = 0x1_0000_0000_0000_0000;
    proof {
        assert((0x1_0000_0000_0000_0000 as int) * (0x1_0000_0000_0000_0000 as int)
            == 0x1_0000_0000_0000_0000_0000_0000_0000_0000int) by (nonlinear_arith);
    }
    while lo + 1 < hi
        invariant
            lo * lo <= n,
            n < hi * hi,
            lo < hi,
            hi <= 0x1_0000_0000_0000_0000,
        decreases hi - lo,
    {
        let mid = lo + (hi - lo) / 2;
        proof {
            assert(mid < hi);
            assert(mid * mid <= 0xFFFF_FFFF_FFFF_FFFF * 0xFFFF_FFFF_FFFF_FFFF)
                by (nonlinear_arith)
                requires
                    mid <= 0xFFFF_FFFF_FFFF_FFFF,
            ;
            assert((0xFFFF_FFFF_FFFF_FFFF as int) * (0xFFFF_FFFF_FFFF_FFFF as int)
                <= u128::MAX) by (nonlinear_arith);
        }
        if mid * mid <= n {
            lo = mid;
        } else {
            hi = mid;
        }
    }
    lo
}

/// `x` limited to the closed interval `[lower, upper]`.
pub open spec fn spec_clamp(x: int, lower: int, upper: int) -> int {
    if x < lower {
        lower
    } else if x > upper {
        upper
    } else {
        x
    }
}

/// Limits `x` to the closed interval `[lower, upper]`.
pub fn clamp(x: i64, lower: i64, upper: i64) -> (r: i64)
    requires
        lower <= upper,
    ensures
        r == spec_clamp(x as int, lower as int, upper as int),
{
    if x < lower {
        lower
    } else if x > upper {
        upper
    } else {
        x
    }
}

/// The angle congruent to `angle` that lies in `[0, TWO_PI)`.
pub open spec fn spec_normalize_absolute_angle(angle: int) -> int
    decreases (if angle < 0 { (TWO_PI as int) - angle } else { angle }),
{
    if angle >= TWO_PI {
        spec_normalize_absolute_angle(angle - TWO_PI)
    } else if angle < 0 {
        spec_normalize_absolute_angle(angle + TWO_PI)
    } else {
        angle
    }
}

/// The normalized absolute angle always lies in `[0, TWO_PI)`.
pub proof fn lemma_normalize_absolute_range(angle: int)
    ensures
        0 <= spec_normalize_absolute_angle(angle) < TWO_PI,
    decreases (if angle < 0 { (TWO_PI as int) - angle } else { angle }),
{
    if angle >= TWO_PI {
        lemma_normalize_absolute_range(angle - TWO_PI);
    } else if angle < 0 {
        lemma_normalize_absolute_range(angle + TWO_PI);
    }
}

/// A distance is never negative.
pub proof fn lemma_dist_nonneg(p: Point, q: Point)
    ensures
        0 <= spec_dist(p, q),
{
    lemma_square_nonneg(p.x - q.x);
    lemma_square_nonneg(p.y - q.y);
    lemma_isqrt_bounds(spec_dist_sqr(p, q));
}

/// Brings an absolute angle into `[0, TWO_PI)` by adding or subtracting whole
/// turns.
pub fn normalize_absolute_angle(angle: i64) -> (r: i64)
    requires
        -ANGLE_ARG_LIMIT <= angle <= ANGLE_ARG_LIMIT,
    ensures
        r == spec_normalize_absolute_angle(angle as int),
        0 <= r < TWO_PI,
    decreases (if angle < 0 { (TWO_PI as int) - angle } else { angle as int }),
{
    if angle >= TWO_PI {
        normalize_absolute_angle(angle - TWO_PI)
    } else if angle < 0 {
        normalize_absolute_angle(angle + TWO_PI)
    } else {
        angle
    }
}

/// The angle congruent to `angle` that lies in `[-PI, PI)`.
pub open spec fn spec_normalize_relative_angle(angle: int) -> int {
    if -PI <= angle < PI {
        angle
    } else {
        let a = spec_normalize_absolute_angle(angle);
        if a >= PI {
            a - TWO_PI
        } else {
            a
        }
    }
}

/// Brings a relative angle into `[-PI, PI)` by adding or subtracting whole
/// turns.
pub fn normalize_relative_angle(angle: i64) -> (r: i64)
    requires
        -ANGLE_ARG_LIMIT <= angle <= ANGLE_ARG_LIMIT,
    ensures
        r == spec_normalize_relative_angle(angle as int),
        -PI <= r < PI,
{
    if -PI <= angle && angle < PI {
        angle
    } else {
        let a = normalize_absolute_angle(angle);
        if a >= PI {
            a - TWO_PI
        } else {
            a
        }
    }
}

/// Magnitude bound on the first argument of [`scale`].
pub const SCALE_A_LIMIT: i64 = 2_000_000_000;

/// Magnitude bound on the second argument of [`scale`].
pub const SCALE_B_LIMIT: i64 = 2_000_000_000_000;

/// `a * b / UNIT`, truncated toward zero, as unbounded integers.
pub open spec fn spec_scale(a: int, b: int) -> int {
    if a * b >= 0 {
        (a * b) / (UNIT as int)
    } else {
        -((-(a * b)) / (UNIT as int))
    }
}

/// The product of two fixed-point quantities: `a * b / UNIT`, truncated
/// toward zero.
pub fn scale(a: i64, b: i64) -> (r: i64)
    requires
        -SCALE_A_LIMIT <= a <= SCALE_A_LIMIT,
        -SCALE_B_LIMIT <= b <= SCALE_B_LIMIT,
    ensures
        r == spec_scale(a as int, b as int),
{
    proof {
        lemma_mul_bound(a as int, b as int, SCALE_A_LIMIT as int, SCALE_B_LIMIT as int);
    }
    let p: i128 = (a as i128) * (b as i128);
    if p >= 0 {
        let q: u128 = (p as u128) / 1_000_000;
        proof {
            lemma_div_is_ordered(p as int, (SCALE_A_LIMIT as int) * (SCALE_B_LIMIT as int), 1_000_000);
        }
        q as i64
    } else {
        let q: u128 = ((-p) as u128) / 1_000_000;
        proof {
            lemma_div_is_ordered(-p as int, (SCALE_A_LIMIT as int) * (SCALE_B_LIMIT as int), 1_000_000);
        }
        -(q as i64)
    }
}

/// The magnitude of `scale(a, b)` never exceeds the magnitude of `b` while
/// `a` stays within one unit.
pub proof fn lemma_scale_bound(a: int, b: int)
    requires
        -UNIT <= a <= UNIT,
    ensures
        b >= 0 ==> -b <= spec_scale(a, b) <= b,
        b < 0 ==> b <= spec_scale(a, b) <= -b,
{
    let u = UNIT as int;
    let m = if b >= 0 { b } else { -b };
    assert(-(u * m) <= a * b <= u * m) by (nonlinear_arith)
        requires
            -u <= a <= u,
            m == (if b >= 0 { b } else { -b }),
            0 < u,
    ;
    if a * b >= 0 {
        lemma_div_is_ordered(a * b, u * m, u);
        lemma_div_multiples_vanish(m, u);
        lemma_div_pos_is_pos(a * b, u);
    } else {
        lemma_div_is_ordered(-(a * b), u * m, u);
        lemma_div_multiples_vanish(m, u);
        lemma_div_pos_is_pos(-(a * b), u);
    }
}

/// Bhaskara I's sine approximation on `[0, PI]`, in millionths.
pub open spec fn spec_sin_half(x: int) -> int {
    let t = x * ((PI as int) - x);
    (16 * t * (UNIT as int)) / (5 * (PI as int) * (PI as int) - 4 * t)
}

/// Sine on the half turn `[0, PI]` by Bhaskara I's approximation.
fn sin_half(x: i64) -> (r: i64)
    requires
        0 <= x <= PI,
    ensures
        r == spec_sin_half(x as int),
        0 <= r <= UNIT,
{
    let xi: i128 = x as i128;
    let pi: i128 = PI as i128;
    proof {
        assert(0 <= xi * (pi - xi) && 4 * (xi * (pi - xi)) <= pi * pi
            && xi * (pi - xi) <= 2_500_000_000_000) by (nonlinear_arith)
            requires
                0 <= xi <= pi,
                pi == PI as i128,
        ;
    }
    let t: i128 = xi * (pi - xi);
    assert(0 <= t <= 2_500_000_000_000);
    let t16: i128 = 16 * t;
    let num: i128 = t16 * 1_000_000;
    assert(num == 16 * t * (UNIT as int)) by (nonlinear_arith)
        requires
            t16 == 16 * t,
            num == t16 * 1_000_000,
    ;
    let den: i128 = 5 * pi * pi - 4 * t;
    let q: u128 = (num as u128) / (den as u128);
    proof {
        assert(num <= (UNIT as i128) * den);
        lemma_div_is_ordered(num as int, (UNIT as int) * (den as int), den as int);
        lemma_div_multiples_vanish(UNIT as int, den as int);
        lemma_div_pos_is_pos(num as int, den as int);
    }
    q as i64
}

/// Sine of an absolute fixed-point angle, in millionths.
pub open spec fn spec_sin_fp(a: int) -> int {
    let n = spec_normalize_absolute_angle(a);
    if n < PI {
        spec_sin_half(n)
    } else {
        -spec_sin_half(n - PI)
    }
}

/// Cosine of an absolute fixed-point angle, in millionths.
pub open spec fn spec_cos_fp(a: int) -> int {
    spec_sin_fp(a + HALF_PI)
}

/// Sine of a fixed-point angle (any number of turns), in millionths.
pub fn sin_fp(a: i64) -> (r: i64)
    requires
        -ANGLE_ARG_LIMIT <= a <= ANGLE_ARG_LIMIT,
    ensures
        r == spec_sin_fp(a as int),
        -UNIT <= r <= UNIT,
{
    let n = normalize_absolute_angle(a);
    if n < PI {
        sin_half(n)
    } else {
        -sin_half(n - PI)
    }
}

/// Cosine of a fixed-point angle (any number of turns), in millionths.
pub fn cos_fp(a: i64) -> (r: i64)
    requires
        -ANGLE_ARG_LIMIT / 2 <= a <= ANGLE_ARG_LIMIT / 2,
    ensures
        r == spec_cos_fp(a as int),
        -UNIT <= r <= UNIT,
{
    sin_fp(a + HALF_PI)
}

/// The arctangent of `num / den` for `0 <= num <= den`, in millionths of a
/// radian, by the polynomial approximation
/// `atan(z) ~ z * (QUARTER_PI + 0.273 * (1 - z))`.
pub open spec fn spec_atan_div(num: int, den: int) -> int {
    let u = UNIT as int;
    let z = (num * u) / den;
    let w = (273_000 * (u - z)) / u;
    (z * ((QUARTER_PI as int) + w)) / u
}

/// Arctangent of the ratio `num / den`, for `0 <= num <= den`.
fn atan_div(num: i64, den: i64) -> (r: i64)
    requires
        0 <= num <= den,
        0 < den,
    ensures
        r == spec_atan_div(num as int, den as int),
        0 <= r <= QUARTER_PI + 273_000,
{
    let u: u128 = 1_000_000;
    let z: u128 = ((num as u128) * u) / (den as u128);
    proof {
        assert((num as int) * (UNIT as int) <= (den as int) * (UNIT as int)) by (nonlinear_arith)
            requires
                0 <= num as int <= den as int,
                0 < (UNIT as int),
        ;
        lemma_div_is_ordered((num as int) * (UNIT as int), (den as int) * (UNIT as int), den as int);
        lemma_div_multiples_vanish(UNIT as int, den as int);
        lemma_div_pos_is_pos((num as int) * (UNIT as int), den as int);
    }
    let w: u128 = (273_000 * (u - z)) / u;
    proof {
        lemma_div_is_ordered(273_000 * ((UNIT as int) - z as int), 273_000 * (UNIT as int), UNIT as int);
        lemma_div_pos_is_pos(273_000 * ((UNIT as int) - z as int), UNIT as int);
        assert((273_000 * (UNIT as int)) / (UNIT as int) == 273_000) by {
            lemma_div_multiples_vanish(273_000, UNIT as int);
        }
    }
    proof {
        assert(z as int * ((QUARTER_PI as int) + w as int)
            <= (UNIT as int) * ((QUARTER_PI as int) + 273_000)) by (nonlinear_arith)
            requires
                0 <= z as int <= UNIT as int,
                0 <= w as int <= 273_000,
        ;
    }
    let r: u128 = (z * ((QUARTER_PI as u128) + w)) / u;
    proof {
        lemma_div_is_ordered(
            z as int * ((QUARTER_PI as int) + w as int),
            (UNIT as int) * ((QUARTER_PI as int) + 273_000),
            UNIT as int,
        );
        lemma_div_multiples_vanish((QUARTER_PI as int) + 273_000, UNIT as int);
        lemma_div_pos_is_pos(z as int * ((QUARTER_PI as int) + w as int), UNIT as int);
    }
    r as i64
}

/// Magnitude bound on the arguments of [`atan2_fp`] and [`angle_between`].
pub const ATAN_ARG_LIMIT: i64 = 0x2000_0000_0000_0000;

/// The angle of the vector `(x, y)` in `[-PI, PI]`, in millionths of a
/// radian, by octant reduction to [`spec_atan_div`].
pub open spec fn spec_atan2(y: int, x: int) -> int {
    let ax = if x >= 0 { x } else { -x };
    let ay = if y >= 0 { y } else { -y };
    let base = if ay <= ax {
        if ax == 0 {
            0
        } else {
            spec_atan_div(ay, ax)
        }
    } else {
        (HALF_PI as int) - spec_atan_div(ax, ay)
    };
    if x >= 0 && y >= 0 {
        base
    } else if x < 0 && y >= 0 {
        (PI as int) - base
    } else if x < 0 {
        base - (PI as int)
    } else {
        -base
    }
}

/// Arctangent of `y / x` honouring the quadrant of `(x, y)`.
pub fn atan2_fp(y: i64, x: i64) -> (r: i64)
    requires
        -ATAN_ARG_LIMIT <= y <= ATAN_ARG_LIMIT,
        -ATAN_ARG_LIMIT <= x <= ATAN_ARG_LIMIT,
    ensures
        r == spec_atan2(y as int, x as int),
        -PI <= r <= PI,
{
    let ax: i64 = if x >= 0 { x } else { -x };
    let ay: i64 = if y >= 0 { y } else { -y };
    let base: i64 = if ay <= ax {
        if ax == 0 {
            0
        } else {
            atan_div(ay, ax)
        }
    } else {
        HALF_PI - atan_div(ax, ay)
    };
    if x >= 0 && y >= 0 {
        base
    } else if x < 0 && y >= 0 {
        PI - base
    } else if x < 0 {
        base - PI
    } else {
        -base
    }
}

/// The bearing from `p` to `q`: zero when `q` lies straight above `p`
/// (negative `y`), growing clockwise.
pub open spec fn spec_angle_between(p: Point, q: Point) -> int {
    spec_atan2(q.y - p.y, q.x - p.x) + HALF_PI
}

/// Bearing from `p` to `q`, in millionths of a radian; zero points up
/// (toward negative `y`), angles grow clockwise.
pub fn angle_between(p: &Point, q: &Point) -> (r: i64)
    requires
        -COORD_ARG_LIMIT / 2 <= p.x <= COORD_ARG_LIMIT / 2,
        -COORD_ARG_LIMIT / 2 <= p.y <= COORD_ARG_LIMIT / 2,
        -COORD_ARG_LIMIT / 2 <= q.x <= COORD_ARG_LIMIT / 2,
        -COORD_ARG_LIMIT / 2 <= q.y <= COORD_ARG_LIMIT / 2,
    ensures
        r == spec_angle_between(*p, *q),
        -PI + HALF_PI <= r <= PI + HALF_PI,
{
    let dx = q.x - p.x;
    let dy = q.y - p.y;
    atan2_fp(dy, dx) + HALF_PI
}

/// The point reached from `(x, y)` by walking `len` in direction `angle`
/// (zero points up, toward negative `y`).
pub open spec fn spec_line_endpoint(x: int, y: int, len: int, angle: int) -> Point {
    Point {
        x: (x + spec_scale(spec_sin_fp(angle), len)) as i64,
        y: (y - spec_scale(spec_cos_fp(angle), len)) as i64,
    }
}

/// Walks `len` from `(x, y)` in direction `angle` (zero points up, toward
/// negative `y`) and returns the endpoint.
pub fn line_endpoint(x: i64, y: i64, len: i64, angle: i64) -> (r: Point)
    requires
        -COORD_LIMIT <= x <= COORD_LIMIT,
        -COORD_LIMIT <= y <= COORD_LIMIT,
        0 <= len <= SCALE_B_LIMIT,
        -ANGLE_ARG_LIMIT / 2 <= angle <= ANGLE_ARG_LIMIT / 2,
    ensures
        r == spec_line_endpoint(x as int, y as int, len as int, angle as int),
{
    let s = sin_fp(angle);
    let c = cos_fp(angle);
    let dx = scale(s, len);
    let dy = scale(c, len);
    proof {
        lemma_scale_bound(s as int, len as int);
        lemma_scale_bound(c as int, len as int);
    }
    Point { x: x + dx, y: y - dy }
}

/// An angular sector: a centre angle and a half-width that extends to each
/// side of it, both in millionths of a radian.
#[derive(Clone, Copy, PartialEq, Eq, Structural, Debug)]
pub struct Sector {
    pub angle: i64,
    pub delta: i64,
}

/// Magnitude bound on sector angles and half-widths.
pub const SECTOR_LIMIT: i64 = 0x800_0000_0000_0000;

/// Whether `x` lies on the circular arc that runs clockwise from `a` to `b`
/// (all three normalized into `[0, TWO_PI)`).
pub open spec fn spec_is_between(x: int, a: int, b: int) -> bool {
    if a <= b {
        a <= x && x <= b
    } else {
        a <= x || x <= b
    }
}

/// Whether the sectors `s` and `t` share at least one direction: one of the
/// four normalized edges lies within the other sector's arc.
pub open spec fn spec_overlaps(s: Sector, t: Sector) -> bool {
    let sl = spec_normalize_absolute_angle(s.angle - s.delta);
    let sr = spec_normalize_absolute_angle(s.angle + s.delta);
    let tl = spec_normalize_absolute_angle(t.angle - t.delta);
    let tr = spec_normalize_absolute_angle(t.angle + t.delta);
    spec_is_between(sl, tl, tr) || spec_is_between(sr, tl, tr) || spec_is_between(tl, sl, sr)
        || spec_is_between(tr, sl, sr)
}

/// Whether sector overlap is mutual: [`spec_overlaps`] is commutative for
/// all sectors, so neither party of an overlap test is privileged.
pub proof fn lemma_overlaps_commutative(s: Sector, t: Sector)
    ensures
        spec_overlaps(s, t) == spec_overlaps(t, s),
{
}

/// Whether `x` lies on the arc from `a` to `b`.
fn is_between(x: i64, a: i64, b: i64) -> (r: bool)
    ensures
        r == spec_is_between(x as int, a as int, b as int),
{
    if a <= b {
        a <= x && x <= b
    } else {
        a <= x || x <= b
    }
}

impl Sector {
    /// A sector centred on `angle` extending `delta` to each side.
    pub fn new(angle: i64, delta: i64) -> (r: Self)
        ensures
            r == (Sector { angle, delta }),
    {
        Self { angle, delta }
    }

    /// The counter-clockwise edge of the sector.
    pub fn left(&self) -> (r: i64)
        requires
            -SECTOR_LIMIT <= self.angle <= SECTOR_LIMIT,
            -SECTOR_LIMIT <= self.delta <= SECTOR_LIMIT,
        ensures
            r == self.angle - self.delta,
    {
        self.angle - self.delta
    }

    /// The clockwise edge of the sector.
    pub fn right(&self) -> (r: i64)
        requires
            -SECTOR_LIMIT <= self.angle <= SECTOR_LIMIT,
            -SECTOR_LIMIT <= self.delta <= SECTOR_LIMIT,
        ensures
            r == self.angle + self.delta,
    {
        self.angle + self.delta
    }

    /// Whether this sector and `other` share at least one direction,
    /// handling wraparound at the `0`/`TWO_PI` boundary.
    pub fn overlaps(&self, other: &Sector) -> (r: bool)
        requires
            -SECTOR_LIMIT <= self.angle <= SECTOR_LIMIT,
            -SECTOR_LIMIT <= self.delta <= SECTOR_LIMIT,
            -SECTOR_LIMIT <= other.angle <= SECTOR_LIMIT,
            -SECTOR_LIMIT <= other.delta <= SECTOR_LIMIT,
        ensures
            r == spec_overlaps(*self, *other),
    {
        let sl = normalize_absolute_angle(self.left());
        let sr = normalize_absolute_angle(self.right());
        let tl = normalize_absolute_angle(other.left());
        let tr = normalize_absolute_angle(other.right());
        is_between(sl, tl, tr) || is_between(sr, tl, tr) || is_between(tl, sl, sr)
            || is_between(tr, sl, sr)
    }
}

/// Helper: the product of bounded factors is bounded.
pub proof fn lemma_mul_bound(a: int, b: int, c: int, d: int)
    requires
        -c <= a <= c,
        -d <= b <= d,
        0 <= c,
        0 <= d,
    ensures
        -(c * d) <= a * b <= c * d,
{
    assert(-(c * d) <= a * b <= c * d) by (nonlinear_arith)
        requires
            -c <= a <= c,
            -d <= b <= d,
            0 <= c,
            0 <= d,
    ;
}

} // verus!
