//! Fixed-point scalar arithmetic for the simulation core.
//!
//! All physical quantities are integers: distances in kilometres, velocities
//! in kilometres per day, angles in microdegrees, and dimensionless fractions
//! (eccentricity, sines, cosines) in units of `1 / SCALE`.  Every operation
//! has an exact specification-level mirror, so the whole simulation is a pure
//! function of its integer inputs.

use vstd::prelude::*;

verus! {

use vstd::arithmetic::div_mod::{
    lemma_div_is_ordered, lemma_div_multiples_vanish, lemma_div_pos_is_pos,
};

/// Number of fixed-point units in 1.0: fractions carry six decimal places.
pub const SCALE: i64 = 1_000_000;

/// Saturation bound for coordinates (km), velocities (km/day) and
/// accelerations (km/day^2): all stored components stay within [-LIM, LIM].
pub const LIM: i64 = 2_000_000_000_000;

/// Half a revolution, in microdegrees.
pub const HALF_TURN: i64 = 180_000_000;

/// A full revolution, in microdegrees.
pub const FULL_TURN: i64 = 360_000_000;

/// Truncating (round-toward-zero) division: the semantics of Rust's `/`,
/// defined for a positive divisor.
pub open spec fn tdiv(a: int, b: int) -> int {
    if a >= 0 {
        a / b
    } else {
        -((-a) / b)
    }
}

/// Clamp `x` into `[-lim, lim]`.
pub open spec fn clamp_spec(x: int, lim: int) -> int {
    if x < -lim {
        -lim
    } else if x > lim {
        lim
    } else {
        x
    }
}

/// `a * b / d`, truncated, saturated at the coordinate bound.
pub open spec fn mul_div_spec(a: int, b: int, d: int) -> int {
    clamp_spec(tdiv(a * b, d), LIM as int)
}

/// Saturating sum of two components.
pub open spec fn add_sat_spec(a: int, b: int) -> int {
    clamp_spec(a + b, LIM as int)
}

/// Saturating difference of two components.
pub open spec fn sub_sat_spec(a: int, b: int) -> int {
    clamp_spec(a - b, LIM as int)
}

/// Euclidean remainder of `x` by a full revolution, in `[0, FULL_TURN)`.
pub open spec fn emod360_spec(x: int) -> int {
    x % (FULL_TURN as int)
}

/// Angle normalized to `[-HALF_TURN, HALF_TURN)` microdegrees.
pub open spec fn mod_180_spec(x: int) -> int {
    let m = emod360_spec(x);
    if m >= HALF_TURN as int {
        m - FULL_TURN as int
    } else {
        m
    }
}

/// Clamp an `i128` intermediate into `[-lim, lim]` as an `i64`.
pub fn clamp128(x: i128, lim: i64) -> (r: i64)
    requires
        0 < lim,
    ensures
        r == clamp_spec(x as int, lim as int),
{
    if x < -(lim as i128) {
        -lim
    } else if x > lim as i128 {
        lim
    } else {
        x as i64
    }
}

/// Clamp an `i64` value into `[-lim, lim]`.
pub fn clamp64(x: i64, lim: i64) -> (r: i64)
    requires
        0 < lim,
    ensures
        r == clamp_spec(x as int, lim as int),
{
    if x < -lim {
        -lim
    } else if x > lim {
        lim
    } else {
        x
    }
}

/// `a * b / d`, computed without intermediate overflow, saturated at `LIM`.
pub fn mul_div(a: i64, b: i64, d: i64) -> (r: i64)
    requires
        0 < d,
    ensures
        r == mul_div_spec(a as int, b as int, d as int),
        -LIM <= r <= LIM,
{
    proof {
        assert(i64::MIN <= a <= i64::MAX && i64::MIN <= b <= i64::MAX ==> i128::MIN < a * b
            < i128::MAX) by (nonlinear_arith);
    }
    let p: i128 = (a as i128) * (b as i128);
    let q: i128 = p / (d as i128);
    clamp128(q, LIM)
}

/// Saturating addition of two components.
pub fn add_sat(a: i64, b: i64) -> (r: i64)
    ensures
        r == add_sat_spec(a as int, b as int),
        -LIM <= r <= LIM,
{
    clamp128((a as i128) + (b as i128), LIM)
}

/// Saturating subtraction of two components.
pub fn sub_sat(a: i64, b: i64) -> (r: i64)
    ensures
        r == sub_sat_spec(a as int, b as int),
        -LIM <= r <= LIM,
{
    clamp128((a as i128) - (b as i128), LIM)
}

/// Euclidean remainder by a full revolution.
pub fn emod360(x: i64) -> (r: i64)
    ensures
        r == emod360_spec(x as int),
        0 <= r < FULL_TURN,
{
    let m: i64 = x % FULL_TURN;
    if m < 0 {
        m + FULL_TURN
    } else {
        m
    }
}

/// Normalize an angle to `[-HALF_TURN, HALF_TURN)` microdegrees, as the
/// orbital elements convention requires.
pub fn mod_180(x: i64) -> (r: i64)
    ensures
        r == mod_180_spec(x as int),
        -HALF_TURN <= r < HALF_TURN,
{
    let m = emod360(x);
    if m >= HALF_TURN {
        m - FULL_TURN
    } else {
        m
    }
}

/// Microradians per microdegree, scaled by `URAD_DEN`.
pub const URAD_NUM: i64 = 17_453_293;

/// Denominator of the degree-to-radian conversion.
pub const URAD_DEN: i64 = 1_000_000_000;

/// A quarter revolution, in microdegrees.
pub const QUARTER_TURN: i64 = 90_000_000;

/// Degrees-to-radians conversion on microdegree angles, yielding
/// microradians.
pub open spec fn to_urad_spec(d: int) -> int {
    mul_div_spec(d, URAD_NUM as int, URAD_DEN as int)
}

/// Taylor polynomial for the sine of `r` microradians, `0 <= r <= pi/2`,
/// evaluated in fixed point and saturated at one.
#[verifier::opaque]
pub open spec fn sin_poly_spec(r: int) -> int {
    let r2 = mul_div_spec(r, r, SCALE as int);
    let r3 = mul_div_spec(r2, r, SCALE as int);
    let r5 = mul_div_spec(r3, r2, SCALE as int);
    let r7 = mul_div_spec(r5, r2, SCALE as int);
    let r9 = mul_div_spec(r7, r2, SCALE as int);
    clamp_spec(
        r - tdiv(r3, 6) + tdiv(r5, 120) - tdiv(r7, 5040) + tdiv(r9, 362880),
        SCALE as int,
    )
}

/// Fixed-point sine of an angle in microdegrees, in units of `1 / SCALE`.
#[verifier::opaque]
pub open spec fn sin_spec(x: int) -> int {
    let m = emod360_spec(x);
    let f = if m <= QUARTER_TURN as int {
        m
    } else if m <= 3 * (QUARTER_TURN as int) {
        (HALF_TURN as int) - m
    } else {
        m - (FULL_TURN as int)
    };
    if f >= 0 {
        sin_poly_spec(to_urad_spec(f))
    } else {
        -sin_poly_spec(to_urad_spec(-f))
    }
}

/// Fixed-point cosine: the sine shifted by a quarter revolution.
#[verifier::opaque]
pub open spec fn cos_spec(x: int) -> int {
    sin_spec(emod360_spec(x) + QUARTER_TURN as int)
}

/// Degrees-to-radians conversion on microdegree angles.
pub fn to_urad(d: i64) -> (r: i64)
    ensures
        r == to_urad_spec(d as int),
        -LIM <= r <= LIM,
        0 <= d <= QUARTER_TURN ==> 0 <= r <= 1_570_797,
{
    proof {
        if 0 <= d <= QUARTER_TURN {
            lemma_div_pos_is_pos(d * (URAD_NUM as int), URAD_DEN as int);
            lemma_div_is_ordered(
                d * (URAD_NUM as int),
                (QUARTER_TURN as int) * (URAD_NUM as int),
                URAD_DEN as int,
            );
        }
    }
    mul_div(d, URAD_NUM, URAD_DEN)
}

/// Taylor polynomial for the sine of `r` microradians.
pub fn sin_poly(r: i64) -> (s: i64)
    requires
        0 <= r <= 2_000_000,
    ensures
        s == sin_poly_spec(r as int),
        -SCALE <= s <= SCALE,
{
    proof {
        reveal(sin_poly_spec);
    }
    let r2 = mul_div(r, r, SCALE);
    let r3 = mul_div(r2, r, SCALE);
    let r5 = mul_div(r3, r2, SCALE);
    let r7 = mul_div(r5, r2, SCALE);
    let r9 = mul_div(r7, r2, SCALE);
    clamp64(r - r3 / 6 + r5 / 120 - r7 / 5040 + r9 / 362880, SCALE)
}

/// Fixed-point sine of an angle in microdegrees.
pub fn sin_udeg(x: i64) -> (s: i64)
    ensures
        s == sin_spec(x as int),
        -SCALE <= s <= SCALE,
{
    proof {
        reveal(sin_spec);
    }
    let m = emod360(x);
    let f: i64 = if m <= QUARTER_TURN {
        m
    } else if m <= 3 * QUARTER_TURN {
        HALF_TURN - m
    } else {
        m - FULL_TURN
    };
    if f >= 0 {
        sin_poly(to_urad(f))
    } else {
        -sin_poly(to_urad(-f))
    }
}

/// Fixed-point cosine of an angle in microdegrees.
pub fn cos_udeg(x: i64) -> (c: i64)
    ensures
        c == cos_spec(x as int),
        -SCALE <= c <= SCALE,
{
    proof {
        reveal(cos_spec);
    }
    let m = emod360(x);
    sin_udeg(m + QUARTER_TURN)
}

/// A fixed-point product of a nonnegative fraction below one with a factor
/// bounded by one stays within the fraction itself.
pub proof fn lemma_mul_div_fraction(a: int, c: int)
    requires
        0 <= a < SCALE,
        -SCALE <= c <= SCALE,
    ensures
        -a <= mul_div_spec(a, c, SCALE as int) <= a,
{
    let s = SCALE as int;
    assert(a * c <= a * s && -(a * s) <= a * c) by (nonlinear_arith)
        requires
            0 <= a && -s <= c <= s,
    ;
    lemma_div_multiples_vanish(a, s);
    assert((s * a) / s == a);
    assert(s * a == a * s) by (nonlinear_arith);
    if a * c >= 0 {
        lemma_div_is_ordered(a * c, a * s, s);
        assert(tdiv(a * c, s) <= a);
        lemma_div_pos_is_pos(a * c, s);
    } else {
        lemma_div_is_ordered(-(a * c), a * s, s);
        assert(tdiv(a * c, s) == -((-(a * c)) / s));
        lemma_div_pos_is_pos(-(a * c), s);
    }
}

/// Counting-down helper for the specification-level square root.
pub open spec fn sqrt_floor_aux(n: nat, k: nat) -> nat
    decreases k,
{
    if k == 0 {
        0
    } else if k * k <= n {
        k
    } else {
        sqrt_floor_aux(n, (k - 1) as nat)
    }
}

/// Floor of the square root, as a specification-level function.
pub open spec fn sqrt_floor(n: nat) -> nat {
    sqrt_floor_aux(n, n)
}

/// The bracketing `r * r <= n < (r + 1) * (r + 1)` picks out exactly
/// `sqrt_floor(n)`.
pub proof fn lemma_sqrt_unique(n: nat, r: nat)
    requires
        r * r <= n,
        n < (r + 1) * (r + 1),
    ensures
        r == sqrt_floor(n),
{
    assert(r <= n) by (nonlinear_arith)
        requires
            r * r <= n,
    ;
    lemma_sqrt_aux(n, r, n);
}

proof fn lemma_sqrt_aux(n: nat, r: nat, k: nat)
    requires
        r * r <= n,
        n < (r + 1) * (r + 1),
        r <= k,
    ensures
        sqrt_floor_aux(n, k) == r,
    decreases k,
{
    if k == r {
        if k == 0 {
        } else {
            assert(k * k <= n);
        }
    } else {
        assert(k >= r + 1);
        assert(k * k >= (r + 1) * (r + 1)) by (nonlinear_arith)
            requires
                k >= r + 1,
        ;
        assert(k * k > n);
        assert(k != 0);
        lemma_sqrt_aux(n, r, (k - 1) as nat);
    }
}

/// Normalize a wide intermediate angle to `[-HALF_TURN, HALF_TURN)`.
pub fn mod_180_i128(x: i128) -> (r: i64)
    ensures
        r == mod_180_spec(x as int),
        -HALF_TURN <= r < HALF_TURN,
{
    let m: i128 = x % (FULL_TURN as i128);
    let m = if m < 0 {
        m + FULL_TURN as i128
    } else {
        m
    };
    if m >= HALF_TURN as i128 {
        (m - FULL_TURN as i128) as i64
    } else {
        m as i64
    }
}

/// Largest argument the integer square root accepts: `SQRT_BOUND` squared.
pub const SQRT_BOUND: u128 = 1_125_899_906_842_624;

/// Integer square root: the greatest `r` with `r * r <= n`.
pub fn isqrt(n: u128) -> (r: u128)
    requires
        n < SQRT_BOUND * SQRT_BOUND,
    ensures
        r * r <= n < (r + 1) * (r + 1),
        r == sqrt_floor(n as nat),
{
    let mut lo: u128 = 0;
    let mut hi: u128 = SQRT_BOUND;
    while lo + 1 < hi
        invariant
            lo < hi,
            hi <= SQRT_BOUND,
            lo * lo <= n,
            n < hi * hi,
        decreases hi - lo,
    {
        let mid = lo + (hi - lo) / 2;
        proof {
            assert(mid < hi && hi <= SQRT_BOUND ==> mid * mid < SQRT_BOUND * SQRT_BOUND)
                by (nonlinear_arith);
        }
        if mid * mid <= n {
            lo = mid;
        } else {
            hi = mid;
        }
    }
    proof {
        lemma_sqrt_unique(n as nat, lo as nat);
    }
    lo
}

} // verus!
