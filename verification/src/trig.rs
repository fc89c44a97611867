//! Trigonometry over binary angles.
//!
//! Angles are integers counting `1 / FULL_TURN` of a revolution, so one
//! full revolution is exactly `FULL_TURN` units and periodicity is exact.
//! Sine and cosine are computed with Bhaskara's rational approximation,
//! which is exact at every multiple of a quarter turn and odd/even
//! symmetric by construction.

use vstd::prelude::*;
use crate::fixed::FP_ONE;

verus! {

/// Angle units in one full revolution.
pub const FULL_TURN: i64 = 98304;

/// Angle units in half a revolution.
pub const HALF_TURN: i64 = 49152;

/// Angle units in a quarter revolution.
pub const QUARTER_TURN: i64 = 24576;

/// Denominator base of Bhaskara's approximation: 5 * HALF_TURN^2 / 4.
pub const SIN_DENOM: i64 = 3019898880;

/// Largest angle magnitude the trigonometric entry points accept.
pub const ANGLE_LIMIT: i64 = 0x1_0000_0000_0000;

/// An angle reduced to its class modulo one revolution, in [0, FULL_TURN).
pub open spec fn spec_norm(a: int) -> int {
    a % (FULL_TURN as int)
}

/// Bhaskara's sine on half a revolution, scaled by `FP_ONE`:
/// for x in [0, HALF_TURN], 4 x (H - x) FP / (5 H^2 / 4 - x (H - x)).
pub open spec fn spec_half_sin(x: int) -> int {
    let n = x * (HALF_TURN - x);
    (4 * n * FP_ONE) / (SIN_DENOM - n)
}

/// Sine of a binary angle, scaled by `FP_ONE`.
pub open spec fn spec_sin(a: int) -> int {
    let x = spec_norm(a);
    if x < HALF_TURN {
        spec_half_sin(x)
    } else {
        -spec_half_sin(x - HALF_TURN)
    }
}

/// Cosine of a binary angle, scaled by `FP_ONE`.
pub open spec fn spec_cos(a: int) -> int {
    spec_sin(a + QUARTER_TURN)
}

proof fn lemma_half_sin_bounds(x: int)
    requires
        0 <= x <= HALF_TURN,
    ensures
        0 <= spec_half_sin(x) <= FP_ONE,
        x == QUARTER_TURN ==> spec_half_sin(x) == FP_ONE,
        1 <= x <= HALF_TURN - 1 ==> spec_half_sin(x) >= 1,
        x == 0 || x == HALF_TURN ==> spec_half_sin(x) == 0,
{
    let n = x * (49152 - x);
    assert(n == x * (HALF_TURN - x));
    assert(0 <= n <= 603979776) by (nonlinear_arith)
        requires 0 <= x <= 49152, n == x * (49152 - x);
    assert(x == 24576 ==> n == 603979776) by (nonlinear_arith)
        requires n == x * (49152 - x);
    assert(1 <= x <= 49151 ==> n >= 49151) by (nonlinear_arith)
        requires 0 <= x, n == x * (49152 - x);
    assert(x == 0 || x == 49152 ==> n == 0) by (nonlinear_arith)
        requires n == x * (49152 - x);
    let num = 4 * n * 65536;
    let den = 3019898880 - n;
    assert(num == 4 * n * FP_ONE && den == SIN_DENOM - n && 0 < den && 0 <= num);
    assert(spec_half_sin(x) == num / den);
    vstd::arithmetic::div_mod::lemma_div_pos_is_pos(num, den);
    assert(num <= den * 65536) by (nonlinear_arith)
        requires n <= 603979776, num == 4 * n * 65536, den == 3019898880 - n;
    vstd::arithmetic::div_mod::lemma_multiply_divide_le(num, den, 65536);
    if x == 24576 {
        assert(num == 65536 * den + 0) by (nonlinear_arith)
            requires n == 603979776, num == 4 * n * 65536, den == 3019898880 - n;
        vstd::arithmetic::div_mod::lemma_fundamental_div_mod_converse(num, den, 65536, 0);
    }
    if 1 <= x <= 49151 {
        assert(num >= den) by (nonlinear_arith)
            requires n >= 49151, num == 4 * n * 65536, den == 3019898880 - n, n <= 603979776;
        vstd::arithmetic::div_mod::lemma_div_non_zero(num, den);
    }
    if x == 0 || x == 49152 {
        assert(num == 0);
        vstd::arithmetic::div_mod::lemma_div_of0(den);
    }
}

/// The sine value is always within [-FP_ONE, FP_ONE].
pub proof fn lemma_sin_bounds(a: int)
    ensures
        -FP_ONE <= spec_sin(a) <= FP_ONE,
{
    let x = spec_norm(a);
    vstd::arithmetic::div_mod::lemma_mod_bound(a, FULL_TURN as int);
    if x < HALF_TURN {
        lemma_half_sin_bounds(x);
    } else {
        lemma_half_sin_bounds(x - HALF_TURN);
    }
}

/// Sine is periodic with period exactly one revolution.
pub proof fn lemma_sin_periodic(a: int)
    ensures
        spec_sin(a + FULL_TURN) == spec_sin(a),
{
    let f = FULL_TURN as int;
    vstd::arithmetic::div_mod::lemma_mod_multiples_vanish(1, a, f);
    assert(spec_norm(a + f) == spec_norm(a));
}

/// Cosine is periodic with period exactly one revolution.
pub proof fn lemma_cos_periodic(a: int)
    ensures
        spec_cos(a + FULL_TURN) == spec_cos(a),
{
    lemma_sin_periodic(a + QUARTER_TURN);
    assert(a + FULL_TURN + QUARTER_TURN == (a + QUARTER_TURN) + FULL_TURN);
}

/// Cosine of a binary angle is within [-FP_ONE, FP_ONE].
pub proof fn lemma_cos_bounds(a: int)
    ensures
        -FP_ONE <= spec_cos(a) <= FP_ONE,
{
    lemma_sin_bounds(a + QUARTER_TURN);
}

proof fn lemma_norm_shift(a: int, b: int)
    ensures
        spec_norm(a + b) == spec_norm(spec_norm(a) + b),
{
    let f = FULL_TURN as int;
    vstd::arithmetic::div_mod::lemma_add_mod_noop(a, b, f);
    vstd::arithmetic::div_mod::lemma_add_mod_noop(a % f, b, f);
    vstd::arithmetic::div_mod::lemma_mod_twice(a, f);
}

proof fn lemma_norm_neg(a: int)
    ensures
        spec_norm(a) == 0 ==> spec_norm(-a) == 0,
        spec_norm(a) != 0 ==> spec_norm(-a) == FULL_TURN - spec_norm(a),
{
    let f = FULL_TURN as int;
    let u = spec_norm(a);
    vstd::arithmetic::div_mod::lemma_mod_bound(a, f);
    vstd::arithmetic::div_mod::lemma_fundamental_div_mod(a, f);
    let q = a / f;
    if u == 0 {
        vstd::arithmetic::div_mod::lemma_fundamental_div_mod_converse(-a, f, -q, 0);
    } else {
        vstd::arithmetic::div_mod::lemma_fundamental_div_mod_converse(-a, f, -q - 1, f - u);
    }
}

proof fn lemma_half_sin_symmetric(x: int)
    requires
        0 <= x <= HALF_TURN,
    ensures
        spec_half_sin(x) == spec_half_sin(HALF_TURN - x),
{
    assert(x * (HALF_TURN - x) == (HALF_TURN - x) * (HALF_TURN - (HALF_TURN - x)))
        by (nonlinear_arith);
}

/// The cosine is an even function of the angle: the fisheye correction
/// factor is the same for two ray angles symmetric about the heading.
pub proof fn lemma_cos_even(d: int)
    ensures
        spec_cos(d) == spec_cos(-d),
{
    let f = FULL_TURN as int;
    let h = HALF_TURN as int;
    let q = QUARTER_TURN as int;
    let u = spec_norm(d);
    vstd::arithmetic::div_mod::lemma_mod_bound(d, f);
    lemma_norm_shift(d, q);
    lemma_norm_shift(-d, q);
    lemma_norm_neg(d);
    let v = spec_norm(-d);
    // spec_cos(d) == spec_sin at spec_norm(u + q), spec_cos(-d) == spec_sin at spec_norm(v + q)
    if u == 0 {
        vstd::arithmetic::div_mod::lemma_fundamental_div_mod_converse(u + q, f, 0, q);
        vstd::arithmetic::div_mod::lemma_fundamental_div_mod_converse(v + q, f, 0, q);
    } else if u < q {
        // x1 = u + q in (q, h); x2 = f - u + q in (f - q + q .. ) wraps: v + q = f - u + q
        vstd::arithmetic::div_mod::lemma_fundamental_div_mod_converse(u + q, f, 0, u + q);
        vstd::arithmetic::div_mod::lemma_fundamental_div_mod_converse(v + q, f, 1, q - u);
        lemma_half_sin_symmetric(u + q);
        assert(h - (u + q) == q - u);
    } else if u == q {
        vstd::arithmetic::div_mod::lemma_fundamental_div_mod_converse(u + q, f, 0, h);
        vstd::arithmetic::div_mod::lemma_fundamental_div_mod_converse(v + q, f, 1, 0);
        assert(spec_half_sin(h - h) == 0 && spec_half_sin(0) == 0);
    } else if u < 3 * q {
        // x1 = u + q in (h, f); sin = -half_sin(u - q)
        // x2 = v + q = f - u + q in (2q, f - ... ): f + q - u in (2q, f), sin = -half_sin(3q - u) for u < 3q
        vstd::arithmetic::div_mod::lemma_fundamental_div_mod_converse(u + q, f, 0, u + q);
        vstd::arithmetic::div_mod::lemma_fundamental_div_mod_converse(v + q, f, 0, f + q - u);
        lemma_half_sin_symmetric(u - q);
        assert(h - (u - q) == f + q - u - h);
    } else if u == 3 * q {
        vstd::arithmetic::div_mod::lemma_fundamental_div_mod_converse(u + q, f, 1, 0);
        vstd::arithmetic::div_mod::lemma_fundamental_div_mod_converse(v + q, f, 0, h);
        assert(spec_half_sin(h - h) == 0 && spec_half_sin(0) == 0);
    } else {
        // 3q < u < f: x1 = u + q - f = u - 3q in (0, q); x2 = f + q - u in (q, h)
        vstd::arithmetic::div_mod::lemma_fundamental_div_mod_converse(u + q, f, 1, u - 3 * q);
        vstd::arithmetic::div_mod::lemma_fundamental_div_mod_converse(v + q, f, 0, f + q - u);
        lemma_half_sin_symmetric(u - 3 * q);
        assert(h - (u - 3 * q) == f + q - u);
    }
}

/// Where the sine vanishes, the cosine is exactly a unit: a ray aligned
/// with one axis has its full step along the other axis.
pub proof fn lemma_sin_zero_cos_unit(a: int)
    requires
        spec_sin(a) == 0,
    ensures
        spec_cos(a) == FP_ONE || spec_cos(a) == -FP_ONE,
{
    let f = FULL_TURN as int;
    let h = HALF_TURN as int;
    let q = QUARTER_TURN as int;
    let u = spec_norm(a);
    vstd::arithmetic::div_mod::lemma_mod_bound(a, f);
    if u < h {
        lemma_half_sin_bounds(u);
        assert(u == 0);
    } else {
        lemma_half_sin_bounds(u - h);
        assert(u == h);
    }
    lemma_norm_shift(a, q);
    if u == 0 {
        vstd::arithmetic::div_mod::lemma_fundamental_div_mod_converse(u + q, f, 0, q);
        lemma_half_sin_bounds(q);
    } else {
        vstd::arithmetic::div_mod::lemma_fundamental_div_mod_converse(u + q, f, 0, 3 * q);
        lemma_half_sin_bounds(3 * q - h);
    }
}

/// The cosine of an angle strictly within a quarter turn of zero is
/// strictly positive.
pub proof fn lemma_cos_pos(a: int)
    requires
        -QUARTER_TURN < a < QUARTER_TURN,
    ensures
        spec_cos(a) > 0,
{
    let f = FULL_TURN as int;
    let q = QUARTER_TURN as int;
    vstd::arithmetic::div_mod::lemma_fundamental_div_mod_converse(a + q, f, 0, a + q);
    lemma_half_sin_bounds(a + q);
}

/// A ray direction never degenerates: sine and cosine of one angle are
/// never both zero.
pub proof fn lemma_dir_nonzero(a: int)
    ensures
        spec_sin(a) != 0 || spec_cos(a) != 0,
{
    if spec_sin(a) == 0 {
        lemma_sin_zero_cos_unit(a);
    }
}

/// Angle units in an eighth of a revolution.
pub const EIGHTH_TURN: i64 = 12288;

/// Correction coefficient of the arctangent approximation, in angle
/// units (0.285 radians).
pub const ATAN_COEFF: i64 = 4459;

/// Approximate arctangent of a ratio z in [0, FP_ONE], in angle units:
/// an eighth turn scaled by z, plus a small symmetric correction.
pub open spec fn spec_atan_frac(z: int) -> int {
    (EIGHTH_TURN * z) / (FP_ONE as int) + (ATAN_COEFF * z * (FP_ONE - z)) / (
    FP_ONE as int * FP_ONE)
}

/// Approximate arctangent of the direction (x, y), in angle units within
/// [-HALF_TURN, HALF_TURN].
pub open spec fn spec_atan2(y: int, x: int) -> int {
    let ax = if x >= 0 { x } else { -x };
    let ay = if y >= 0 { y } else { -y };
    if ax == 0 && ay == 0 {
        0int
    } else {
        let base = if ay <= ax {
            spec_atan_frac(ay * FP_ONE / ax)
        } else {
            QUARTER_TURN - spec_atan_frac(ax * FP_ONE / ay)
        };
        let mag = if x >= 0 {
            base
        } else {
            HALF_TURN - base
        };
        if y >= 0 {
            mag
        } else {
            -mag
        }
    }
}

fn atan_frac(z: i64) -> (r: i64)
    requires
        0 <= z <= FP_ONE,
    ensures
        r == spec_atan_frac(z as int),
        0 <= r <= QUARTER_TURN,
{
    proof {
        assert(0 <= EIGHTH_TURN * z <= 12288 * 65536 && 0 <= ATAN_COEFF * z * (FP_ONE - z)
            <= 4459 * 65536 * 65536) by (nonlinear_arith)
            requires 0 <= z <= 65536, EIGHTH_TURN == 12288i64, ATAN_COEFF == 4459i64,
                FP_ONE == 65536i64;
        vstd::arithmetic::div_mod::lemma_div_pos_is_pos(EIGHTH_TURN as int * z,
            FP_ONE as int);
        vstd::arithmetic::div_mod::lemma_div_pos_is_pos(
            ATAN_COEFF as int * z * (FP_ONE - z), FP_ONE as int * FP_ONE);
        vstd::arithmetic::div_mod::lemma_multiply_divide_le(EIGHTH_TURN as int * z,
            FP_ONE as int, EIGHTH_TURN as int);
        vstd::arithmetic::div_mod::lemma_multiply_divide_le(
            ATAN_COEFF as int * z * (FP_ONE - z), FP_ONE as int * FP_ONE, ATAN_COEFF as int);
        assert(EIGHTH_TURN as int * z <= FP_ONE as int * EIGHTH_TURN) by (nonlinear_arith)
            requires 0 <= z <= 65536, EIGHTH_TURN == 12288i64, FP_ONE == 65536i64;
        assert(ATAN_COEFF as int * z * (FP_ONE - z) <= (FP_ONE as int * FP_ONE)
            * ATAN_COEFF) by (nonlinear_arith)
            requires 0 <= z <= 65536, ATAN_COEFF == 4459i64, FP_ONE == 65536i64;
    }
    EIGHTH_TURN * z / FP_ONE + ATAN_COEFF * z * (FP_ONE - z) / (FP_ONE * FP_ONE)
}

/// Approximate arctangent of the direction (x, y): the binary angle of
/// the vector, within [-HALF_TURN, HALF_TURN].
pub fn atan2_fp(y: i64, x: i64) -> (r: i64)
    requires
        -0x2000_0000 <= y <= 0x2000_0000,
        -0x2000_0000 <= x <= 0x2000_0000,
    ensures
        r == spec_atan2(y as int, x as int),
        -HALF_TURN <= r <= HALF_TURN,
{
    let ax = if x >= 0 { x } else { -x };
    let ay = if y >= 0 { y } else { -y };
    if ax == 0 && ay == 0 {
        return 0;
    }
    let base = if ay <= ax {
        proof {
            assert(0 <= ay * FP_ONE <= ax * 65536) by (nonlinear_arith)
                requires 0 <= ay <= ax, FP_ONE == 65536i64;
            vstd::arithmetic::div_mod::lemma_div_pos_is_pos(ay as int * FP_ONE, ax as int);
            vstd::arithmetic::div_mod::lemma_multiply_divide_le(ay as int * FP_ONE,
                ax as int, FP_ONE as int);
        }
        atan_frac(ay * FP_ONE / ax)
    } else {
        proof {
            assert(0 <= ax * FP_ONE <= ay * 65536) by (nonlinear_arith)
                requires 0 <= ax <= ay, FP_ONE == 65536i64;
            vstd::arithmetic::div_mod::lemma_div_pos_is_pos(ax as int * FP_ONE, ay as int);
            vstd::arithmetic::div_mod::lemma_multiply_divide_le(ax as int * FP_ONE,
                ay as int, FP_ONE as int);
        }
        QUARTER_TURN - atan_frac(ax * FP_ONE / ay)
    };
    let mag = if x >= 0 {
        base
    } else {
        HALF_TURN - base
    };
    if y >= 0 {
        mag
    } else {
        -mag
    }
}

/// An angle reduced to [0, FULL_TURN).
pub fn normalize_angle(a: i64) -> (r: i64)
    requires
        a > i64::MIN,
    ensures
        r == spec_norm(a as int),
        0 <= r < FULL_TURN,
{
    proof {
        vstd::arithmetic::div_mod::lemma_mod_bound(a as int, FULL_TURN as int);
    }
    if a >= 0 {
        a % FULL_TURN
    } else {
        let m = -a % FULL_TURN;
        proof {
            vstd::arithmetic::div_mod::lemma_fundamental_div_mod(-a as int, FULL_TURN as int);
            let q = (-a as int) / (FULL_TURN as int);
            if m == 0 {
                vstd::arithmetic::div_mod::lemma_fundamental_div_mod_converse(
                    a as int, FULL_TURN as int, -q, 0);
            } else {
                vstd::arithmetic::div_mod::lemma_fundamental_div_mod_converse(
                    a as int, FULL_TURN as int, -q - 1, FULL_TURN - m);
            }
        }
        if m == 0 {
            0
        } else {
            FULL_TURN - m
        }
    }
}

fn half_sin(x: i64) -> (r: i64)
    requires
        0 <= x <= HALF_TURN,
    ensures
        r == spec_half_sin(x as int),
        0 <= r <= FP_ONE,
{
    proof {
        lemma_half_sin_bounds(x as int);
        assert(0 <= x * (HALF_TURN - x) <= 603979776) by (nonlinear_arith)
            requires 0 <= x <= 49152, HALF_TURN == 49152i64;
    }
    let n = x * (HALF_TURN - x);
    let num = 4 * n * FP_ONE;
    let den = SIN_DENOM - n;
    num / den
}

/// Sine of a binary angle, scaled by `FP_ONE`.
pub fn sin_fp(a: i64) -> (r: i64)
    requires
        -ANGLE_LIMIT <= a <= ANGLE_LIMIT,
    ensures
        r == spec_sin(a as int),
        -FP_ONE <= r <= FP_ONE,
{
    let x = normalize_angle(a);
    if x < HALF_TURN {
        half_sin(x)
    } else {
        -half_sin(x - HALF_TURN)
    }
}

/// Cosine of a binary angle, scaled by `FP_ONE`.
pub fn cos_fp(a: i64) -> (r: i64)
    requires
        -ANGLE_LIMIT <= a <= ANGLE_LIMIT,
    ensures
        r == spec_cos(a as int),
        -FP_ONE <= r <= FP_ONE,
{
    let x = normalize_angle(a + QUARTER_TURN);
    if x < HALF_TURN {
        half_sin(x)
    } else {
        -half_sin(x - HALF_TURN)
    }
}

} // verus!
