//! Fixed-point arithmetic for world-space geometry.
//!
//! World coordinates, distances and trigonometric values are carried as
//! `i64` values scaled by `FP_ONE`: the value `v` stands for the real
//! number `v / FP_ONE`. One maze cell is `FP_ONE` units wide.

use vstd::prelude::*;

verus! {

/// The fixed-point scale: this value stands for the real number 1.
pub const FP_ONE: i64 = 65536;

/// Sentinel for an unreachable grid boundary (a ray running parallel to an
/// axis never crosses the lines of that axis). Far larger than any distance
/// a bounded cast can accumulate.
pub const FP_INF: i64 = 0x80_0000_0000_0000;

/// Fractional part of a fixed-point coordinate, as the offset within its
/// cell. Negative coordinates (a hit just outside the grid) clamp to 0,
/// matching the saturating texel addressing of the renderer.
pub open spec fn spec_frac(v: int) -> int {
    if v >= 0 {
        v % (FP_ONE as int)
    } else {
        0
    }
}

/// Offset of a fixed-point coordinate within its maze cell.
pub fn fp_frac(v: i64) -> (r: i64)
    ensures
        r == spec_frac(v as int),
        0 <= r < FP_ONE,
{
    if v >= 0 {
        v % FP_ONE
    } else {
        0
    }
}

/// Cell index of a non-negative fixed-point coordinate.
pub fn fp_floor(v: i64) -> (r: i64)
    requires
        v >= 0,
    ensures
        r == v as int / FP_ONE as int,
        0 <= r <= v,
{
    v / FP_ONE
}

/// Signed fixed-point product a * b / FP_ONE, truncating toward zero.
pub open spec fn spec_fp_mul(a: int, b: int) -> int {
    let p = a * b;
    if p >= 0 {
        p / (FP_ONE as int)
    } else {
        -((-p) / (FP_ONE as int))
    }
}

/// Fixed-point multiply: scales the double-width product back down,
/// truncating toward zero.
pub fn fp_mul(a: i64, b: i64) -> (r: i64)
    requires
        -0x8000_0000 <= a <= 0x8000_0000,
        -0x8000_0000 <= b <= 0x8000_0000,
    ensures
        r == spec_fp_mul(a as int, b as int),
        -0x4000_0000_0000 <= r <= 0x4000_0000_0000,
{
    proof {
        assert(-0x4000_0000_0000_0000 <= a * b <= 0x4000_0000_0000_0000) by (nonlinear_arith)
            requires -0x8000_0000 <= a <= 0x8000_0000, -0x8000_0000 <= b <= 0x8000_0000;
        if a * b >= 0 {
            vstd::arithmetic::div_mod::lemma_div_pos_is_pos(a * b, FP_ONE as int);
            vstd::arithmetic::div_mod::lemma_multiply_divide_le(
                a * b, FP_ONE as int, 0x4000_0000_0000);
        } else {
            vstd::arithmetic::div_mod::lemma_div_pos_is_pos(-(a * b), FP_ONE as int);
            vstd::arithmetic::div_mod::lemma_multiply_divide_le(
                -(a * b), FP_ONE as int, 0x4000_0000_0000);
        }
    }
    let p = a * b;
    if p >= 0 {
        p / FP_ONE
    } else {
        -(-p / FP_ONE)
    }
}

/// The integer square root, defined by counting up.
pub open spec fn spec_isqrt(v: int) -> int
    decreases v,
{
    if v <= 0 {
        0
    } else {
        let p = spec_isqrt(v - 1);
        if (p + 1) * (p + 1) <= v {
            p + 1
        } else {
            p
        }
    }
}

/// The integer square root is the greatest integer whose square does not
/// exceed the argument.
pub proof fn lemma_isqrt_bounds(v: int)
    requires
        v >= 0,
    ensures
        spec_isqrt(v) >= 0,
        spec_isqrt(v) * spec_isqrt(v) <= v,
        v < (spec_isqrt(v) + 1) * (spec_isqrt(v) + 1),
    decreases v,
{
    if v == 0 {
    } else {
        lemma_isqrt_bounds(v - 1);
        let p = spec_isqrt(v - 1);
        if (p + 1) * (p + 1) <= v {
            assert(v < (p + 2) * (p + 2)) by (nonlinear_arith)
                requires v - 1 < (p + 1) * (p + 1), p >= 0;
        }
    }
}

/// Integer square root: the greatest `r` with `r * r <= v`.
pub fn isqrt(v: i64) -> (r: i64)
    requires
        0 <= v < 0x4000_0000_0000_0000,
    ensures
        r * r <= v < (r + 1) * (r + 1),
        r >= 0,
        r == spec_isqrt(v as int),
{
    proof {
        lemma_isqrt_bounds(v as int);
    }
    let mut lo: i64 = 0;
    let mut hi: i64 = 0x8000_0000;
    while lo + 1 < hi
        invariant
            0 <= lo < hi <= 0x8000_0000,
            lo * lo <= v,
            v < hi * hi,
        decreases hi - lo,
    {
        let mid: i64 = lo + (hi - lo) / 2;
        proof {
            assert(mid * mid <= 0x8000_0000i64 * 0x8000_0000i64) by (nonlinear_arith)
                requires 0 <= mid <= 0x8000_0000i64;
        }
        if mid * mid <= v {
            lo = mid;
        } else {
            hi = mid;
        }
    }
    proof {
        let s = spec_isqrt(v as int);
        assert(lo == s) by (nonlinear_arith)
            requires lo * lo <= v, v < (lo + 1) * (lo + 1), s * s <= v,
                v < (s + 1) * (s + 1), lo >= 0, s >= 0;
    }
    lo
}

} // verus!
