use vstd::prelude::*;

verus! {

/// A scalar quantity in fixed-point form: the raw `i64` counts units of
/// `1/SCALE`, so the raw value `65536` stands for `1.0`.
pub type Scalar = i64;

/// An angle in radians, held in the same fixed-point form as `Scalar`.
pub type Angle = i64;

/// Raw units per whole unit: every scalar is a count of 1/65536ths.
pub const SCALE: i64 = 65536;

/// The largest raw magnitude the arithmetic keeps. Every operation
/// saturates here instead of wrapping, so all derived scalars stay
/// well inside the `i64` range.
pub const LIMIT: i64 = 0x4000_0000_0000;

/// The angle pi in fixed-point radians.
pub const PI: i64 = 205888;

/// Magnitude of an integer.
pub open spec fn iabs(v: int) -> int {
    if v >= 0 {
        v
    } else {
        -v
    }
}

/// A raw value the saturating arithmetic can produce.
pub open spec fn in_range(v: int) -> bool {
    -(LIMIT as int) <= v <= LIMIT as int
}

/// Saturation of a mathematical result into the kept range.
pub open spec fn clip_s(v: int) -> int {
    if v > LIMIT as int {
        LIMIT as int
    } else if v < -(LIMIT as int) {
        -(LIMIT as int)
    } else {
        v
    }
}

/// Division rounding toward zero, for a positive divisor.
pub open spec fn tdiv_s(a: int, d: int) -> int {
    if a >= 0 {
        a / d
    } else {
        -((-a) / d)
    }
}

/// Division rounding toward zero with either sign of divisor.
pub open spec fn sdiv_s(a: int, b: int) -> int {
    if (a >= 0) == (b >= 0) {
        iabs(a) / iabs(b)
    } else {
        -(iabs(a) / iabs(b))
    }
}

/// Saturating fixed-point addition.
pub open spec fn fadd_s(a: int, b: int) -> int {
    clip_s(a + b)
}

/// Saturating fixed-point subtraction.
pub open spec fn fsub_s(a: int, b: int) -> int {
    clip_s(a - b)
}

/// Saturating fixed-point multiplication: the raw product is rescaled
/// by `SCALE`, rounding toward zero.
pub open spec fn fmul_s(a: int, b: int) -> int {
    clip_s(tdiv_s(a * b, SCALE as int))
}

/// Saturating fixed-point division; a zero divisor yields zero.
pub open spec fn fdiv_s(a: int, b: int) -> int {
    if b == 0 {
        0
    } else {
        clip_s(sdiv_s(a * SCALE, b))
    }
}

/// Saturate an extended intermediate back into a scalar.
pub fn clip128(v: i128) -> (r: Scalar)
    ensures
        r as int == clip_s(v as int),
{
    if v > LIMIT as i128 {
        LIMIT
    } else if v < -(LIMIT as i128) {
        -LIMIT
    } else {
        v as i64
    }
}

/// Saturating addition of two scalars.
pub fn fadd(a: Scalar, b: Scalar) -> (r: Scalar)
    ensures
        r as int == fadd_s(a as int, b as int),
{
    clip128(a as i128 + b as i128)
}

/// Saturating subtraction of two scalars.
pub fn fsub(a: Scalar, b: Scalar) -> (r: Scalar)
    ensures
        r as int == fsub_s(a as int, b as int),
{
    clip128(a as i128 - b as i128)
}

/// Magnitude of a raw value, widened so that `i64::MIN` is representable.
fn mag128(a: i64) -> (r: u128)
    ensures
        r as int == iabs(a as int),
        r <= 0x8000_0000_0000_0000u128,
{
    if a >= 0 {
        a as u128
    } else {
        (-(a as i128)) as u128
    }
}

/// Saturating fixed-point multiplication.
pub fn fmul(a: Scalar, b: Scalar) -> (r: Scalar)
    ensures
        r as int == fmul_s(a as int, b as int),
{
    let neg: bool = (a < 0) != (b < 0);
    let ma = mag128(a);
    let mb = mag128(b);
    assert(ma * mb <= 0x4000_0000_0000_0000_0000_0000_0000_0000u128) by (nonlinear_arith)
        requires
            ma <= 0x8000_0000_0000_0000u128,
            mb <= 0x8000_0000_0000_0000u128,
    ;
    let p: u128 = ma * mb;
    let q: u128 = p / (SCALE as u128);
    assert(q as int == iabs(a as int * b as int) / (SCALE as int)) by {
        assert(iabs(a as int) * iabs(b as int) == iabs(a as int * b as int)) by (nonlinear_arith);
    }
    let qi: i128 = if neg {
        -(q as i128)
    } else {
        q as i128
    };
    assert(qi as int == tdiv_s(a as int * b as int, SCALE as int)) by {
        let ab = a as int * b as int;
        if neg {
            assert(ab <= 0) by (nonlinear_arith)
                requires
                    (a < 0) != (b < 0),
                    ab == a as int * b as int,
            ;
            assert(iabs(ab) == -ab);
        } else {
            assert(ab >= 0) by (nonlinear_arith)
                requires
                    (a < 0) == (b < 0),
                    ab == a as int * b as int,
            ;
            assert(iabs(ab) == ab);
        }
    }
    clip128(qi)
}

/// Saturating fixed-point division; dividing by zero yields zero.
pub fn fdiv(a: Scalar, b: Scalar) -> (r: Scalar)
    ensures
        r as int == fdiv_s(a as int, b as int),
{
    if b == 0 {
        0
    } else {
        let neg: bool = (a < 0) != (b < 0);
        let p: u128 = mag128(a) * (SCALE as u128);
        let q: u128 = p / mag128(b);
        assert(q as int == iabs(a as int * SCALE) / iabs(b as int)) by {
            assert(iabs(a as int) * (SCALE as int) == iabs(a as int * SCALE)) by (nonlinear_arith);
        }
        assert(q <= iabs(a as int * SCALE)) by {
            vstd::arithmetic::div_mod::lemma_div_is_ordered_by_denominator(
                iabs(a as int * SCALE),
                1,
                iabs(b as int),
            );
        }
        let qi: i128 = if neg {
            -(q as i128)
        } else {
            q as i128
        };
        assert(qi as int == sdiv_s(a as int * SCALE, b as int)) by {
            assert(a as int * SCALE >= 0 <==> a as int >= 0) by (nonlinear_arith);
        }
        clip128(qi)
    }
}

/// Magnitude of a scalar, saturated.
pub fn fabs(a: Scalar) -> (r: Scalar)
    ensures
        r as int == clip_s(iabs(a as int)),
{
    if a >= 0 {
        clip128(a as i128)
    } else {
        clip128(-(a as i128))
    }
}

/// `r` is the integer square root of `v`.
pub open spec fn is_sqrt(v: int, r: int) -> bool {
    0 <= r && r * r <= v && v < (r + 1) * (r + 1)
}

/// The integer square root (meaningful for `v >= 0`).
pub open spec fn sqrt_s(v: int) -> int {
    choose|r: int| is_sqrt(v, r)
}

/// The scalar square root of a clipped value is nonnegative and
/// clipped.
pub proof fn lemma_fsqrt_s_range(a: int)
    requires
        a <= LIMIT as int,
    ensures
        0 <= fsqrt_s(a) <= LIMIT as int,
{
    if a > 0 {
        lemma_sqrt_exists(a * SCALE);
        let r = sqrt_s(a * SCALE);
        assert(r <= LIMIT as int) by (nonlinear_arith)
            requires
                0 <= r,
                r * r <= a * SCALE,
                a <= 0x4000_0000_0000,
                SCALE == 65536,
        ;
    }
}

/// The square root of a scalar; nonpositive inputs yield zero.
pub open spec fn fsqrt_s(a: int) -> int {
    if a <= 0 {
        0
    } else {
        sqrt_s(a * SCALE)
    }
}

/// Every nonnegative integer has an integer square root, so `sqrt_s`
/// denotes it.
pub proof fn lemma_sqrt_exists(v: int)
    requires
        v >= 0,
    ensures
        is_sqrt(v, sqrt_s(v)),
    decreases v,
{
    if v == 0 {
        assert(is_sqrt(0, 0));
    } else {
        lemma_sqrt_exists(v - 1);
        let r = sqrt_s(v - 1);
        if (r + 1) * (r + 1) <= v {
            assert((r + 2) * (r + 2) > v) by (nonlinear_arith)
                requires
                    r >= 0,
                    v - 1 < (r + 1) * (r + 1),
            ;
            assert(is_sqrt(v, r + 1));
        } else {
            assert(is_sqrt(v, r));
        }
    }
}

/// The integer square root is unique.
pub proof fn lemma_sqrt_unique(v: int, r1: int, r2: int)
    requires
        is_sqrt(v, r1),
        is_sqrt(v, r2),
    ensures
        r1 == r2,
{
    assert(r1 == r2) by (nonlinear_arith)
        requires
            0 <= r1 && r1 * r1 <= v && v < (r1 + 1) * (r1 + 1),
            0 <= r2 && r2 * r2 <= v && v < (r2 + 1) * (r2 + 1),
    ;
}

/// Integer square root by bisection.
fn isqrt_u128(v: u128) -> (r: u128)
    requires
        v < 0x1_0000_0000_0000_0000_0000_0000_0000_0000 - 1,
    ensures
        is_sqrt(v as int, r as int),
{
    let mut lo: u128 = 0;
    let mut hi: u128 = 0x1_0000_0000_0000_0000;
    assert((hi as int) * (hi as int) > v as int) by (nonlinear_arith)
        requires
            hi == 0x1_0000_0000_0000_0000u128,
            v < 0x1_0000_0000_0000_0000_0000_0000_0000_0000 - 1,
    ;
    while lo + 1 < hi
        invariant
            0 <= lo < hi,
            hi <= 0x1_0000_0000_0000_0000,
            (lo as int) * (lo as int) <= v as int,
            (hi as int) * (hi as int) > v as int,
        decreases hi - lo,
    {
        let mid: u128 = lo + (hi - lo) / 2;
        assert(mid * mid <= 0xffff_ffff_ffff_ffff_0000_0000_0000_0001u128) by (nonlinear_arith)
            requires
                mid < 0x1_0000_0000_0000_0000u128,
        ;
        if mid * mid <= v {
            lo = mid;
        } else {
            hi = mid;
        }
    }
    lo
}

/// The square root of a scalar: `fsqrt(a) * fsqrt(a)` is the greatest
/// perfect square at or below `a` (in scalar units). Negative inputs
/// yield zero.
pub fn fsqrt(a: Scalar) -> (r: Scalar)
    ensures
        r as int == fsqrt_s(a as int),
        r >= 0,
        a > 0 ==> is_sqrt(a as int * SCALE, r as int),
        in_range(r as int),
{
    if a <= 0 {
        0
    } else {
        let au: u128 = a as u128;
        assert(au * (SCALE as u128) <= 0x8000_0000_0000_0000_0000u128) by (nonlinear_arith)
            requires
                au <= 0x8000_0000_0000_0000u128,
        ;
        let v: u128 = au * (SCALE as u128);
        let r = isqrt_u128(v);
        assert(r <= 0x100_0000_0000u128) by (nonlinear_arith)
            requires
                (r as int) * (r as int) <= v as int,
                v as int <= 0x8000_0000_0000_0000_0000,
        ;
        proof {
            lemma_sqrt_exists(v as int);
            lemma_sqrt_unique(v as int, r as int, sqrt_s(v as int));
        }
        r as i64
    }
}

} // verus!
