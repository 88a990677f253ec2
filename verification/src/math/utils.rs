use vstd::prelude::*;

use crate::math::scalar::{Scalar, SCALE, LIMIT, iabs, clip_s, fadd_s, fsub_s, fmul_s, fdiv_s, fadd, fsub, fmul, fdiv, fabs};
use crate::geometry::point::Point;
use crate::geometry::vector::Vector;
use crate::odometry::pose::Pose;

verus! {

/// The number e in fixed-point form.
pub const E_FP: i64 = 178145;

/// The reciprocal of e in fixed-point form.
pub const INV_E_FP: i64 = 24109;

/// Exponent arguments saturate at this magnitude (sixteen whole units).
pub const EXP_CAP: i64 = 1048576;

/// e raised to a whole power, by repeated scalar multiplication.
pub open spec fn epow_s(n: nat) -> int
    decreases n,
{
    if n == 0 {
        SCALE as int
    } else {
        fmul_s(epow_s((n - 1) as nat), E_FP as int)
    }
}

/// e raised to a negative whole power.
pub open spec fn inv_epow_s(n: nat) -> int
    decreases n,
{
    if n == 0 {
        SCALE as int
    } else {
        fmul_s(inv_epow_s((n - 1) as nat), INV_E_FP as int)
    }
}

/// The exponential polynomial on a fractional argument in `[0, 1)`.
pub open spec fn exp_taylor_s(f: int) -> int {
    let s = SCALE as int;
    let u2 = (f * f) / s / 2;
    let u3 = (u2 * f) / s / 3;
    let u4 = (u3 * f) / s / 4;
    let u5 = (u4 * f) / s / 5;
    let u6 = (u5 * f) / s / 6;
    let u7 = (u6 * f) / s / 7;
    s + f + u2 + u3 + u4 + u5 + u6 + u7
}

/// The exponential of a scalar; arguments beyond the cap saturate.
pub open spec fn exp_s(a: int) -> int {
    let s = SCALE as int;
    let c = if a > EXP_CAP {
        EXP_CAP as int
    } else if a < -(EXP_CAP as int) {
        -(EXP_CAP as int)
    } else {
        a
    };
    let n = c / s;
    let f = c - n * s;
    if n >= 0 {
        fmul_s(epow_s(n as nat), exp_taylor_s(f))
    } else {
        fmul_s(inv_epow_s((-n) as nat), exp_taylor_s(f))
    }
}

/// The logistic function of a scalar.
pub open spec fn sigmoid_s(x: int) -> int {
    fdiv_s(exp_s(x), fadd_s(SCALE as int, exp_s(x)))
}

/// A scalar product of nonnegative scalars is nonnegative and clipped.
pub proof fn lemma_fmul_s_nonneg(a: int, b: int)
    requires
        a >= 0,
        b >= 0,
    ensures
        0 <= fmul_s(a, b) <= LIMIT as int,
{
    assert(a * b >= 0) by (nonlinear_arith)
        requires
            a >= 0,
            b >= 0,
    ;
    assert((a * b) / (SCALE as int) >= 0) by (nonlinear_arith)
        requires
            a * b >= 0,
    ;
}

/// Whole powers of e stay nonnegative and clipped.
pub proof fn lemma_epow_nonneg(n: nat)
    ensures
        0 <= epow_s(n) <= LIMIT as int,
        0 <= inv_epow_s(n) <= LIMIT as int,
    decreases n,
{
    if n > 0 {
        lemma_epow_nonneg((n - 1) as nat);
        lemma_fmul_s_nonneg(epow_s((n - 1) as nat), E_FP as int);
        lemma_fmul_s_nonneg(inv_epow_s((n - 1) as nat), INV_E_FP as int);
    }
}

/// The exponential polynomial is nonnegative below one whole unit.
pub proof fn lemma_exp_taylor_range(f: int)
    requires
        0 <= f < SCALE,
    ensures
        0 <= exp_taylor_s(f) <= 8 * SCALE as int,
{
    let s = SCALE as int;
    let u2 = (f * f) / s / 2;
    let u3 = (u2 * f) / s / 3;
    let u4 = (u3 * f) / s / 4;
    let u5 = (u4 * f) / s / 5;
    let u6 = (u5 * f) / s / 6;
    let u7 = (u6 * f) / s / 7;
    assert(0 <= u2 <= s) by (nonlinear_arith)
        requires
            0 <= f < s,
            u2 == (f * f) / s / 2,
            s == 65536,
    ;
    assert(0 <= u3 <= u2) by (nonlinear_arith)
        requires
            0 <= f < s,
            0 <= u2,
            u3 == (u2 * f) / s / 3,
            s == 65536,
    ;
    assert(0 <= u4 <= u3) by (nonlinear_arith)
        requires
            0 <= f < s,
            0 <= u3,
            u4 == (u3 * f) / s / 4,
            s == 65536,
    ;
    assert(0 <= u5 <= u4) by (nonlinear_arith)
        requires
            0 <= f < s,
            0 <= u4,
            u5 == (u4 * f) / s / 5,
            s == 65536,
    ;
    assert(0 <= u6 <= u5) by (nonlinear_arith)
        requires
            0 <= f < s,
            0 <= u5,
            u6 == (u5 * f) / s / 6,
            s == 65536,
    ;
    assert(0 <= u7 <= u6) by (nonlinear_arith)
        requires
            0 <= f < s,
            0 <= u6,
            u7 == (u6 * f) / s / 7,
            s == 65536,
    ;
}

/// The exponential is nonnegative and clipped for every argument.
pub proof fn lemma_exp_s_nonneg(a: int)
    ensures
        0 <= exp_s(a) <= LIMIT as int,
{
    let s = SCALE as int;
    let c = if a > EXP_CAP {
        EXP_CAP as int
    } else if a < -(EXP_CAP as int) {
        -(EXP_CAP as int)
    } else {
        a
    };
    let n = c / s;
    let f = c - n * s;
    vstd::arithmetic::div_mod::lemma_fundamental_div_mod(c, s);
    vstd::arithmetic::div_mod::lemma_mod_bound(c, s);
    assert(0 <= f < s);
    lemma_exp_taylor_range(f);
    if n >= 0 {
        lemma_epow_nonneg(n as nat);
        lemma_fmul_s_nonneg(epow_s(n as nat), exp_taylor_s(f));
    } else {
        lemma_epow_nonneg((-n) as nat);
        lemma_fmul_s_nonneg(inv_epow_s((-n) as nat), exp_taylor_s(f));
    }
}

/// Division of one whole unit by the scale, floored toward minus
/// infinity, for capped arguments.
fn floor_div_scale(c: i64) -> (n: i64)
    requires
        -EXP_CAP <= c <= EXP_CAP,
    ensures
        n as int == c as int / (SCALE as int),
        -16 <= n <= 16,
{
    proof {
        vstd::arithmetic::div_mod::lemma_div_is_ordered(-(EXP_CAP as int), c as int, SCALE as int);
        vstd::arithmetic::div_mod::lemma_div_is_ordered(c as int, EXP_CAP as int, SCALE as int);
    }
    if c >= 0 {
        c / SCALE
    } else {
        let m = (-c) / SCALE;
        proof {
            vstd::arithmetic::div_mod::lemma_fundamental_div_mod(-(c as int), SCALE as int);
            let rm = -(c as int) % (SCALE as int);
            if rm == 0 {
                assert(c as int == (-(m as int)) * (SCALE as int) + 0) by (nonlinear_arith)
                    requires
                        -(c as int) == m as int * (SCALE as int) + rm,
                        rm == 0,
                ;
                vstd::arithmetic::div_mod::lemma_fundamental_div_mod_converse(
                    c as int,
                    SCALE as int,
                    -(m as int),
                    0,
                );
            } else {
                assert(c as int == (-(m as int) - 1) * (SCALE as int) + (SCALE as int - rm)) by (nonlinear_arith)
                    requires
                        -(c as int) == m as int * (SCALE as int) + rm,
                ;
                vstd::arithmetic::div_mod::lemma_fundamental_div_mod_converse(
                    c as int,
                    SCALE as int,
                    -(m as int) - 1,
                    SCALE as int - rm,
                );
            }
        }
        if m * SCALE == -c {
            -m
        } else {
            -m - 1
        }
    }
}

/// The exponential polynomial, evaluated on `[0, 1)`.
fn exp_taylor(f: Scalar) -> (r: Scalar)
    requires
        0 <= f < SCALE,
    ensures
        r as int == exp_taylor_s(f as int),
        0 <= r <= 8 * SCALE,
{
    proof {
        lemma_exp_taylor_range(f as int);
    }
    let u2: i64 = (f * f) / SCALE / 2;
    assert(0 <= u2 <= SCALE) by (nonlinear_arith)
        requires
            0 <= f < SCALE,
            u2 == (f as int * f as int) / (SCALE as int) / 2,
            SCALE == 65536,
    ;
    let u3: i64 = (u2 * f) / SCALE / 3;
    assert(0 <= u3 <= u2) by (nonlinear_arith)
        requires
            0 <= f < SCALE,
            0 <= u2 <= SCALE,
            u3 == (u2 as int * f as int) / (SCALE as int) / 3,
            SCALE == 65536,
    ;
    let u4: i64 = (u3 * f) / SCALE / 4;
    assert(0 <= u4 <= u3) by (nonlinear_arith)
        requires
            0 <= f < SCALE,
            0 <= u3 <= SCALE,
            u4 == (u3 as int * f as int) / (SCALE as int) / 4,
            SCALE == 65536,
    ;
    let u5: i64 = (u4 * f) / SCALE / 5;
    assert(0 <= u5 <= u4) by (nonlinear_arith)
        requires
            0 <= f < SCALE,
            0 <= u4 <= SCALE,
            u5 == (u4 as int * f as int) / (SCALE as int) / 5,
            SCALE == 65536,
    ;
    let u6: i64 = (u5 * f) / SCALE / 6;
    assert(0 <= u6 <= u5) by (nonlinear_arith)
        requires
            0 <= f < SCALE,
            0 <= u5 <= SCALE,
            u6 == (u5 as int * f as int) / (SCALE as int) / 6,
            SCALE == 65536,
    ;
    let u7: i64 = (u6 * f) / SCALE / 7;
    assert(0 <= u7 <= u6) by (nonlinear_arith)
        requires
            0 <= f < SCALE,
            0 <= u6 <= SCALE,
            u7 == (u6 as int * f as int) / (SCALE as int) / 7,
            SCALE == 65536,
    ;
    SCALE + f + u2 + u3 + u4 + u5 + u6 + u7
}

/// The exponential of a scalar. Results are always nonnegative, one
/// whole unit at zero, and saturate for arguments beyond the cap.
pub fn exp_fp(a: Scalar) -> (r: Scalar)
    ensures
        r as int == exp_s(a as int),
        0 <= r <= LIMIT,
{
    let c: i64 = if a > EXP_CAP {
        EXP_CAP
    } else if a < -EXP_CAP {
        -EXP_CAP
    } else {
        a
    };
    let n = floor_div_scale(c);
    proof {
        vstd::arithmetic::div_mod::lemma_fundamental_div_mod(c as int, SCALE as int);
    }
    let f: i64 = c - n * SCALE;
    let frac = exp_taylor(f);
    if n >= 0 {
        let mut acc: i64 = SCALE;
        let mut i: i64 = 0;
        while i < n
            invariant
                0 <= i <= n <= 16,
                acc as int == epow_s(i as nat),
                0 <= acc <= LIMIT,
            decreases n - i,
        {
            proof {
                lemma_fmul_s_nonneg(acc as int, E_FP as int);
            }
            acc = fmul(acc, E_FP);
            i = i + 1;
        }
        proof {
            lemma_fmul_s_nonneg(acc as int, frac as int);
        }
        fmul(acc, frac)
    } else {
        let mut acc: i64 = SCALE;
        let mut i: i64 = 0;
        while i < -n
            invariant
                -16 <= n < 0,
                0 <= i <= -n,
                acc as int == inv_epow_s(i as nat),
                0 <= acc <= LIMIT,
            decreases -n - i,
        {
            proof {
                lemma_fmul_s_nonneg(acc as int, INV_E_FP as int);
            }
            acc = fmul(acc, INV_E_FP);
            i = i + 1;
        }
        proof {
            lemma_fmul_s_nonneg(acc as int, frac as int);
        }
        fmul(acc, frac)
    }
}

/// The logistic function of a scalar: always within `[0, 1]`, and
/// one half at zero.
pub fn sigmoid(x: Scalar) -> (r: Scalar)
    ensures
        r as int == sigmoid_s(x as int),
        0 <= r <= SCALE,
{
    let e = exp_fp(x);
    let d = fadd(SCALE, e);
    let r = fdiv(e, d);
    assert(0 <= r <= SCALE) by (nonlinear_arith)
        requires
            0 <= e as int <= LIMIT as int,
            d as int == clip_s(SCALE as int + e as int),
            r as int == fdiv_s(e as int, d as int),
            SCALE == 65536,
            LIMIT == 0x4000_0000_0000,
    ;
    r
}

/// The componentwise magnitudes of the difference of two vectors.
pub fn compute_vector_abs_diff(u: Vector, v: Vector) -> (r: (Scalar, Scalar))
    ensures
        r.0 as int == clip_s(iabs(fsub_s(u.x as int, v.x as int))),
        r.1 as int == clip_s(iabs(fsub_s(u.y as int, v.y as int))),
{
    (fabs(fsub(u.x, v.x)), fabs(fsub(u.y, v.y)))
}

/// The componentwise magnitudes of the difference of two points.
pub fn compute_point_abs_diff(u: Point, v: Point) -> (r: (Scalar, Scalar))
    ensures
        r.0 as int == clip_s(iabs(fsub_s(u.x as int, v.x as int))),
        r.1 as int == clip_s(iabs(fsub_s(u.y as int, v.y as int))),
{
    (fabs(fsub(u.x, v.x)), fabs(fsub(u.y, v.y)))
}

/// Whether two poses agree within a tolerance on every component.
pub fn pose_relative_eq(u: Pose, v: Pose, epsilon: Scalar) -> (r: bool)
    ensures
        r == (clip_s(iabs(fsub_s(u.position.x as int, v.position.x as int))) < epsilon
            && clip_s(iabs(fsub_s(u.position.y as int, v.position.y as int))) < epsilon
            && clip_s(iabs(fsub_s(u.heading as int, v.heading as int))) < epsilon),
{
    let (x, y) = compute_point_abs_diff(u.position, v.position);
    let theta = compute_abs_diff(u.heading, v.heading);
    x < epsilon && y < epsilon && theta < epsilon
}

/// The magnitude of the difference of two scalars.
pub fn compute_abs_diff(actual: Scalar, compared: Scalar) -> (r: Scalar)
    ensures
        r as int == clip_s(iabs(fsub_s(actual as int, compared as int))),
{
    fabs(fsub(actual, compared))
}

} // verus!
