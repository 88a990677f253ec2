use vstd::prelude::*;

use crate::math::scalar::{Angle, Scalar, SCALE, PI, iabs, fdiv_s, tdiv_s, fdiv};

verus! {

/// A full turn in fixed-point radians.
pub const TWO_PI: i64 = 411776;

/// A quarter turn in fixed-point radians.
pub const HALF_PI: i64 = 102944;

/// An eighth of a turn in fixed-point radians.
pub const QUARTER_PI: i64 = 51472;

/// An angle reduced to one turn: the Euclidean remainder by `TWO_PI`.
pub open spec fn reduce_s(a: int) -> int {
    a % (TWO_PI as int)
}

/// The sine polynomial on the first eighth of a turn.
pub open spec fn sin_taylor_s(x: int) -> int {
    let x2 = (x * x) / (SCALE as int);
    let x3 = (x2 * x) / (SCALE as int);
    let x5 = (x3 * x2) / (SCALE as int);
    let x7 = (x5 * x2) / (SCALE as int);
    x - x3 / 6 + x5 / 120 - x7 / 5040
}

/// The cosine polynomial on the first eighth of a turn.
pub open spec fn cos_taylor_s(y: int) -> int {
    let y2 = (y * y) / (SCALE as int);
    let y4 = (y2 * y2) / (SCALE as int);
    let y6 = (y4 * y2) / (SCALE as int);
    SCALE - y2 / 2 + y4 / 24 - y6 / 720
}

/// Sine on the first quarter turn, folded onto the polynomials.
pub open spec fn sin_quarter_s(r: int) -> int {
    if r > QUARTER_PI {
        cos_taylor_s(HALF_PI - r)
    } else {
        sin_taylor_s(r)
    }
}

/// Sine on the first half turn.
pub open spec fn sin_half_s(r: int) -> int {
    if r > HALF_PI {
        sin_quarter_s(PI - r)
    } else {
        sin_quarter_s(r)
    }
}

/// Sine of an angle.
pub open spec fn sin_s(a: int) -> int {
    let r = reduce_s(a);
    if r >= PI {
        -sin_half_s(r - (PI as int))
    } else {
        sin_half_s(r)
    }
}

/// Cosine of an angle, as the sine a quarter turn later.
pub open spec fn cos_s(a: int) -> int {
    sin_s(reduce_s(a) + HALF_PI)
}

/// The sine polynomial stays within one unit on its domain.
pub proof fn lemma_sin_taylor_range(x: int)
    requires
        0 <= x <= QUARTER_PI,
    ensures
        0 <= sin_taylor_s(x) <= SCALE as int,
{
    let s = SCALE as int;
    let x2 = (x * x) / s;
    let x3 = (x2 * x) / s;
    let x5 = (x3 * x2) / s;
    let x7 = (x5 * x2) / s;
    assert(0 <= x2 <= 40427) by (nonlinear_arith)
        requires
            0 <= x <= QUARTER_PI,
            x2 == (x * x) / s,
            s == 65536,
    ;
    assert(0 <= x3 <= x) by (nonlinear_arith)
        requires
            0 <= x,
            0 <= x2 <= 40427,
            x3 == (x2 * x) / s,
            s == 65536,
    ;
    assert(0 <= x5 <= x3) by (nonlinear_arith)
        requires
            0 <= x3,
            0 <= x2 <= 40427,
            x5 == (x3 * x2) / s,
            s == 65536,
    ;
    assert(0 <= x7 <= x5) by (nonlinear_arith)
        requires
            0 <= x5,
            0 <= x2 <= 40427,
            x7 == (x5 * x2) / s,
            s == 65536,
    ;
    assert(x3 / 6 <= x / 6 && x5 / 120 <= x / 120 && x7 / 5040 <= x / 5040) by (nonlinear_arith)
        requires
            0 <= x3 <= x,
            0 <= x5 <= x3,
            0 <= x7 <= x5,
    ;
    assert(x / 6 <= x && x / 120 >= 0 && x / 5040 <= x / 6) by (nonlinear_arith)
        requires
            0 <= x,
    ;
}

/// The cosine polynomial stays within one unit on its domain, and
/// keeps a positive floor there.
pub proof fn lemma_cos_taylor_range(y: int)
    requires
        0 <= y <= QUARTER_PI,
    ensures
        45000 <= cos_taylor_s(y) <= SCALE as int,
{
    let s = SCALE as int;
    let y2 = (y * y) / s;
    let y4 = (y2 * y2) / s;
    let y6 = (y4 * y2) / s;
    assert(0 <= y2 <= 40427) by (nonlinear_arith)
        requires
            0 <= y <= QUARTER_PI,
            y2 == (y * y) / s,
            s == 65536,
    ;
    assert(0 <= y4 <= y2) by (nonlinear_arith)
        requires
            0 <= y2 <= 40427,
            y4 == (y2 * y2) / s,
            s == 65536,
    ;
    assert(0 <= y6 <= y4) by (nonlinear_arith)
        requires
            0 <= y4,
            0 <= y2 <= 40427,
            y6 == (y4 * y2) / s,
            s == 65536,
    ;
    assert(y4 / 24 <= y2 / 2) by (nonlinear_arith)
        requires
            0 <= y4 <= y2,
    ;
    assert(y2 / 2 <= 20213 && y6 / 720 <= 56) by (nonlinear_arith)
        requires
            0 <= y2 <= 40427,
            0 <= y6 <= 40427,
    ;
}

/// The reduced angle lies within one turn.
pub proof fn lemma_reduce_range(a: int)
    ensures
        0 <= reduce_s(a) < TWO_PI,
{
    vstd::arithmetic::div_mod::lemma_mod_bound(a, TWO_PI as int);
}

/// The sine of any angle lies within one unit.
pub proof fn lemma_sin_s_range(a: int)
    ensures
        -(SCALE as int) <= sin_s(a) <= SCALE as int,
{
    lemma_reduce_range(a);
    let r = reduce_s(a);
    let rh = if r >= PI {
        r - PI as int
    } else {
        r
    };
    let rq = if rh > HALF_PI {
        PI as int - rh
    } else {
        rh
    };
    if rq > QUARTER_PI {
        lemma_cos_taylor_range(HALF_PI as int - rq);
    } else {
        lemma_sin_taylor_range(rq);
    }
}

/// The cosine of any angle lies within one unit.
pub proof fn lemma_cos_s_range(a: int)
    ensures
        -(SCALE as int) <= cos_s(a) <= SCALE as int,
{
    lemma_reduce_range(a);
    lemma_sin_s_range(reduce_s(a) + HALF_PI);
}

/// Reduce an angle to one turn.
pub fn reduce(a: Angle) -> (r: Angle)
    ensures
        r as int == reduce_s(a as int),
        0 <= r < TWO_PI,
{
    let t: u64 = TWO_PI as u64;
    if a >= 0 {
        let m: u64 = (a as u64) % t;
        m as i64
    } else {
        let n: u64 = (-(a as i128)) as u64;
        let m: u64 = n % t;
        proof {
            let ai = a as int;
            let ti = TWO_PI as int;
            vstd::arithmetic::div_mod::lemma_fundamental_div_mod(n as int, ti);
            let q = n as int / ti;
            if m == 0 {
                assert(ai == (-q) * ti) by (nonlinear_arith)
                    requires
                        ai == -(n as int),
                        n as int == ti * q + m as int,
                        m == 0,
                ;
                vstd::arithmetic::div_mod::lemma_mod_multiples_basic(-q, ti);
            } else {
                assert(ai == (-q - 1) * ti + (ti - m as int)) by (nonlinear_arith)
                    requires
                        ai == -(n as int),
                        n as int == ti * q + m as int,
                ;
                vstd::arithmetic::div_mod::lemma_fundamental_div_mod_converse(
                    ai,
                    ti,
                    -q - 1,
                    ti - m as int,
                );
            }
        }
        if m == 0 {
            0
        } else {
            (t - m) as i64
        }
    }
}

/// The sine polynomial, evaluated on the first eighth of a turn.
fn sin_taylor(x: Scalar) -> (r: Scalar)
    requires
        0 <= x <= QUARTER_PI,
    ensures
        r as int == sin_taylor_s(x as int),
        0 <= r <= SCALE,
{
    proof {
        lemma_sin_taylor_range(x as int);
    }
    assert(x as int * x as int <= 0x1_0000_0000_0000) by (nonlinear_arith)
        requires
            0 <= x <= QUARTER_PI,
    ;
    let x2: i64 = (x * x) / SCALE;
    assert(0 <= x2 <= 40427) by (nonlinear_arith)
        requires
            0 <= x <= QUARTER_PI,
            x2 == (x as int * x as int) / (SCALE as int),
            SCALE == 65536,
    ;
    assert(x2 as int * x as int <= 0x1_0000_0000_0000) by (nonlinear_arith)
        requires
            0 <= x2 <= 40427,
            0 <= x <= QUARTER_PI,
    ;
    let x3: i64 = (x2 * x) / SCALE;
    assert(0 <= x3 <= x) by (nonlinear_arith)
        requires
            0 <= x,
            0 <= x2 <= 40427,
            x3 == (x2 as int * x as int) / (SCALE as int),
            SCALE == 65536,
    ;
    assert(x3 as int * x2 as int <= 0x1_0000_0000_0000) by (nonlinear_arith)
        requires
            0 <= x3 <= QUARTER_PI,
            0 <= x2 <= 40427,
    ;
    let x5: i64 = (x3 * x2) / SCALE;
    assert(0 <= x5 <= x3) by (nonlinear_arith)
        requires
            0 <= x3 <= QUARTER_PI,
            0 <= x2 <= 40427,
            x5 == (x3 as int * x2 as int) / (SCALE as int),
            SCALE == 65536,
    ;
    assert(x5 as int * x2 as int <= 0x1_0000_0000_0000) by (nonlinear_arith)
        requires
            0 <= x5 <= QUARTER_PI,
            0 <= x2 <= 40427,
    ;
    let x7: i64 = (x5 * x2) / SCALE;
    assert(0 <= x7 <= x5) by (nonlinear_arith)
        requires
            0 <= x5 <= QUARTER_PI,
            0 <= x2 <= 40427,
            x7 == (x5 as int * x2 as int) / (SCALE as int),
            SCALE == 65536,
    ;
    x - x3 / 6 + x5 / 120 - x7 / 5040
}

/// The cosine polynomial, evaluated on the first eighth of a turn.
fn cos_taylor(y: Scalar) -> (r: Scalar)
    requires
        0 <= y <= QUARTER_PI,
    ensures
        r as int == cos_taylor_s(y as int),
        45000 <= r <= SCALE,
{
    proof {
        lemma_cos_taylor_range(y as int);
    }
    assert(y as int * y as int <= 0x1_0000_0000_0000) by (nonlinear_arith)
        requires
            0 <= y <= QUARTER_PI,
    ;
    let y2: i64 = (y * y) / SCALE;
    assert(0 <= y2 <= 40427) by (nonlinear_arith)
        requires
            0 <= y <= QUARTER_PI,
            y2 == (y as int * y as int) / (SCALE as int),
            SCALE == 65536,
    ;
    assert(y2 as int * y2 as int <= 0x1_0000_0000_0000) by (nonlinear_arith)
        requires
            0 <= y2 <= 40427,
    ;
    let y4: i64 = (y2 * y2) / SCALE;
    assert(0 <= y4 <= y2) by (nonlinear_arith)
        requires
            0 <= y2 <= 40427,
            y4 == (y2 as int * y2 as int) / (SCALE as int),
            SCALE == 65536,
    ;
    assert(y4 as int * y2 as int <= 0x1_0000_0000_0000) by (nonlinear_arith)
        requires
            0 <= y4 <= 40427,
            0 <= y2 <= 40427,
    ;
    let y6: i64 = (y4 * y2) / SCALE;
    assert(0 <= y6 <= y4) by (nonlinear_arith)
        requires
            0 <= y4 <= 40427,
            0 <= y2 <= 40427,
            y6 == (y4 as int * y2 as int) / (SCALE as int),
            SCALE == 65536,
    ;
    SCALE - y2 / 2 + y4 / 24 - y6 / 720
}

/// Sine on the first quarter turn.
fn sin_quarter(r: Scalar) -> (v: Scalar)
    requires
        0 <= r <= HALF_PI,
    ensures
        v as int == sin_quarter_s(r as int),
        0 <= v <= SCALE,
{
    if r > QUARTER_PI {
        cos_taylor(HALF_PI - r)
    } else {
        sin_taylor(r)
    }
}

/// Sine on the first half turn.
fn sin_half(r: Scalar) -> (v: Scalar)
    requires
        0 <= r <= PI,
    ensures
        v as int == sin_half_s(r as int),
        0 <= v <= SCALE,
{
    if r > HALF_PI {
        sin_quarter(PI - r)
    } else {
        sin_quarter(r)
    }
}

/// The sine of an angle.
pub fn sin_fp(a: Angle) -> (r: Scalar)
    ensures
        r as int == sin_s(a as int),
        -SCALE <= r <= SCALE,
{
    let red = reduce(a);
    if red >= PI {
        -sin_half(red - PI)
    } else {
        sin_half(red)
    }
}

/// The cosine of an angle.
pub fn cos_fp(a: Angle) -> (r: Scalar)
    ensures
        r as int == cos_s(a as int),
        -SCALE <= r <= SCALE,
{
    let red = reduce(a);
    sin_fp(red + HALF_PI)
}

/// Truncating division by a positive constant.
pub fn tdiv_c(a: i64, d: i64) -> (r: i64)
    requires
        d > 0,
        a != i64::MIN,
    ensures
        r as int == tdiv_s(a as int, d as int),
{
    if a >= 0 {
        a / d
    } else {
        -((-a) / d)
    }
}

/// The arctangent polynomial, for arguments well below one.
pub open spec fn atan_taylor_s(w: int) -> int {
    let w2 = tdiv_s(w * w, SCALE as int);
    let w3 = tdiv_s(w2 * w, SCALE as int);
    let w5 = tdiv_s(w3 * w2, SCALE as int);
    let w7 = tdiv_s(w5 * w2, SCALE as int);
    w - tdiv_s(w3, 3) + tdiv_s(w5, 5) - tdiv_s(w7, 7)
}

/// The arctangent of `p/q` for `0 <= p <= q`, folded onto the
/// polynomial around one eighth of a turn.
pub open spec fn atan_pos_s(p: int, q: int) -> int {
    let z = fdiv_s(p, q);
    if z > 27146 {
        QUARTER_PI + atan_taylor_s(fdiv_s(z - SCALE, z + SCALE))
    } else {
        atan_taylor_s(z)
    }
}

/// The angle of the point `(x, y)` from the positive first axis,
/// in `[-PI, PI]`.
pub open spec fn atan2_s(y: int, x: int) -> int {
    let ax = iabs(x);
    let ay = iabs(y);
    let t = if ax >= ay {
        atan_pos_s(ay, ax)
    } else {
        HALF_PI - atan_pos_s(ax, ay)
    };
    if x >= 0 && y >= 0 {
        t
    } else if x < 0 && y >= 0 {
        (PI as int) - t
    } else if x < 0 {
        -((PI as int) - t)
    } else {
        -t
    }
}

/// The arctangent polynomial keeps the sign of its argument and
/// grows at most a fifth beyond it.
pub proof fn lemma_atan_taylor_range(w: int)
    requires
        -27148 <= w <= 27147,
    ensures
        0 <= w ==> 0 <= atan_taylor_s(w) <= w + w / 5,
        w <= 0 ==> w + tdiv_s(w, 5) <= atan_taylor_s(w) <= 0,
{
    let s = SCALE as int;
    let w2 = tdiv_s(w * w, s);
    let w3 = tdiv_s(w2 * w, s);
    let w5 = tdiv_s(w3 * w2, s);
    let w7 = tdiv_s(w5 * w2, s);
    assert(0 <= w2 <= 11246) by (nonlinear_arith)
        requires
            -27148 <= w <= 27147,
            w2 == tdiv_s(w * w, s),
            s == 65536,
    ;
    if w >= 0 {
        assert(0 <= w3 <= w) by (nonlinear_arith)
            requires
                0 <= w,
                0 <= w2 <= 11246,
                w3 == tdiv_s(w2 * w, s),
                s == 65536,
        ;
        assert(0 <= w5 <= w3) by (nonlinear_arith)
            requires
                0 <= w3,
                0 <= w2 <= 11246,
                w5 == tdiv_s(w3 * w2, s),
                s == 65536,
        ;
        assert(0 <= w7 <= w5) by (nonlinear_arith)
            requires
                0 <= w5,
                0 <= w2 <= 11246,
                w7 == tdiv_s(w5 * w2, s),
                s == 65536,
        ;
        assert(tdiv_s(w3, 3) <= w / 3 && 0 <= tdiv_s(w5, 5) <= w / 5 && 0 <= tdiv_s(w7, 7) <= tdiv_s(w5, 5)) by (nonlinear_arith)
            requires
                0 <= w3 <= w,
                0 <= w5 <= w3,
                0 <= w7 <= w5,
        ;
        assert(w / 3 <= w) by (nonlinear_arith)
            requires
                0 <= w,
        ;
    } else {
        assert(w <= w3 <= 0) by (nonlinear_arith)
            requires
                w <= 0,
                0 <= w2 <= 11246,
                w3 == tdiv_s(w2 * w, s),
                s == 65536,
        ;
        assert(w3 <= w5 <= 0) by (nonlinear_arith)
            requires
                w3 <= 0,
                0 <= w2 <= 11246,
                w5 == tdiv_s(w3 * w2, s),
                s == 65536,
        ;
        assert(w5 <= w7 <= 0) by (nonlinear_arith)
            requires
                w5 <= 0,
                0 <= w2 <= 11246,
                w7 == tdiv_s(w5 * w2, s),
                s == 65536,
        ;
        assert(tdiv_s(w, 5) <= tdiv_s(w5, 5) <= 0 && tdiv_s(w, 3) <= tdiv_s(w3, 3) <= 0 && tdiv_s(w, 7) <= tdiv_s(w7, 7) <= 0) by (nonlinear_arith)
            requires
                w <= w3 <= 0,
                w <= w5 <= 0,
                w <= w7 <= 0,
        ;
        assert(-tdiv_s(w, 3) - tdiv_s(w, 7) <= -w) by (nonlinear_arith)
            requires
                w <= 0,
        ;
    }
}

/// The folded arctangent stays within the first eighth of a turn.
pub proof fn lemma_atan_pos_range(p: int, q: int)
    requires
        0 <= p <= q,
    ensures
        0 <= atan_pos_s(p, q) <= QUARTER_PI,
{
    let s = SCALE as int;
    let z = fdiv_s(p, q);
    if q == 0 {
        assert(z == 0);
        lemma_atan_taylor_range(0);
    } else {
        assert(0 <= z <= s) by (nonlinear_arith)
            requires
                0 <= p <= q,
                q > 0,
                z == fdiv_s(p, q),
                s == 65536,
        ;
        if z > 27146 {
            let w = fdiv_s(z - s, z + s);
            assert(-27148 <= w <= 0) by (nonlinear_arith)
                requires
                    27146 < z <= s,
                    w == fdiv_s(z - s, z + s),
                    s == 65536,
            ;
            lemma_atan_taylor_range(w);
            assert(w + tdiv_s(w, 5) >= -32578) by (nonlinear_arith)
                requires
                    -27148 <= w <= 0,
            ;
        } else {
            lemma_atan_taylor_range(z);
        }
    }
}

/// The arctangent polynomial, evaluated.
fn atan_taylor(w: Scalar) -> (r: Scalar)
    requires
        -27148 <= w <= 27147,
    ensures
        r as int == atan_taylor_s(w as int),
{
    let w2: i64 = tdiv_c(fmul_raw(w, w), SCALE);
    assert(0 <= w2 <= 11246) by (nonlinear_arith)
        requires
            -27148 <= w <= 27147,
            w2 as int == tdiv_s(w as int * w as int, SCALE as int),
            SCALE == 65536,
    ;
    let w3: i64 = tdiv_c(fmul_raw(w2, w), SCALE);
    assert(iabs(w3 as int) <= iabs(w as int)) by (nonlinear_arith)
        requires
            0 <= w2 <= 11246,
            -27148 <= w <= 27147,
            w3 as int == tdiv_s(w2 as int * w as int, SCALE as int),
            SCALE == 65536,
    ;
    let w5: i64 = tdiv_c(fmul_raw(w3, w2), SCALE);
    assert(iabs(w5 as int) <= iabs(w3 as int)) by (nonlinear_arith)
        requires
            0 <= w2 <= 11246,
            iabs(w3 as int) <= 27148,
            w5 as int == tdiv_s(w3 as int * w2 as int, SCALE as int),
            SCALE == 65536,
    ;
    let w7: i64 = tdiv_c(fmul_raw(w5, w2), SCALE);
    assert(iabs(w7 as int) <= iabs(w5 as int)) by (nonlinear_arith)
        requires
            0 <= w2 <= 11246,
            iabs(w5 as int) <= 27148,
            w7 as int == tdiv_s(w5 as int * w2 as int, SCALE as int),
            SCALE == 65536,
    ;
    w - tdiv_c(w3, 3) + tdiv_c(w5, 5) - tdiv_c(w7, 7)
}

/// A product of two small scalars, kept in raw form.
fn fmul_raw(a: i64, b: i64) -> (r: i64)
    requires
        iabs(a as int) <= 0x10_0000,
        iabs(b as int) <= 0x10_0000,
    ensures
        r as int == a as int * b as int,
        iabs(r as int) <= 0x100_0000_0000,
{
    assert(iabs(a as int * b as int) <= 0x100_0000_0000) by (nonlinear_arith)
        requires
            iabs(a as int) <= 0x10_0000,
            iabs(b as int) <= 0x10_0000,
    ;
    a * b
}

/// The arctangent of `p/q` for `0 <= p <= q`.
fn atan_pos(p: Scalar, q: Scalar) -> (r: Scalar)
    requires
        0 <= p <= q,
    ensures
        r as int == atan_pos_s(p as int, q as int),
        0 <= r <= QUARTER_PI,
{
    proof {
        lemma_atan_pos_range(p as int, q as int);
    }
    let z = fdiv(p, q);
    assert(0 <= z <= SCALE) by (nonlinear_arith)
        requires
            0 <= p <= q,
            z as int == fdiv_s(p as int, q as int),
            SCALE == 65536,
    ;
    if z > 27146 {
        let w = fdiv(z - SCALE, z + SCALE);
        assert(-27148 <= w <= 0) by (nonlinear_arith)
            requires
                27146 < z <= SCALE,
                w as int == fdiv_s(z as int - SCALE as int, z as int + SCALE as int),
                SCALE == 65536,
        ;
        QUARTER_PI + atan_taylor(w)
    } else {
        atan_taylor(z)
    }
}

/// The angle of the point `(x, y)` from the positive first axis.
/// A zero point yields zero.
pub fn atan2_fp(y: Scalar, x: Scalar) -> (r: Angle)
    requires
        x != i64::MIN,
        y != i64::MIN,
    ensures
        r as int == atan2_s(y as int, x as int),
        -PI <= r <= PI,
        y == 0 && x >= 0 ==> r == 0,
{
    let ax = if x >= 0 { x } else { -x };
    let ay = if y >= 0 { y } else { -y };
    let t = if ax >= ay {
        atan_pos(ay, ax)
    } else {
        HALF_PI - atan_pos(ax, ay)
    };
    if y == 0 && x >= 0 {
        assert(fdiv_s(0, x as int) == 0) by {
            if x != 0 {
                assert(iabs(0 * (SCALE as int)) == 0);
                assert(0int / iabs(x as int) == 0) by (nonlinear_arith)
                    requires
                        iabs(x as int) > 0,
                ;
            }
        }
        assert(atan_taylor_s(0) == 0);
    }
    if x >= 0 && y >= 0 {
        t
    } else if x < 0 && y >= 0 {
        PI - t
    } else if x < 0 {
        -(PI - t)
    } else {
        -t
    }
}

/// The angle of a point on the nonnegative first axis is zero.
pub proof fn lemma_atan2_zero(x: int)
    requires
        x >= 0,
    ensures
        atan2_s(0, x) == 0,
{
    if x != 0 {
        assert(iabs(0 * (SCALE as int)) == 0);
        assert(0int / iabs(x) == 0) by (nonlinear_arith)
            requires
                iabs(x) > 0,
        ;
    }
    assert(fdiv_s(0, x) == 0);
    assert(atan_taylor_s(0) == 0);
}

/// The angle of any point stays within half a turn either way.
pub proof fn lemma_atan2_s_range(y: int, x: int)
    ensures
        -(PI as int) <= atan2_s(y, x) <= PI as int,
{
    let ax = iabs(x);
    let ay = iabs(y);
    if ax >= ay {
        lemma_atan_pos_range(ay, ax);
    } else {
        lemma_atan_pos_range(ax, ay);
    }
}

/// On the upper half of the first eighth of a turn the sine
/// polynomial keeps a positive floor.
pub proof fn lemma_sin_taylor_floor(x: int)
    requires
        25737 <= x <= QUARTER_PI,
    ensures
        sin_taylor_s(x) >= 20000,
{
    let s = SCALE as int;
    let x2 = (x * x) / s;
    let x3 = (x2 * x) / s;
    let x5 = (x3 * x2) / s;
    let x7 = (x5 * x2) / s;
    assert(0 <= x2 <= 40427) by (nonlinear_arith)
        requires
            0 <= x <= QUARTER_PI,
            x2 == (x * x) / s,
            s == 65536,
    ;
    assert(0 <= x3 <= 31752) by (nonlinear_arith)
        requires
            0 <= x <= QUARTER_PI,
            0 <= x2 <= 40427,
            x3 == (x2 * x) / s,
            s == 65536,
    ;
    assert(0 <= x5 <= x3) by (nonlinear_arith)
        requires
            0 <= x3,
            0 <= x2 <= 40427,
            x5 == (x3 * x2) / s,
            s == 65536,
    ;
    assert(0 <= x7 <= x5) by (nonlinear_arith)
        requires
            0 <= x5,
            0 <= x2 <= 40427,
            x7 == (x5 * x2) / s,
            s == 65536,
    ;
    assert(x3 / 6 <= 5292 && x7 / 5040 <= 7 && x5 / 120 >= 0) by (nonlinear_arith)
        requires
            0 <= x3 <= 31752,
            0 <= x7 <= 31752,
            0 <= x5,
    ;
}

/// For every angle, the sine and the cosine cannot both be small:
/// the one whose fold lands near the axis keeps a positive floor.
pub proof fn lemma_sin_cos_not_both_small(a: int)
    ensures
        iabs(sin_s(a)) >= 20000 || iabs(cos_s(a)) >= 20000,
{
    lemma_reduce_range(a);
    let r = reduce_s(a);
    let r1 = if r >= PI {
        r - PI as int
    } else {
        r
    };
    let r2 = if r1 > HALF_PI {
        PI as int - r1
    } else {
        r1
    };
    assert(0 <= r1 <= PI);
    assert(0 <= r2 <= HALF_PI);
    if r2 > QUARTER_PI {
        lemma_cos_taylor_range(HALF_PI as int - r2);
        assert(iabs(sin_s(a)) >= 20000);
    } else if r2 >= 25737 {
        lemma_sin_taylor_floor(r2);
        assert(iabs(sin_s(a)) >= 20000);
    } else {
        // the sine fold lands within an eighth of the axis, so the
        // cosine fold lands within an eighth of the peak
        let rc0 = r + HALF_PI as int;
        vstd::arithmetic::div_mod::lemma_mod_bound(rc0, TWO_PI as int);
        let rc = reduce_s(rc0);
        assert(cos_s(a) == sin_s(rc0)) by {
            assert(reduce_s(reduce_s(a) + HALF_PI) == reduce_s(a + HALF_PI)) by {
                vstd::arithmetic::div_mod::lemma_mod_bound(a, TWO_PI as int);
                vstd::arithmetic::div_mod::lemma_fundamental_div_mod(a, TWO_PI as int);
                vstd::arithmetic::div_mod::lemma_mod_multiples_vanish(
                    a / (TWO_PI as int),
                    reduce_s(a) + HALF_PI,
                    TWO_PI as int,
                );
                assert((TWO_PI as int) * (a / (TWO_PI as int)) + (reduce_s(a) + HALF_PI) == a
                    + HALF_PI) by (nonlinear_arith)
                    requires
                        a == (TWO_PI as int) * (a / (TWO_PI as int)) + reduce_s(a),
                ;
            }
        }
        if rc0 < TWO_PI {
            vstd::arithmetic::div_mod::lemma_small_mod(rc0 as nat, TWO_PI as nat);
            assert(rc == rc0);
        } else {
            vstd::arithmetic::div_mod::lemma_mod_sub_multiples_vanish(rc0, TWO_PI as int);
            vstd::arithmetic::div_mod::lemma_small_mod((rc0 - TWO_PI) as nat, TWO_PI as nat);
            assert(rc == rc0 - TWO_PI);
        }
        let rc1 = if rc >= PI {
            rc - PI as int
        } else {
            rc
        };
        let rc2 = if rc1 > HALF_PI {
            PI as int - rc1
        } else {
            rc1
        };
        assert(rc2 > QUARTER_PI);
        lemma_cos_taylor_range(HALF_PI as int - rc2);
        assert(iabs(cos_s(a)) >= 20000);
    }
}

} // verus!
