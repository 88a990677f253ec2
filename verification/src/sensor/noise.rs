use vstd::prelude::*;

use crate::math::scalar::{Scalar, SCALE, iabs, in_range, fadd, fadd_s, fmul, fmul_s};

verus! {

/// Standard deviations for the simulated sensor and drive noise.
#[derive(Debug, Clone, Copy, PartialEq, Eq, Structural)]
pub struct Noise {
    pub std_dev_gain: Scalar,
    pub std_dev_laser: Scalar,
}

/// Relies on rand::Rng::gen_range over the range `0..n`: the result
/// is uniform in the range, and in particular below `n`.
#[verifier::external_body]
pub(crate) fn rand_below(n: u64) -> (r: u64)
    requires
        n >= 1,
    ensures
        r < n,
{
    rand::Rng::gen_range(&mut rand::thread_rng(), 0..n)
}

/// A draw from a Gaussian approximated by summed uniform draws: the
/// result is the mean plus the standard deviation times some factor
/// of magnitude at most six.
pub fn gaussian(mean: Scalar, std_dev: Scalar) -> (r: Scalar)
    ensures
        exists|z: int|
            -(6 * SCALE as int) <= z <= 6 * SCALE as int && r as int == fadd_s(
                mean as int,
                fmul_s(std_dev as int, z),
            ),
        std_dev == 0 ==> r as int == fadd_s(mean as int, 0),
{
    let mut acc: i64 = 0;
    let mut i: usize = 0;
    while i < 12
        invariant
            i <= 12,
            0 <= acc <= i * (SCALE as int),
        decreases 12 - i,
    {
        let d = rand_below(SCALE as u64);
        assert((i + 1) * (SCALE as int) == i * (SCALE as int) + SCALE as int) by (nonlinear_arith);
        acc = acc + (d as i64);
        i = i + 1;
    }
    let z: i64 = acc - 6 * SCALE;
    let r = fadd(mean, fmul(std_dev, z));
    proof {
        if std_dev == 0 {
            assert(fmul_s(0, z as int) == 0) by {
                assert(0 * z as int == 0) by (nonlinear_arith);
            }
        }
    }
    r
}

/// A draw centered on `center`, displaced by at most `interval` in
/// magnitude either way.
pub fn uniform(center: Scalar, interval: Scalar) -> (r: Scalar)
    requires
        in_range(interval as int),
    ensures
        exists|d: int|
            iabs(d) <= iabs(interval as int) && r as int == fadd_s(center as int, d),
{
    let mag: i64 = if interval >= 0 {
        interval
    } else {
        -interval
    };
    if mag == 0 {
        proof {
            assert(iabs(0) <= iabs(interval as int) && fadd_s(center as int, 0) == fadd_s(
                center as int,
                0,
            ));
        }
        let r = fadd(center, 0);
        r
    } else {
        let u = rand_below(2 * (mag as u64) + 1);
        let d: i64 = (u as i64) - mag;
        fadd(center, d)
    }
}

} // verus!
