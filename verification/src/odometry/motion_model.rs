use vstd::prelude::*;

use crate::math::scalar::{Angle, Scalar, PI, SCALE, fadd, fadd_s, fmul, fmul_s};
use crate::math::trig::{TWO_PI, cos_s, sin_s, reduce, reduce_s};
use crate::geometry::point::Point;
use crate::geometry::vector::Vector;
use crate::odometry::pose::Pose;
use crate::odometry::twist::Twist;
use crate::sensor::noise::gaussian;

verus! {

/// Standard deviation of the noise put on a translation step.
pub const TRANS_NOISE_DEV: Scalar = 1311;

/// Standard deviation of the noise put on a rotation step.
pub const ROT_NOISE_DEV: Scalar = 655;

/// An angle brought into `[-PI, PI]` by whole turns.
pub open spec fn wrap_s(a: int) -> int {
    let m = reduce_s(a);
    if m > PI {
        m - TWO_PI
    } else {
        m
    }
}

/// The pose reached from `p` by turning `dyaw` and then moving `ds`
/// along the new heading.
pub open spec fn drive_s(p: Pose, ds: int, dyaw: int) -> Pose {
    let h = wrap_s(fadd_s(p.heading as int, dyaw));
    Pose {
        position: Point {
            x: fadd_s(p.position.x as int, fmul_s(ds, cos_s(h))) as i64,
            y: fadd_s(p.position.y as int, fmul_s(ds, sin_s(h))) as i64,
        },
        heading: h as i64,
    }
}

/// A step a velocity command can produce over `dt`: the commanded
/// displacement and turn, each perturbed by its motion noise when
/// noise is applied (and left exact when the command is zero).
pub open spec fn valid_step(gain: Twist, dt: int, noisy: bool, ds: int, dyaw: int) -> bool {
    let ds0 = fmul_s(gain.velocity.x as int, dt);
    let dy0 = fmul_s(gain.angular as int, dt);
    &&& (!noisy || ds0 == 0 ==> ds == ds0)
    &&& (!noisy || dy0 == 0 ==> dyaw == dy0)
    &&& (noisy && ds0 != 0 ==> exists|z: int|
        -(6 * SCALE as int) <= z <= 6 * SCALE as int && ds == fadd_s(
            ds0,
            fmul_s(TRANS_NOISE_DEV as int, z),
        ))
    &&& (noisy && dy0 != 0 ==> exists|z: int|
        -(6 * SCALE as int) <= z <= 6 * SCALE as int && dyaw == fadd_s(
            dy0,
            fmul_s(ROT_NOISE_DEV as int, z),
        ))
}

/// Bring an angle into `[-PI, PI]` by whole turns.
pub fn wrap_heading(yaw: Angle) -> (r: Angle)
    ensures
        r as int == wrap_s(yaw as int),
        -PI <= r <= PI,
{
    let m = reduce(yaw);
    if m > PI {
        m - TWO_PI
    } else {
        m
    }
}

/// One sampled step of the velocity motion model: turn by the
/// commanded (possibly noise-perturbed) angle, then advance by the
/// commanded (possibly noise-perturbed) displacement along the new
/// heading.
pub fn sample_motion_model_velocity(pose: &Pose, gain: &Twist, dt: Scalar, apply_noise: bool) -> (r:
    Pose)
    ensures
        exists|ds: int, dyaw: int|
            valid_step(*gain, dt as int, apply_noise, ds, dyaw) && r == drive_s(*pose, ds, dyaw),
        !apply_noise ==> r == drive_s(
            *pose,
            fmul_s(gain.velocity.x as int, dt as int),
            fmul_s(gain.angular as int, dt as int),
        ),
{
    let ds0 = fmul(gain.velocity.x, dt);
    let dyaw0 = fmul(gain.angular, dt);

    let ds = if ds0 != 0 && apply_noise {
        gaussian(ds0, TRANS_NOISE_DEV)
    } else {
        ds0
    };
    let dyaw = if dyaw0 != 0 && apply_noise {
        gaussian(dyaw0, ROT_NOISE_DEV)
    } else {
        dyaw0
    };

    let heading = wrap_heading(fadd(pose.heading, dyaw));
    let c_yaw = crate::math::trig::cos_fp(heading);
    let s_yaw = crate::math::trig::sin_fp(heading);

    let x = fadd(pose.position.x, fmul(ds, c_yaw));
    let y = fadd(pose.position.y, fmul(ds, s_yaw));

    let r = Pose { position: Point { x, y }, heading };
    proof {
        assert(valid_step(*gain, dt as int, apply_noise, ds as int, dyaw as int));
        assert(r == drive_s(*pose, ds as int, dyaw as int));
    }
    r
}

/// The deterministic step of the velocity model: the sampled step
/// with the noise turned off.
pub fn drive(pose: &Pose, gain: &Twist, dt: Scalar) -> (r: Pose)
    ensures
        r == drive_s(
            *pose,
            fmul_s(gain.velocity.x as int, dt as int),
            fmul_s(gain.angular as int, dt as int),
        ),
{
    sample_motion_model_velocity(pose, gain, dt, false)
}

} // verus!
