use vstd::prelude::*;

use crate::math::scalar::{Angle, Scalar, fadd, fadd_s, fsub, fsub_s, fmul, fmul_s, fdiv, fdiv_s, fsqrt, fsqrt_s};
use crate::geometry::point::Point;

verus! {

/// A robot pose: a position in the plane and a heading angle.
#[derive(Debug, Clone, Copy, PartialEq, Eq, Structural)]
pub struct Pose {
    pub position: Point,
    pub heading: Angle,
}

impl Default for Pose {
    /// The origin pose: position zero, heading zero.
    fn default() -> (r: Pose)
        ensures
            r == (Pose { position: Point { x: 0, y: 0 }, heading: 0 }),
    {
        Pose::new(Point::new(0, 0), 0)
    }
}

impl Pose {
    /// Create a pose from a position and a heading.
    pub fn new(position: Point, heading: Angle) -> (r: Pose)
        ensures
            r == (Pose { position, heading }),
    {
        Pose { position, heading }
    }

    /// Componentwise addition of two poses.
    pub fn add(self, rhs: Pose) -> (r: Pose)
        ensures
            r.position.x as int == fadd_s(self.position.x as int, rhs.position.x as int),
            r.position.y as int == fadd_s(self.position.y as int, rhs.position.y as int),
            r.heading as int == fadd_s(self.heading as int, rhs.heading as int),
    {
        Pose::new(self.position.add(rhs.position), fadd(self.heading, rhs.heading))
    }

    /// Componentwise subtraction of two poses.
    pub fn sub(self, rhs: Pose) -> (r: Pose)
        ensures
            r.position.x as int == fsub_s(self.position.x as int, rhs.position.x as int),
            r.position.y as int == fsub_s(self.position.y as int, rhs.position.y as int),
            r.heading as int == fsub_s(self.heading as int, rhs.heading as int),
    {
        Pose::new(self.position.sub(rhs.position), fsub(self.heading, rhs.heading))
    }

    /// Componentwise product of two poses, for accumulating weighted
    /// sums and variances over poses.
    pub fn mul(self, rhs: Pose) -> (r: Pose)
        ensures
            r.position.x as int == fmul_s(self.position.x as int, rhs.position.x as int),
            r.position.y as int == fmul_s(self.position.y as int, rhs.position.y as int),
            r.heading as int == fmul_s(self.heading as int, rhs.heading as int),
    {
        Pose::new(
            Point::new(fmul(self.position.x, rhs.position.x), fmul(self.position.y, rhs.position.y)),
            fmul(self.heading, rhs.heading),
        )
    }

    /// The pose scaled by a scalar, componentwise.
    pub fn mul_scalar(self, s: Scalar) -> (r: Pose)
        ensures
            r.position.x as int == fmul_s(self.position.x as int, s as int),
            r.position.y as int == fmul_s(self.position.y as int, s as int),
            r.heading as int == fmul_s(self.heading as int, s as int),
    {
        Pose::new(
            Point::new(fmul(self.position.x, s), fmul(self.position.y, s)),
            fmul(self.heading, s),
        )
    }

    /// The pose divided by a scalar, componentwise.
    pub fn div_scalar(self, s: Scalar) -> (r: Pose)
        ensures
            r.position.x as int == fdiv_s(self.position.x as int, s as int),
            r.position.y as int == fdiv_s(self.position.y as int, s as int),
            r.heading as int == fdiv_s(self.heading as int, s as int),
    {
        Pose::new(
            Point::new(fdiv(self.position.x, s), fdiv(self.position.y, s)),
            fdiv(self.heading, s),
        )
    }

    /// Add another pose in place.
    pub fn add_assign(&mut self, rhs: Pose)
        ensures
            final (self).position.x as int == fadd_s(
                old(self).position.x as int,
                rhs.position.x as int,
            ),
            final (self).position.y as int == fadd_s(
                old(self).position.y as int,
                rhs.position.y as int,
            ),
            final (self).heading as int == fadd_s(old(self).heading as int, rhs.heading as int),
    {
        *self = Pose::new(self.position.add(rhs.position), fadd(self.heading, rhs.heading));
    }

    /// The componentwise square root of a pose, for turning variances
    /// into standard deviations.
    pub fn sqrt(&self) -> (r: Pose)
        ensures
            r.position.x as int == fsqrt_s(self.position.x as int),
            r.position.y as int == fsqrt_s(self.position.y as int),
            r.heading as int == fsqrt_s(self.heading as int),
    {
        let x_sqrt = fsqrt(self.position.x);
        let y_sqrt = fsqrt(self.position.y);
        let heading_sqrt = fsqrt(self.heading);
        Pose::new(Point::new(x_sqrt, y_sqrt), heading_sqrt)
    }
}

} // verus!
