use vstd::prelude::*;

use crate::odometry::pose::Pose;
use crate::odometry::twist::Twist;
use crate::geometry::point::Point;
use crate::geometry::vector::Vector;

verus! {

/// An odometry record: the pose estimate and the velocity that
/// produced it.
#[derive(Debug, Clone, Copy, PartialEq, Eq, Structural)]
pub struct Odometry {
    pub pose: Pose,
    pub vel: Twist,
}

impl Default for Odometry {
    /// Odometry at rest at the origin.
    fn default() -> (r: Odometry)
        ensures
            r.pose == (Pose { position: Point { x: 0, y: 0 }, heading: 0 }),
            r.vel == (Twist { velocity: Vector { x: 0, y: 0 }, angular: 0 }),
    {
        Odometry::new(Pose::default(), Twist::default())
    }
}

impl Odometry {
    /// Create an odometry record.
    pub fn new(pose: Pose, vel: Twist) -> (r: Odometry)
        ensures
            r == (Odometry { pose, vel }),
    {
        Odometry { pose, vel }
    }
}

} // verus!
