use vstd::prelude::*;

use crate::math::scalar::{Angle, Scalar, fadd, fadd_s, fmul_s};
use crate::math::trig::{cos_s, sin_s};
use crate::geometry::point::Point;
use crate::geometry::vector::Vector;
use crate::odometry::pose::Pose;
use crate::pointcloud::PointCloud;

verus! {

/// A single range reading: an angle relative to the robot's heading
/// and the measured distance along it.
#[derive(Debug, Clone, Copy, PartialEq, Eq, Structural)]
pub struct Measurement {
    pub angle: Angle,
    pub distance: Scalar,
}

/// The world point a measurement lands on, taken from the given pose.
pub open spec fn meas_point_s(m: Measurement, pose: Pose) -> Point {
    let dir = fadd_s(pose.heading as int, m.angle as int);
    Point {
        x: fadd_s(pose.position.x as int, fmul_s(cos_s(dir), m.distance as int)) as i64,
        y: fadd_s(pose.position.y as int, fmul_s(sin_s(dir), m.distance as int)) as i64,
    }
}

impl Measurement {
    /// Create a measurement.
    pub fn new(angle: Angle, distance: Scalar) -> (r: Measurement)
        ensures
            r == (Measurement { angle, distance }),
    {
        Measurement { angle, distance }
    }

    /// Project the measurement to the world point it observed, as
    /// seen from a pose.
    pub fn to_point(&self, pose: &Pose) -> (r: Point)
        ensures
            r == meas_point_s(*self, *pose),
    {
        let p0 = pose.position;
        let direction = Vector::from_angle(fadd(pose.heading, self.angle));
        let p1 = p0.add_vec(direction.mul(self.distance));
        p1
    }
}

/// One full sweep of range readings, in column order.
#[derive(Debug, Clone, PartialEq)]
pub struct Scan {
    pub measurements: Vec<Measurement>,
}

impl Scan {
    /// The empty scan.
    pub fn empty() -> (r: Scan)
        ensures
            r.measurements@.len() == 0,
    {
        Scan { measurements: Vec::new() }
    }

    /// Append a measurement.
    pub fn add(&mut self, m: Measurement)
        ensures
            final (self).measurements@ == old(self).measurements@.push(m),
    {
        self.measurements.push(m);
    }

    /// The measurements, in order.
    pub fn iter(&self) -> (r: &Vec<Measurement>)
        ensures
            r@ == self.measurements@,
    {
        &self.measurements
    }

    /// Project the whole scan into a world-frame point cloud, one
    /// point per measurement, in order.
    pub fn to_pointcloud(&self, pose: &Pose) -> (r: PointCloud)
        ensures
            r@.len() == self.measurements@.len(),
            forall|i: int|
                0 <= i < self.measurements@.len() ==> r@[i] == meas_point_s(
                    self.measurements@[i],
                    *pose,
                ),
    {
        let mut cloud = PointCloud::empty();
        let mut i: usize = 0;
        while i < self.measurements.len()
            invariant
                i <= self.measurements@.len(),
                cloud@.len() == i,
                forall|j: int|
                    0 <= j < i ==> cloud@[j] == meas_point_s(self.measurements@[j], *pose),
            decreases self.measurements@.len() - i,
        {
            let p = self.measurements[i].to_point(pose);
            cloud.add(p);
            i = i + 1;
        }
        cloud
    }
}

} // verus!
