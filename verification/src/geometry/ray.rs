use vstd::prelude::*;

use crate::math::scalar::Angle;
use crate::math::trig::{cos_s, sin_s};
use crate::geometry::point::Point;
use crate::geometry::vector::Vector;

verus! {

/// A ray: an origin point and a direction vector.
#[derive(Debug, Clone, Copy, PartialEq, Eq, Structural)]
pub struct Ray {
    pub origin: Point,
    pub direction: Vector,
}

impl Ray {
    /// Create a ray from an origin and a direction.
    pub fn new(origin: Point, direction: Vector) -> (r: Ray)
        ensures
            r == (Ray { origin, direction }),
    {
        Ray { origin, direction }
    }

    /// Create a ray from an origin and an angle: the direction is the
    /// unit vector along that angle.
    pub fn from_angle(origin: Point, angle: Angle) -> (r: Ray)
        ensures
            r.origin == origin,
            r.direction.x as int == cos_s(angle as int),
            r.direction.y as int == sin_s(angle as int),
    {
        Ray { origin, direction: Vector::from_angle(angle) }
    }
}

} // verus!
