use vstd::prelude::*;

use crate::math::scalar::{Angle, Scalar, fadd, fadd_s, fsub, fsub_s, in_range};
use crate::geometry::vector::{Vector, length_s};
use crate::math::trig::atan2_s;

verus! {

/// A point in the plane with fixed-point coordinates.
#[derive(Debug, Clone, Copy, PartialEq, Eq, Structural)]
pub struct Point {
    pub x: Scalar,
    pub y: Scalar,
}

/// The distance between two points, as a scalar value.
pub open spec fn dist_s(a: Point, b: Point) -> int {
    length_s(fsub_s(b.x as int, a.x as int), fsub_s(b.y as int, a.y as int))
}

impl Point {
    /// Create a new point.
    pub fn new(x: Scalar, y: Scalar) -> (r: Point)
        ensures
            r == (Point { x, y }),
    {
        Point { x, y }
    }

    /// The vector leading from this point to another.
    pub fn to_point_vec(&self, p: Point) -> (r: Vector)
        ensures
            r.x as int == fsub_s(p.x as int, self.x as int),
            r.y as int == fsub_s(p.y as int, self.y as int),
            in_range(r.x as int),
            in_range(r.y as int),
    {
        let x = fsub(p.x, self.x);
        let y = fsub(p.y, self.y);
        Vector::new(x, y)
    }

    /// The Euclidean distance to another point.
    pub fn dist_to_point(&self, p: Point) -> (r: Scalar)
        ensures
            r as int == dist_s(*self, p),
            0 <= r <= crate::math::scalar::LIMIT,
    {
        self.to_point_vec(p).length()
    }

    /// The direction from this point to another, as an angle.
    pub fn angle_to_point(&self, p: Point) -> (r: Angle)
        ensures
            r as int == atan2_s(
                fsub_s(p.y as int, self.y as int),
                fsub_s(p.x as int, self.x as int),
            ),
    {
        let vec = self.to_point_vec(p);
        vec.angle()
    }

    /// Componentwise point addition.
    pub fn add(self, rhs: Point) -> (r: Point)
        ensures
            r.x as int == fadd_s(self.x as int, rhs.x as int),
            r.y as int == fadd_s(self.y as int, rhs.y as int),
    {
        Point::new(fadd(self.x, rhs.x), fadd(self.y, rhs.y))
    }

    /// Componentwise point subtraction.
    pub fn sub(self, rhs: Point) -> (r: Point)
        ensures
            r.x as int == fsub_s(self.x as int, rhs.x as int),
            r.y as int == fsub_s(self.y as int, rhs.y as int),
    {
        Point::new(fsub(self.x, rhs.x), fsub(self.y, rhs.y))
    }

    /// The point displaced by a vector.
    pub fn add_vec(self, vec: Vector) -> (r: Point)
        ensures
            r.x as int == fadd_s(self.x as int, vec.x as int),
            r.y as int == fadd_s(self.y as int, vec.y as int),
    {
        Point::new(fadd(self.x, vec.x), fadd(self.y, vec.y))
    }

    /// The point displaced against a vector.
    pub fn sub_vec(self, vec: Vector) -> (r: Point)
        ensures
            r.x as int == fsub_s(self.x as int, vec.x as int),
            r.y as int == fsub_s(self.y as int, vec.y as int),
    {
        Point::new(fsub(self.x, vec.x), fsub(self.y, vec.y))
    }
}

} // verus!
