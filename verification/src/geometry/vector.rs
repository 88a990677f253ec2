use vstd::prelude::*;

use crate::math::scalar::{Angle, Scalar, fadd, fadd_s, fsub, fsub_s, fmul, fmul_s, fsqrt, fsqrt_s, in_range};
use crate::math::trig::{atan2_fp, atan2_s, cos_fp, cos_s, sin_fp, sin_s};

verus! {

/// A two-dimensional vector with fixed-point components.
#[derive(Debug, Clone, Copy, PartialEq, Eq, Structural)]
pub struct Vector {
    pub x: Scalar,
    pub y: Scalar,
}

/// A two-by-two matrix of scalars, row by row.
#[derive(Debug, Clone, Copy, PartialEq, Eq, Structural)]
pub struct Mat2 {
    pub xx: Scalar,
    pub xy: Scalar,
    pub yx: Scalar,
    pub yy: Scalar,
}

/// The dot product of two vectors, as a scalar value.
pub open spec fn dot_s(ax: int, ay: int, bx: int, by: int) -> int {
    fadd_s(fmul_s(ax, bx), fmul_s(by, ay))
}

/// The cross product of two vectors, as a scalar value.
pub open spec fn cross_s(ax: int, ay: int, bx: int, by: int) -> int {
    fsub_s(fmul_s(ax, by), fmul_s(bx, ay))
}

/// The Euclidean length of a vector, as a scalar value.
pub open spec fn length_s(x: int, y: int) -> int {
    fsqrt_s(fadd_s(fmul_s(x, x), fmul_s(y, y)))
}

impl Vector {
    /// Create a new vector.
    pub fn new(x: Scalar, y: Scalar) -> (r: Vector)
        ensures
            r == (Vector { x, y }),
    {
        Vector { x, y }
    }

    /// The unit vector pointing along the given angle; zero points
    /// along the positive first axis.
    pub fn from_angle(rad: Angle) -> (r: Vector)
        ensures
            r.x as int == cos_s(rad as int),
            r.y as int == sin_s(rad as int),
    {
        Vector { x: cos_fp(rad), y: sin_fp(rad) }
    }

    /// The Euclidean length of the vector.
    pub fn length(&self) -> (r: Scalar)
        ensures
            r as int == length_s(self.x as int, self.y as int),
            0 <= r <= crate::math::scalar::LIMIT,
    {
        fsqrt(fadd(fmul(self.x, self.x), fmul(self.y, self.y)))
    }

    /// The dot product with another vector.
    pub fn dot(&self, q: Vector) -> (r: Scalar)
        ensures
            r as int == dot_s(self.x as int, self.y as int, q.x as int, q.y as int),
    {
        fadd(fmul(self.x, q.x), fmul(q.y, self.y))
    }

    /// The outer product of this vector with another.
    pub fn prod(&self, q: Vector) -> (r: Mat2)
        ensures
            r.xx as int == fmul_s(self.x as int, q.x as int),
            r.xy as int == fmul_s(self.x as int, q.y as int),
            r.yx as int == fmul_s(self.y as int, q.x as int),
            r.yy as int == fmul_s(self.y as int, q.y as int),
    {
        Mat2 {
            xx: fmul(self.x, q.x),
            xy: fmul(self.x, q.y),
            yx: fmul(self.y, q.x),
            yy: fmul(self.y, q.y),
        }
    }

    /// The cross product with another vector: the signed area of the
    /// parallelogram the two vectors span.
    pub fn cross(&self, q: Vector) -> (r: Scalar)
        ensures
            r as int == cross_s(self.x as int, self.y as int, q.x as int, q.y as int),
    {
        fsub(fmul(self.x, q.y), fmul(q.x, self.y))
    }

    /// The angle of the vector from the positive first axis.
    pub fn angle(&self) -> (r: Angle)
        requires
            self.x != i64::MIN,
            self.y != i64::MIN,
        ensures
            r as int == atan2_s(self.y as int, self.x as int),
    {
        atan2_fp(self.y, self.x)
    }

    /// The vector rotated counterclockwise by an angle.
    pub fn rotate(&self, angle: Angle) -> (r: Vector)
        ensures
            r.x as int == fsub_s(
                fmul_s(cos_s(angle as int), self.x as int),
                fmul_s(sin_s(angle as int), self.y as int),
            ),
            r.y as int == fadd_s(
                fmul_s(sin_s(angle as int), self.x as int),
                fmul_s(cos_s(angle as int), self.y as int),
            ),
    {
        let c = cos_fp(angle);
        let s = sin_fp(angle);
        Vector {
            x: fsub(fmul(c, self.x), fmul(s, self.y)),
            y: fadd(fmul(s, self.x), fmul(c, self.y)),
        }
    }

    /// Componentwise vector addition.
    pub fn add(self, rhs: Vector) -> (r: Vector)
        ensures
            r.x as int == fadd_s(self.x as int, rhs.x as int),
            r.y as int == fadd_s(self.y as int, rhs.y as int),
    {
        Vector { x: fadd(self.x, rhs.x), y: fadd(self.y, rhs.y) }
    }

    /// Componentwise vector subtraction.
    pub fn sub(self, rhs: Vector) -> (r: Vector)
        ensures
            r.x as int == fsub_s(self.x as int, rhs.x as int),
            r.y as int == fsub_s(self.y as int, rhs.y as int),
    {
        Vector { x: fsub(self.x, rhs.x), y: fsub(self.y, rhs.y) }
    }

    /// The vector scaled by a scalar.
    pub fn mul(self, s: Scalar) -> (r: Vector)
        ensures
            r.x as int == fmul_s(self.x as int, s as int),
            r.y as int == fmul_s(self.y as int, s as int),
    {
        Vector { x: fmul(self.x, s), y: fmul(self.y, s) }
    }
}

} // verus!
