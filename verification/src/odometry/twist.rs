use vstd::prelude::*;

use crate::math::scalar::Angle;
use crate::geometry::vector::Vector;

verus! {

/// A velocity command: a linear velocity along the forward axis and
/// an angular velocity, valid for a fixed duration.
#[derive(Debug, Clone, Copy, PartialEq, Eq, Structural)]
pub struct Twist {
    pub velocity: Vector,
    pub angular: Angle,
}

impl Default for Twist {
    /// The zero command.
    fn default() -> (r: Twist)
        ensures
            r == (Twist { velocity: Vector { x: 0, y: 0 }, angular: 0 }),
    {
        Twist::new(Vector::new(0, 0), 0)
    }
}

impl Twist {
    /// Create a command from a velocity vector and an angular rate.
    pub fn new(velocity: Vector, angular: Angle) -> (r: Twist)
        ensures
            r == (Twist { velocity, angular }),
    {
        Twist { velocity, angular }
    }
}

} // verus!
