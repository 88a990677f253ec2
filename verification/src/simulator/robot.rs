use vstd::prelude::*;

use crate::math::scalar::{Scalar, SCALE, fmul_s};
use crate::geometry::vector::Vector;
use crate::geometry::point::Point;
use crate::odometry::odometry::Odometry;
use crate::odometry::pose::Pose;
use crate::odometry::motion_model::{drive, drive_s};
use crate::odometry::twist::Twist;
use crate::simulator::laserscanner::LaserScanner;

verus! {

/// A drive command's direction.
#[derive(Debug, Copy, Clone, PartialEq, Eq, Structural)]
pub enum Direction {
    Forward,
    Backward,
    Left,
    Right,
}

/// The simulated robot: its odometry, the last command it took, and
/// its scanner.
pub struct Robot {
    pub u: Scalar,
    pub w: Scalar,
    pub odom: Odometry,
    pub latest_gain: Twist,
    pub laser_scanner: LaserScanner,
}

impl Robot {
    /// A sound robot: drive rates within the scalar range.
    pub open spec fn wf(&self) -> bool {
        &&& 0 <= self.u <= crate::math::scalar::LIMIT
        &&& 0 <= self.w <= crate::math::scalar::LIMIT
    }
}

impl Default for Robot {
    /// A robot at rest at the origin with a hundred-column scanner.
    fn default() -> (r: Robot)
        ensures
            r.wf(),
            r.odom.pose == (Pose { position: Point { x: 0, y: 0 }, heading: 0 }),
            r.laser_scanner.num_columns == 100,
    {
        Robot {
            u: 9830,
            w: 5243,
            odom: Odometry::default(),
            latest_gain: Twist::default(),
            laser_scanner: LaserScanner { num_columns: 100 },
        }
    }
}

impl Robot {
    /// Take one drive step in the given direction, if any: record the
    /// command and advance the odometry by the deterministic velocity
    /// model over one second.
    pub fn move_forward(&mut self, dir: Option<Direction>)
        requires
            old(self).wf(),
        ensures
            final (self).wf(),
            dir is None ==> *final (self) == *old(self),
            dir is Some ==> final (self).odom.pose == drive_s(
                old(self).odom.pose,
                fmul_s(final (self).latest_gain.velocity.x as int, SCALE as int),
                fmul_s(final (self).latest_gain.angular as int, SCALE as int),
            ),
    {
        match dir {
            Some(d) => {
                let mut ds: Scalar = 0;
                let mut dyaw: Scalar = 0;
                match d {
                    Direction::Forward => {
                        ds = self.u;
                    },
                    Direction::Backward => {
                        ds = -self.u;
                    },
                    Direction::Left => {
                        dyaw = self.w;
                    },
                    Direction::Right => {
                        dyaw = -self.w;
                    },
                }
                let gain = Twist { velocity: Vector { x: ds, y: 0 }, angular: dyaw };
                self.latest_gain = gain;
                self.odom.pose = drive(&self.odom.pose, &gain, SCALE);
            },
            None => (),
        }
    }
}

} // verus!
