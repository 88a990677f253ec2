use vstd::prelude::*;

use crate::math::scalar::{Angle, SCALE, fadd, fmul, fmul_s, fdiv, fdiv_s};
use crate::math::trig::TWO_PI;
use crate::geometry::line::Line;
use crate::geometry::point::Point;
use crate::geometry::ray::Ray;
use crate::geometry::target::Target;
use crate::odometry::pose::Pose;
use crate::sensor::laserscanner::{Measurement, Scan};

verus! {

/// A simulated laser scanner sweeping a fixed number of columns over
/// a full turn.
#[derive(Debug, Clone, Copy, PartialEq, Eq, Structural)]
pub struct LaserScanner {
    pub num_columns: u32,
}

/// The angle a column points along: its fraction of a full turn.
pub open spec fn column_to_angle_s(column: int, num_columns: int) -> int {
    fmul_s(fdiv_s(column * SCALE, num_columns * SCALE), TWO_PI as int)
}

impl LaserScanner {
    /// The angle a column points along.
    pub fn column_to_angle(&self, column: u32) -> (r: Angle)
        ensures
            r as int == column_to_angle_s(column as int, self.num_columns as int),
    {
        assert(0 <= column as int * SCALE <= 0x1_0000_0000_0000) by (nonlinear_arith)
            requires
                0 <= column <= 0xffff_ffff,
                SCALE == 65536,
        ;
        assert(0 <= self.num_columns as int * SCALE <= 0x1_0000_0000_0000) by (nonlinear_arith)
            requires
                0 <= self.num_columns <= 0xffff_ffff,
                SCALE == 65536,
        ;
        fmul(fdiv((column as i64) * SCALE, (self.num_columns as i64) * SCALE), TWO_PI)
    }

    /// Sweep the columns over the targets by ray casting: each column
    /// whose ray strikes anything contributes one measurement at that
    /// column's angle, reading the distance to the closest struck
    /// point; columns that strike nothing are left out.
    pub fn scan(&self, pose: &Pose, targets: &[Line]) -> (r: Scan)
        ensures
            r.measurements@.len() <= self.num_columns,
            forall|k: int|
                0 <= k < r.measurements@.len() ==> 0 <= (#[trigger] r.measurements@[k]).distance
                    <= crate::math::scalar::LIMIT,
    {
        let mut scan = Scan::empty();
        let mut col: u32 = 0;
        while col < self.num_columns
            invariant
                col <= self.num_columns,
                scan.measurements@.len() <= col,
                forall|k: int|
                    0 <= k < scan.measurements@.len() ==> 0 <= (
                    #[trigger] scan.measurements@[k]).distance <= crate::math::scalar::LIMIT,
            decreases self.num_columns - col,
        {
            let col_angle = self.column_to_angle(col);
            let ray = Ray::from_angle(pose.position, fadd(pose.heading, col_angle));

            // collect every strike over all targets
            let mut points: Vec<Point> = Vec::new();
            let mut t: usize = 0;
            while t < targets.len()
                decreases targets@.len() - t,
            {
                let target = &targets[t];
                let mut candidates = target.intersect(&ray);
                points.append(&mut candidates);
                t = t + 1;
            }

            // keep only the strike closest to the sensor
            if points.len() >= 1 {
                let mut best_d = pose.position.dist_to_point(points[0]);
                let mut q: usize = 1;
                while q < points.len()
                    invariant
                        1 <= q <= points@.len(),
                        0 <= best_d <= crate::math::scalar::LIMIT,
                    decreases points@.len() - q,
                {
                    let d = pose.position.dist_to_point(points[q]);
                    if d < best_d {
                        best_d = d;
                    }
                    q = q + 1;
                }
                scan.add(Measurement::new(col_angle, best_d));
            }
            col = col + 1;
        }
        scan
    }
}

} // verus!
