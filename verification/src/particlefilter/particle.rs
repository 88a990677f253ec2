use vstd::prelude::*;

use crate::math::scalar::Scalar;
use crate::gridmap::{GridMap, cell_le};
use crate::odometry::pose::Pose;
use crate::geometry::point::Point;
use crate::pointcloud::PointCloud;
use crate::sensor::laserscanner::Scan;

verus! {

/// One hypothesis of the filter: a pose estimate, an importance
/// weight, an owned map of the world, and the previous observation
/// kept for scan matching.
pub struct Particle {
    pub prev_pointcloud: PointCloud,
    pub pose: Pose,
    pub weight: Scalar,
    pub gridmap: GridMap,
    pub prev_pose_correction: Pose,
}

impl Particle {
    /// A sound particle: a weight within the scalar range and a
    /// well-formed map.
    pub open spec fn wf(&self) -> bool {
        &&& 0 <= self.weight <= crate::math::scalar::LIMIT
        &&& self.gridmap.wf()
    }

    /// Create a particle with no previous observation.
    pub fn new(pose: Pose, weight: Scalar, gridmap: GridMap) -> (r: Particle)
        requires
            0 <= weight <= crate::math::scalar::LIMIT,
            gridmap.wf(),
        ensures
            r.wf(),
            r.pose == pose,
            r.weight == weight,
            r.gridmap == gridmap,
            r.prev_pointcloud@.len() == 0,
    {
        Particle {
            prev_pointcloud: PointCloud::empty(),
            pose,
            weight,
            gridmap,
            prev_pose_correction: Pose::default(),
        }
    }

    /// A copy of the cached previous observation.
    pub fn get_prev_observation(&self) -> (r: PointCloud)
        ensures
            r@ == self.prev_pointcloud@,
    {
        self.prev_pointcloud.clone()
    }

    /// Take a pose as given and fold the scan into the particle's own
    /// map from it.
    pub fn cycle(&mut self, scan: &Scan, pose: &Pose)
        requires
            old(self).wf(),
        ensures
            final (self).wf(),
            final (self).pose == *pose,
            final (self).weight == old(self).weight,
            final (self).prev_pointcloud@ == old(self).prev_pointcloud@,
            final (self).prev_pose_correction == old(self).prev_pose_correction,
            final (self).gridmap.size_spec() == old(self).gridmap.size_spec(),
            final (self).gridmap.cell_size_spec() == old(self).gridmap.cell_size_spec(),
            forall|i: int, j: int|
                0 <= i < old(self).gridmap.size_spec() && 0 <= j < old(self).gridmap.size_spec()
                    ==> cell_le(
                    old(self).gridmap.grid()[i][j],
                    #[trigger] final (self).gridmap.grid()[i][j],
                ),
    {
        self.pose = *pose;
        self.gridmap.update(pose, scan);
    }
}

impl Clone for Particle {
    /// A deep copy: the clone owns its own map and cached cloud.
    fn clone(&self) -> (r: Self)
        ensures
            r.prev_pointcloud@ == self.prev_pointcloud@,
            r.pose == self.pose,
            r.weight == self.weight,
            r.gridmap.grid() == self.gridmap.grid(),
            r.gridmap.size_spec() == self.gridmap.size_spec(),
            r.gridmap.cell_size_spec() == self.gridmap.cell_size_spec(),
            r.prev_pose_correction == self.prev_pose_correction,
    {
        Particle {
            prev_pointcloud: self.prev_pointcloud.clone(),
            pose: self.pose,
            weight: self.weight,
            gridmap: self.gridmap.clone(),
            prev_pose_correction: self.prev_pose_correction,
        }
    }
}

impl Default for Particle {
    /// A particle at the origin with unit weight and a fresh map.
    fn default() -> (r: Particle)
        ensures
            r.wf(),
            r.weight == crate::math::scalar::SCALE,
            r.pose == (Pose { position: Point { x: 0, y: 0 }, heading: 0 }),
            r.prev_pointcloud@.len() == 0,
    {
        Particle::new(Pose::default(), crate::math::scalar::SCALE, GridMap::default())
    }
}

} // verus!
