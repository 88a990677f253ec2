use vstd::prelude::*;

use crate::geometry::point::Point;
use crate::geometry::ray::Ray;

verus! {

/// Something a ray can hit: it yields the points where a given ray
/// strikes it, as `hit_points` describes them.
pub trait Target {
    /// The points where the ray strikes this target.
    spec fn hit_points(&self, ray: Ray) -> Seq<Point>;

    /// Compute the points where the ray strikes this target.
    fn intersect(&self, ray: &Ray) -> (r: Vec<Point>)
        ensures
            r@ == self.hit_points(*ray),
    ;
}

} // verus!
