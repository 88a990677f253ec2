use vstd::prelude::*;

use crate::math::scalar::{Scalar, iabs, tdiv_s};
use crate::geometry::point::Point;

verus! {

/// An ordered collection of points. Order matters: scan matching
/// pairs clouds up index by index.
pub struct PointCloud {
    points: Vec<Point>,
}

impl View for PointCloud {
    type V = Seq<Point>;

    closed spec fn view(&self) -> Seq<Point> {
        self.points@
    }
}

impl Clone for PointCloud {
    /// A deep copy of the cloud.
    fn clone(&self) -> (r: Self)
        ensures
            r@ == self@,
    {
        let mut points: Vec<Point> = Vec::new();
        let mut i: usize = 0;
        while i < self.points.len()
            invariant
                i <= self.points.len(),
                points@ == self.points@.take(i as int),
            decreases self.points.len() - i,
        {
            points.push(self.points[i]);
            proof {
                assert(points@ =~= self.points@.take(i as int + 1));
            }
            i = i + 1;
        }
        proof {
            assert(points@ =~= self.points@);
        }
        PointCloud { points }
    }
}

/// The sum of the first coordinates of a sequence of points.
pub open spec fn sum_x(s: Seq<Point>) -> int
    decreases s.len(),
{
    if s.len() == 0 {
        0
    } else {
        sum_x(s.drop_last()) + s.last().x as int
    }
}

/// The sum of the second coordinates of a sequence of points.
pub open spec fn sum_y(s: Seq<Point>) -> int
    decreases s.len(),
{
    if s.len() == 0 {
        0
    } else {
        sum_y(s.drop_last()) + s.last().y as int
    }
}

/// Partial sums of coordinates stay linearly bounded.
pub proof fn lemma_sum_bounds(s: Seq<Point>)
    ensures
        -(s.len() * 0x8000_0000_0000_0000) <= sum_x(s) <= s.len() * 0x7fff_ffff_ffff_ffff,
        -(s.len() * 0x8000_0000_0000_0000) <= sum_y(s) <= s.len() * 0x7fff_ffff_ffff_ffff,
    decreases s.len(),
{
    if s.len() > 0 {
        lemma_sum_bounds(s.drop_last());
        assert((s.len() - 1) * 0x8000_0000_0000_0000 + 0x8000_0000_0000_0000 == s.len()
            * 0x8000_0000_0000_0000 && (s.len() - 1) * 0x7fff_ffff_ffff_ffff
            + 0x7fff_ffff_ffff_ffff == s.len() * 0x7fff_ffff_ffff_ffff) by (nonlinear_arith);
    }
}

/// Truncating division of a wide accumulator by a positive count.
pub(crate) fn tdiv128(a: i128, d: u64) -> (r: i128)
    requires
        d > 0,
        a > i128::MIN,
    ensures
        r as int == tdiv_s(a as int, d as int),
{
    if a >= 0 {
        let q: u128 = (a as u128) / (d as u128);
        q as i128
    } else {
        let q: u128 = ((-a) as u128) / (d as u128);
        assert(q <= (-(a as int))) by {
            vstd::arithmetic::div_mod::lemma_div_is_ordered_by_denominator(-(a as int), 1, d as int);
        }
        -(q as i128)
    }
}

impl PointCloud {
    /// Wrap a vector of points as a cloud.
    pub fn new(points: Vec<Point>) -> (r: PointCloud)
        ensures
            r@ == points@,
    {
        PointCloud { points }
    }

    /// The empty cloud.
    pub fn empty() -> (r: PointCloud)
        ensures
            r@.len() == 0,
    {
        PointCloud { points: Vec::new() }
    }

    /// How many points the cloud holds.
    pub fn size(&self) -> (r: usize)
        ensures
            r == self@.len(),
    {
        self.points.len()
    }

    /// Append a point.
    pub fn add(&mut self, p: Point)
        ensures
            final (self)@ == old(self)@.push(p),
    {
        self.points.push(p);
    }

    /// The points, in order.
    pub fn iter(&self) -> (r: &Vec<Point>)
        ensures
            r@ == self@,
    {
        &self.points
    }

    /// The point at an index.
    pub fn get(&self, i: usize) -> (r: Point)
        requires
            i < self@.len(),
        ensures
            r == self@[i as int],
    {
        self.points[i]
    }

    /// Replace the point at an index.
    pub fn set(&mut self, i: usize, p: Point)
        requires
            i < old(self)@.len(),
        ensures
            final (self)@ == old(self)@.update(i as int, p),
    {
        self.points.set(i, p);
    }

    /// The centroid: each coordinate is the truncated mean of the
    /// points' coordinates.
    pub fn centroid(&self) -> (r: Point)
        requires
            self@.len() >= 1,
        ensures
            r.x as int == tdiv_s(sum_x(self@), self@.len() as int),
            r.y as int == tdiv_s(sum_y(self@), self@.len() as int),
    {
        let n = self.points.len();
        let mut ax: i128 = 0;
        let mut ay: i128 = 0;
        let mut i: usize = 0;
        proof {
            assert(self@.take(0) =~= Seq::<Point>::empty());
        }
        while i < n
            invariant
                i <= n,
                n == self@.len(),
                ax as int == sum_x(self@.take(i as int)),
                ay as int == sum_y(self@.take(i as int)),
                -(i * 0x8000_0000_0000_0000) <= ax as int <= i * 0x7fff_ffff_ffff_ffff,
                -(i * 0x8000_0000_0000_0000) <= ay as int <= i * 0x7fff_ffff_ffff_ffff,
            decreases n - i,
        {
            proof {
                assert(self@.take(i as int + 1).drop_last() =~= self@.take(i as int));
                assert((i + 1) * 0x8000_0000_0000_0000 == i * 0x8000_0000_0000_0000
                    + 0x8000_0000_0000_0000 && (i + 1) * 0x7fff_ffff_ffff_ffff == i
                    * 0x7fff_ffff_ffff_ffff + 0x7fff_ffff_ffff_ffff) by (nonlinear_arith);
            }
            ax = ax + self.points[i].x as i128;
            ay = ay + self.points[i].y as i128;
            i = i + 1;
        }
        proof {
            assert(self@.take(n as int) =~= self@);
            assert(n * 0x8000_0000_0000_0000 < -(i128::MIN as int) && n * 0x7fff_ffff_ffff_ffff
                < i128::MAX as int) by (nonlinear_arith)
                requires
                    n <= 0xffff_ffff_ffff_ffff,
            ;
        }
        let qx = tdiv128(ax, n as u64);
        let qy = tdiv128(ay, n as u64);
        assert(-0x8000_0000_0000_0000 <= qx as int <= 0x7fff_ffff_ffff_ffff
            && -0x8000_0000_0000_0000 <= qy as int <= 0x7fff_ffff_ffff_ffff) by (nonlinear_arith)
            requires
                qx as int == tdiv_s(ax as int, n as int),
                qy as int == tdiv_s(ay as int, n as int),
                -(n * 0x8000_0000_0000_0000) <= ax as int <= n * 0x7fff_ffff_ffff_ffff,
                -(n * 0x8000_0000_0000_0000) <= ay as int <= n * 0x7fff_ffff_ffff_ffff,
                n >= 1,
        ;
        Point::new(qx as i64, qy as i64)
    }
}

} // verus!
