use vstd::prelude::*;

use crate::math::scalar::{SCALE, fdiv_s, fdiv, fadd_s, fsub_s, fmul_s, in_range};
use crate::geometry::point::Point;
use crate::geometry::ray::Ray;
use crate::geometry::target::Target;
use crate::geometry::vector::{Vector, cross_s};

verus! {

/// A line segment between two points.
#[derive(Debug, Clone, Copy, PartialEq, Eq, Structural)]
pub struct Line {
    pub start: Point,
    pub end: Point,
}

impl Line {
    /// Create a segment between two points.
    pub fn new(start: Point, end: Point) -> (r: Line)
        ensures
            r == (Line { start, end }),
    {
        Line { start, end }
    }
}

/// Where a ray crosses a segment: empty when the two are parallel,
/// when the crossing lies behind the ray's origin, or when it falls
/// outside the segment; otherwise the single crossing point.
pub open spec fn line_hit_points(l: Line, ray: Ray) -> Seq<Point> {
    let rx = ray.direction.x as int;
    let ry = ray.direction.y as int;
    let sx = fsub_s(l.end.x as int, l.start.x as int);
    let sy = fsub_s(l.end.y as int, l.start.y as int);
    let det = cross_s(rx, ry, sx, sy);
    if det == 0 {
        Seq::empty()
    } else {
        let qpx = fsub_s(l.start.x as int, ray.origin.x as int);
        let qpy = fsub_s(l.start.y as int, ray.origin.y as int);
        let u = fdiv_s(cross_s(qpx, qpy, rx, ry), det);
        let t = fdiv_s(cross_s(qpx, qpy, sx, sy), det);
        if t >= 0 && 0 <= u <= SCALE as int {
            seq![
                (Point {
                    x: fadd_s(l.start.x as int, fmul_s(sx, u)) as i64,
                    y: fadd_s(l.start.y as int, fmul_s(sy, u)) as i64,
                }),
            ]
        } else {
            Seq::empty()
        }
    }
}

impl Target for Line {
    open spec fn hit_points(&self, ray: Ray) -> Seq<Point> {
        line_hit_points(*self, ray)
    }

    /// Cast the ray against the segment.
    fn intersect(&self, ray: &Ray) -> (r: Vec<Point>) {
        // ray of light
        let p = ray.origin;
        let r_vec = ray.direction;

        // the obstacle segment, as a vector from its start
        let q = self.start;
        let q_to_s = q.to_point_vec(self.end);

        let det = r_vec.cross(q_to_s);

        // a zero cross product means parallel or colinear: the two
        // never cross however long they are
        if det == 0 {
            Vec::new()
        } else {
            let q_minus_p = p.to_point_vec(q);
            let u = fdiv(q_minus_p.cross(r_vec), det);
            let t = fdiv(q_minus_p.cross(q_to_s), det);

            if t >= 0 && 0 <= u && u <= SCALE {
                let hit = q.add_vec(q_to_s.mul(u));
                proof {
                    assert(in_range(fadd_s(
                        self.start.x as int,
                        fmul_s(q_to_s.x as int, u as int),
                    )));
                    assert(in_range(fadd_s(
                        self.start.y as int,
                        fmul_s(q_to_s.y as int, u as int),
                    )));
                }
                let mut out: Vec<Point> = Vec::new();
                out.push(hit);
                proof {
                    assert(out@ =~= self.hit_points(*ray));
                }
                out
            } else {
                Vec::new()
            }
        }
    }
}

} // verus!
