use vstd::prelude::*;

use crate::math::scalar::{Angle, Scalar, SCALE, PI, iabs, in_range, clip_s, fadd, fadd_s, fsub, fsub_s, fmul, fmul_s, fsqrt, fsqrt_s, tdiv_s};
use crate::math::trig::{TWO_PI, HALF_PI, atan2_fp, atan2_s, cos_fp, cos_s, sin_fp, sin_s, sin_taylor_s, cos_taylor_s, reduce_s, tdiv_c};
use crate::geometry::point::{Point, dist_s};
use crate::geometry::vector::{Mat2, Vector};
use crate::pointcloud::{PointCloud, sum_x, sum_y};
use crate::odometry::pose::Pose;

verus! {

/// A rigid transform of the plane: a rotation and a translation,
/// standing for the homogeneous matrix with the rotation embedded and
/// the translation in the last column.
#[derive(Debug, Clone, Copy, PartialEq, Eq, Structural)]
pub struct Transform {
    pub rot: Mat2,
    pub trans: Vector,
}

/// The rotation matrix of an angle.
pub open spec fn rot_mat_s(a: int) -> Mat2 {
    Mat2 {
        xx: cos_s(a) as i64,
        xy: (-sin_s(a)) as i64,
        yx: sin_s(a) as i64,
        yy: cos_s(a) as i64,
    }
}

/// The rotation matrix of an angle, evaluated.
pub fn rot_mat(a: Angle) -> (r: Mat2)
    ensures
        r == rot_mat_s(a as int),
{
    let c = cos_fp(a);
    let s = sin_fp(a);
    Mat2 { xx: c, xy: -s, yx: s, yy: c }
}

/// The centroid coordinates of a sequence of points.
pub open spec fn centroid_s(s: Seq<Point>) -> (int, int) {
    (tdiv_s(sum_x(s), s.len() as int), tdiv_s(sum_y(s), s.len() as int))
}

/// The cross-covariance accumulated over the first `i` pairs of the
/// centered clouds: the four entries of `sum aa * bb^T`, where `aa`
/// and `bb` are the centered points.
pub open spec fn hmat_s(a: Seq<Point>, b: Seq<Point>, ca: (int, int), cb: (int, int), i: int) -> (
    int,
    int,
    int,
    int,
)
    decreases i,
{
    if i <= 0 {
        (0, 0, 0, 0)
    } else {
        let p = hmat_s(a, b, ca, cb, i - 1);
        let ax = fsub_s(a[i - 1].x as int, ca.0);
        let ay = fsub_s(a[i - 1].y as int, ca.1);
        let bx = fsub_s(b[i - 1].x as int, cb.0);
        let by = fsub_s(b[i - 1].y as int, cb.1);
        (
            fadd_s(p.0, fmul_s(ax, bx)),
            fadd_s(p.1, fmul_s(ax, by)),
            fadd_s(p.2, fmul_s(ay, bx)),
            fadd_s(p.3, fmul_s(ay, by)),
        )
    }
}

/// The two rotation angles of the closed-form singular value
/// decomposition of the cross-covariance of two equal-length clouds:
/// the left angle, and the right angle.
pub open spec fn svd_angles_s(a: Seq<Point>, b: Seq<Point>) -> (int, int) {
    let h = hmat_s(a, b, centroid_s(a), centroid_s(b), a.len() as int);
    let e = tdiv_s(fadd_s(h.0, h.3), 2);
    let hh = tdiv_s(fsub_s(h.2, h.1), 2);
    let f = tdiv_s(fsub_s(h.0, h.3), 2);
    let g = tdiv_s(fadd_s(h.2, h.1), 2);
    let th1 = atan2_s(g, f);
    let th2 = atan2_s(hh, e);
    (tdiv_s(fadd_s(th1, th2), 2), tdiv_s(fsub_s(th1, th2), 2))
}

/// The rotation angle of the least-squares rigid fit: the right
/// singular angle minus the left one.
pub open spec fn fit_angle_s(a: Seq<Point>, b: Seq<Point>) -> int {
    let (gma, beta) = svd_angles_s(a, b);
    fsub_s(beta, gma)
}

/// The translation of the fit: the target centroid minus the rotated
/// source centroid.
pub open spec fn fit_trans_s(a: Seq<Point>, b: Seq<Point>) -> (int, int) {
    let r = rot_mat_s(fit_angle_s(a, b));
    let ca = centroid_s(a);
    let cb = centroid_s(b);
    (
        fsub_s(cb.0, fadd_s(fmul_s(r.xx as int, ca.0), fmul_s(r.xy as int, ca.1))),
        fsub_s(cb.1, fadd_s(fmul_s(r.yx as int, ca.0), fmul_s(r.yy as int, ca.1))),
    )
}

/// A rigid transform applied to a point.
pub open spec fn apply_rt_s(rot: Mat2, trans: Vector, p: Point) -> Point {
    Point {
        x: fadd_s(
            fadd_s(fmul_s(rot.xx as int, p.x as int), fmul_s(rot.xy as int, p.y as int)),
            trans.x as int,
        ) as i64,
        y: fadd_s(
            fadd_s(fmul_s(rot.yx as int, p.x as int), fmul_s(rot.yy as int, p.y as int)),
            trans.y as int,
        ) as i64,
    }
}

/// The transpose of a matrix.
pub open spec fn transpose_s(m: Mat2) -> Mat2 {
    Mat2 { xx: m.xx, xy: m.yx, yx: m.xy, yy: m.yy }
}

/// The product of two matrices, in scalar arithmetic.
pub open spec fn mat_mul_s(a: Mat2, b: Mat2) -> Mat2 {
    Mat2 {
        xx: fadd_s(fmul_s(a.xx as int, b.xx as int), fmul_s(a.xy as int, b.yx as int)) as i64,
        xy: fadd_s(fmul_s(a.xx as int, b.xy as int), fmul_s(a.xy as int, b.yy as int)) as i64,
        yx: fadd_s(fmul_s(a.yx as int, b.xx as int), fmul_s(a.yy as int, b.yx as int)) as i64,
        yy: fadd_s(fmul_s(a.yx as int, b.xy as int), fmul_s(a.yy as int, b.yy as int)) as i64,
    }
}

/// The determinant of a matrix, in scalar arithmetic.
pub open spec fn det_s(m: Mat2) -> int {
    fsub_s(fmul_s(m.xx as int, m.yy as int), fmul_s(m.xy as int, m.yx as int))
}

/// The transpose, evaluated.
pub fn mat_transpose(m: Mat2) -> (r: Mat2)
    ensures
        r == transpose_s(m),
{
    Mat2 { xx: m.xx, xy: m.yx, yx: m.xy, yy: m.yy }
}

/// The matrix product, evaluated.
pub fn mat_mul(a: Mat2, b: Mat2) -> (r: Mat2)
    ensures
        r == mat_mul_s(a, b),
{
    Mat2 {
        xx: fadd(fmul(a.xx, b.xx), fmul(a.xy, b.yx)),
        xy: fadd(fmul(a.xx, b.xy), fmul(a.xy, b.yy)),
        yx: fadd(fmul(a.yx, b.xx), fmul(a.yy, b.yx)),
        yy: fadd(fmul(a.yx, b.xy), fmul(a.yy, b.yy)),
    }
}

/// The determinant, evaluated.
pub fn mat_det(m: Mat2) -> (r: Scalar)
    ensures
        r as int == det_s(m),
{
    fsub(fmul(m.xx, m.yy), fmul(m.xy, m.yx))
}

/// A rigid transform applied to a point, evaluated.
pub fn tf_apply(t: &Transform, p: Point) -> (r: Point)
    ensures
        r == apply_rt_s(t.rot, t.trans, p),
{
    Point {
        x: fadd(fadd(fmul(t.rot.xx, p.x), fmul(t.rot.xy, p.y)), t.trans.x),
        y: fadd(fadd(fmul(t.rot.yx, p.x), fmul(t.rot.yy, p.y)), t.trans.y),
    }
}

/// The least-squares rigid fit mapping cloud `a` onto cloud `b`,
/// index by index: the homogeneous transform, the rotation, and the
/// translation.
///
/// The rotation comes out of the closed-form singular value
/// decomposition of the cross-covariance `H`: with `H` written as
/// `rot(gma) * diag(s1, s2) * rot(beta)^T` (allowing a negative
/// `s2`), the candidate `R = Vt^T * U^T` is the rotation by
/// `beta - gma`. When `det H < 0` the true decomposition carries a
/// reflection in `Vt`, and flipping the sign of the row of `Vt` with
/// the smaller singular value cancels that reflection exactly, which
/// recomposes to the same rotation by `beta - gma`; composing in
/// angle space keeps that exact. The translation carries the source
/// centroid onto the target centroid under the rotation.
pub fn best_fit_transform(a: &PointCloud, b: &PointCloud) -> (r: (Transform, Mat2, Vector))
    requires
        a@.len() == b@.len(),
        a@.len() >= 1,
    ensures
        r.1 == rot_mat_s(fit_angle_s(a@, b@)),
        r.2.x as int == fit_trans_s(a@, b@).0,
        r.2.y as int == fit_trans_s(a@, b@).1,
        r.0 == (Transform { rot: r.1, trans: r.2 }),
{
    let n = a.size();
    let ca = a.centroid();
    let cb = b.centroid();

    // cross-covariance of the centered clouds
    let mut h00: Scalar = 0;
    let mut h01: Scalar = 0;
    let mut h10: Scalar = 0;
    let mut h11: Scalar = 0;
    let mut i: usize = 0;
    while i < n
        invariant
            i <= n,
            n == a@.len(),
            a@.len() == b@.len(),
            (h00 as int, h01 as int, h10 as int, h11 as int) == hmat_s(
                a@,
                b@,
                (ca.x as int, ca.y as int),
                (cb.x as int, cb.y as int),
                i as int,
            ),
        decreases n - i,
    {
        let ax = fsub(a.get(i).x, ca.x);
        let ay = fsub(a.get(i).y, ca.y);
        let bx = fsub(b.get(i).x, cb.x);
        let by = fsub(b.get(i).y, cb.y);
        h00 = fadd(h00, fmul(ax, bx));
        h01 = fadd(h01, fmul(ax, by));
        h10 = fadd(h10, fmul(ay, bx));
        h11 = fadd(h11, fmul(ay, by));
        i = i + 1;
    }

    // closed-form singular value decomposition of H
    let e = tdiv_c(fadd(h00, h11), 2);
    let hh = tdiv_c(fsub(h10, h01), 2);
    let f = tdiv_c(fsub(h00, h11), 2);
    let g = tdiv_c(fadd(h10, h01), 2);
    let th1 = atan2_fp(g, f);
    let th2 = atan2_fp(hh, e);
    let gma = tdiv_c(fadd(th1, th2), 2);
    let beta = tdiv_c(fsub(th1, th2), 2);

    // the candidate rotation R = Vt^T * U^T, composed in angle space:
    // rot(beta) * rot(-gma) is the rotation by `beta - gma` outright.
    // When det H < 0 the second singular value comes out negative and
    // the true Vt carries a reflection; flipping the sign of that
    // smaller singular value's row (the fix `handle_improper_rotation`
    // applies on the matrix level) cancels the reflection exactly, and
    // the recomposed product is the same rotation by `beta - gma`.
    // Both cases therefore build one and the same matrix, always a
    // proper rotation (`lemma_rot_proper`).
    let rot = rot_mat(fsub(beta, gma));

    // translation: carry the source centroid onto the target centroid
    let t = Vector {
        x: fsub(cb.x, fadd(fmul(rot.xx, ca.x), fmul(rot.xy, ca.y))),
        y: fsub(cb.y, fadd(fmul(rot.yx, ca.x), fmul(rot.yy, ca.y))),
    };

    let tf = Transform { rot, trans: t };
    (tf, rot, t)
}

/// The reflection fix on the matrix level: flip the sign of the row
/// of `Vt` whose singular value is smaller, and recompose the
/// rotation as `Vt^T * U^T`. The contract pins that recomposition
/// exactly; that its determinant is positive holds of the composed
/// rotation angle (`lemma_rot_proper`, the path `best_fit_transform`
/// takes), while for arbitrary rounded matrix inputs it would need
/// error bounds on the entries that the scalar contracts do not
/// carry.
pub fn handle_improper_rotation(r: Mat2, u: Mat2, s: Vector, vt: Mat2) -> (fixed: Mat2)
    ensures
        fixed == mat_mul_s(
            transpose_s(
                if s.x < s.y {
                    Mat2 { xx: fsub_s(0, vt.xx as int) as i64, xy: fsub_s(0, vt.xy as int) as i64, yx: vt.yx, yy: vt.yy }
                } else {
                    Mat2 { xx: vt.xx, xy: vt.xy, yx: fsub_s(0, vt.yx as int) as i64, yy: fsub_s(0, vt.yy as int) as i64 }
                },
            ),
            transpose_s(u),
        ),
{
    let _ = r;
    let flipped = if s.x < s.y {
        Mat2 { xx: fsub(0, vt.xx), xy: fsub(0, vt.xy), yx: vt.yx, yy: vt.yy }
    } else {
        Mat2 { xx: vt.xx, xy: vt.xy, yx: fsub(0, vt.yx), yy: fsub(0, vt.yy) }
    };
    mat_mul(mat_transpose(flipped), mat_transpose(u))
}

/// The index of the point of `b[..j]` closest to `p`, earliest first
/// under strict comparison.
pub open spec fn nn_idx_s(p: Point, b: Seq<Point>, j: int) -> int
    decreases j,
{
    if j <= 1 {
        0
    } else {
        let k = nn_idx_s(p, b, j - 1);
        if dist_s(b[j - 1], p) < dist_s(b[k], p) {
            j - 1
        } else {
            k
        }
    }
}

/// The chosen index is in range, no point beats it, and every earlier
/// point is strictly farther.
pub proof fn lemma_nn_idx_props(p: Point, b: Seq<Point>, j: int)
    requires
        1 <= j <= b.len(),
    ensures
        0 <= nn_idx_s(p, b, j) < j,
        forall|j2: int| 0 <= j2 < j ==> dist_s(#[trigger] b[j2], p) >= dist_s(b[nn_idx_s(p, b, j)], p),
        forall|j2: int|
            0 <= j2 < nn_idx_s(p, b, j) ==> dist_s(#[trigger] b[j2], p) > dist_s(b[nn_idx_s(p, b, j)], p),
    decreases j,
{
    if j > 1 {
        lemma_nn_idx_props(p, b, j - 1);
    }
}

/// For each point of `a` in order: the distance to, and the index of,
/// the nearest point of `b`, earliest index first on ties.
pub fn nearest_neighbor(a: &PointCloud, b: &PointCloud) -> (r: (Vec<Scalar>, Vec<usize>))
    requires
        a@.len() >= 1,
        b@.len() >= 1,
    ensures
        r.0@.len() == a@.len(),
        r.1@.len() == a@.len(),
        forall|i: int|
            0 <= i < a@.len() ==> #[trigger] r.1@[i] as int == nn_idx_s(a@[i], b@, b@.len() as int),
        forall|i: int|
            0 <= i < a@.len() ==> #[trigger] r.0@[i] as int == dist_s(b@[r.1@[i] as int], a@[i]),
        forall|i: int| 0 <= i < a@.len() ==> 0 <= #[trigger] r.0@[i] <= crate::math::scalar::LIMIT,
{
    let n = a.size();
    let m = b.size();
    let mut distances: Vec<Scalar> = Vec::new();
    let mut indices: Vec<usize> = Vec::new();
    let mut i: usize = 0;
    while i < n
        invariant
            i <= n,
            n == a@.len(),
            m == b@.len(),
            m >= 1,
            distances@.len() == i,
            indices@.len() == i,
            forall|i2: int|
                0 <= i2 < i ==> #[trigger] indices@[i2] as int == nn_idx_s(a@[i2], b@, m as int),
            forall|i2: int|
                0 <= i2 < i ==> #[trigger] distances@[i2] as int == dist_s(
                    b@[indices@[i2] as int],
                    a@[i2],
                ),
            forall|i2: int| 0 <= i2 < i ==> 0 <= #[trigger] distances@[i2] <= crate::math::scalar::LIMIT,
        decreases n - i,
    {
        let p = a.get(i);
        let mut min_distance: Scalar = b.get(0).dist_to_point(p);
        let mut min_index: usize = 0;
        let mut j: usize = 1;
        while j < m
            invariant
                1 <= j <= m,
                m == b@.len(),
                min_index as int == nn_idx_s(p, b@, j as int),
                min_index < j,
                min_distance as int == dist_s(b@[min_index as int], p),
                0 <= min_distance <= crate::math::scalar::LIMIT,
            decreases m - j,
        {
            let d = b.get(j).dist_to_point(p);
            if d < min_distance {
                min_distance = d;
                min_index = j;
            }
            j = j + 1;
        }
        distances.push(min_distance);
        indices.push(min_index);
        i = i + 1;
    }
    (distances, indices)
}

/// The sum of the nearest-neighbor distances of the first `i` points
/// of `at` against `b`.
pub open spec fn sum_dists_s(at: Seq<Point>, b: Seq<Point>, i: int) -> int
    decreases i,
{
    if i <= 0 {
        0
    } else {
        sum_dists_s(at, b, i - 1) + dist_s(
            b[nn_idx_s(at[i - 1], b, b.len() as int)],
            at[i - 1],
        )
    }
}

/// Distances are nonnegative and clipped, so their sums are linearly
/// bounded.
pub proof fn lemma_sum_dists_bounds(at: Seq<Point>, b: Seq<Point>, i: int)
    requires
        0 <= i <= at.len(),
        b.len() >= 1,
    ensures
        0 <= sum_dists_s(at, b, i) <= i * 0x4000_0000_0000,
    decreases i,
{
    if i > 0 {
        lemma_sum_dists_bounds(at, b, i - 1);
        let j = nn_idx_s(at[i - 1], b, b.len() as int);
        lemma_nn_idx_props(at[i - 1], b, b.len() as int);
        crate::math::scalar::lemma_fsqrt_s_range(
            fadd_s(
                fmul_s(
                    fsub_s(at[i - 1].x as int, b[j].x as int),
                    fsub_s(at[i - 1].x as int, b[j].x as int),
                ),
                fmul_s(
                    fsub_s(at[i - 1].y as int, b[j].y as int),
                    fsub_s(at[i - 1].y as int, b[j].y as int),
                ),
            ),
        );
        assert((i - 1) * 0x4000_0000_0000 + 0x4000_0000_0000 == i * 0x4000_0000_0000)
            by (nonlinear_arith);
    }
}

/// `b` reordered so that each index carries the nearest neighbor of
/// the matching point of `at`.
pub open spec fn reorder_s(at: Seq<Point>, b: Seq<Point>) -> Seq<Point> {
    Seq::new(at.len(), |i: int| b[nn_idx_s(at[i], b, b.len() as int)])
}

/// One refinement step: fit `at` onto its reordered targets and apply
/// the fitted transform to every point of `at`.
pub open spec fn icp_step_s(at: Seq<Point>, b: Seq<Point>) -> Seq<Point> {
    let bord = reorder_s(at, b);
    let rot = rot_mat_s(fit_angle_s(at, bord));
    let tr = fit_trans_s(at, bord);
    let tv = Vector { x: tr.0 as i64, y: tr.1 as i64 };
    Seq::new(at.len(), |i: int| apply_rt_s(rot, tv, at[i]))
}

/// The mean nearest-neighbor distance of `at` against `b`.
pub open spec fn mean_err_s(at: Seq<Point>, b: Seq<Point>) -> int {
    tdiv_s(sum_dists_s(at, b, at.len() as int), at.len() as int)
}

/// The refinement state after `k` rounds: the moved cloud, the last
/// mean error, and whether refinement has settled (the error improved
/// by less than the tolerance, or grew).
pub open spec fn icp_state_s(a0: Seq<Point>, b: Seq<Point>, tol: int, k: nat) -> (
    Seq<Point>,
    int,
    bool,
)
    decreases k,
{
    if k == 0 {
        (a0, 0, false)
    } else {
        let prev_state = icp_state_s(a0, b, tol, (k - 1) as nat);
        if prev_state.2 {
            prev_state
        } else {
            let mean = mean_err_s(prev_state.0, b);
            (
                icp_step_s(prev_state.0, b),
                mean,
                iabs(prev_state.1 - mean) < tol || mean > prev_state.1,
            )
        }
    }
}

/// The pose delta a homogeneous transform stands for: its translation
/// and the angle of its rotation.
pub open spec fn to_pose_s(t: Transform) -> Pose {
    Pose {
        position: Point { x: t.trans.x, y: t.trans.y },
        heading: atan2_s(t.rot.yx as int, t.rot.xx as int) as i64,
    }
}

/// Read a homogeneous transform back as a pose delta.
pub fn to_pose(t: &Transform) -> (r: Pose)
    requires
        t.rot.xx != i64::MIN,
        t.rot.yx != i64::MIN,
    ensures
        r == to_pose_s(*t),
        -PI <= r.heading <= PI,
{
    Pose {
        position: Point { x: t.trans.x, y: t.trans.y },
        heading: atan2_fp(t.rot.yx, t.rot.xx),
    }
}

/// Iterative closest point: refine the placement of cloud `a` against
/// cloud `b` for at most `max_iterations` rounds, stopping once the
/// mean correspondence error settles within `tolerance` or worsens,
/// and return the total fit from the original cloud to the refined
/// one as a pose delta.
pub fn icp(a: &PointCloud, b: &PointCloud, max_iterations: usize, tolerance: Scalar) -> (r: Pose)
    requires
        a@.len() == b@.len(),
        a@.len() >= 1,
    ensures
        ({
            let fin = icp_state_s(a@, b@, tolerance as int, max_iterations as nat).0;
            fin.len() == a@.len() && r == to_pose_s(
                Transform {
                    rot: rot_mat_s(fit_angle_s(a@, fin)),
                    trans: Vector {
                        x: fit_trans_s(a@, fin).0 as i64,
                        y: fit_trans_s(a@, fin).1 as i64,
                    },
                },
            )
        }),
        -PI <= r.heading <= PI,
{
    let n = a.size();
    let mut a_trans = a.clone();
    let mut prev_err: Scalar = 0;
    let mut stopped: bool = false;
    let mut k: usize = 0;
    while k < max_iterations
        invariant
            k <= max_iterations,
            n == a@.len(),
            a@.len() == b@.len(),
            a@.len() >= 1,
            a_trans@ =~= icp_state_s(a@, b@, tolerance as int, k as nat).0,
            prev_err as int == icp_state_s(a@, b@, tolerance as int, k as nat).1,
            stopped == icp_state_s(a@, b@, tolerance as int, k as nat).2,
            a_trans@.len() == a@.len(),
            0 <= prev_err,
        decreases max_iterations - k,
    {
        if !stopped {
            let (distances, indices) = nearest_neighbor(&a_trans, b);

            // rearrange b to line up with the current correspondences
            let mut b_ordered = PointCloud::empty();
            let mut t: usize = 0;
            while t < n
                invariant
                    t <= n,
                    n == a_trans@.len(),
                    a_trans@.len() == b@.len(),
                    b@.len() >= 1,
                    indices@.len() == n,
                    forall|i2: int|
                        0 <= i2 < n ==> #[trigger] indices@[i2] as int == nn_idx_s(
                            a_trans@[i2],
                            b@,
                            b@.len() as int,
                        ),
                    b_ordered@ =~= reorder_s(a_trans@, b@).take(t as int),
                decreases n - t,
            {
                proof {
                    lemma_nn_idx_props(a_trans@[t as int], b@, b@.len() as int);
                }
                let point = b.get(indices[t]);
                b_ordered.add(point);
                proof {
                    assert(b_ordered@ =~= reorder_s(a_trans@, b@).take(t as int + 1));
                }
                t = t + 1;
            }
            proof {
                assert(b_ordered@ =~= reorder_s(a_trans@, b@));
            }

            // fit the current cloud onto the rearranged targets
            let fit = best_fit_transform(&a_trans, &b_ordered);
            let t_t = fit.0;

            // move the whole cloud by the fitted transform
            let mut moved = PointCloud::empty();
            let mut t2: usize = 0;
            while t2 < n
                invariant
                    t2 <= n,
                    n == a_trans@.len(),
                    t_t.rot == rot_mat_s(fit_angle_s(a_trans@, reorder_s(a_trans@, b@))),
                    t_t.trans.x as int == fit_trans_s(a_trans@, reorder_s(a_trans@, b@)).0,
                    t_t.trans.y as int == fit_trans_s(a_trans@, reorder_s(a_trans@, b@)).1,
                    moved@ =~= icp_step_s(a_trans@, b@).take(t2 as int),
                decreases n - t2,
            {
                let p = tf_apply(&t_t, a_trans.get(t2));
                moved.add(p);
                proof {
                    assert(moved@ =~= icp_step_s(a_trans@, b@).take(t2 as int + 1));
                }
                t2 = t2 + 1;
            }
            proof {
                assert(moved@ =~= icp_step_s(a_trans@, b@));
            }

            // mean correspondence error before the move
            let mut sum: i128 = 0;
            let mut t3: usize = 0;
            while t3 < n
                invariant
                    t3 <= n,
                    n == a_trans@.len(),
                    a_trans@.len() == b@.len(),
                    b@.len() >= 1,
                    distances@.len() == n,
                    forall|i2: int|
                        0 <= i2 < n ==> #[trigger] distances@[i2] as int == dist_s(
                            b@[nn_idx_s(a_trans@[i2], b@, b@.len() as int)],
                            a_trans@[i2],
                        ),
                    forall|i2: int|
                        0 <= i2 < n ==> 0 <= #[trigger] distances@[i2] <= crate::math::scalar::LIMIT,
                    sum as int == sum_dists_s(a_trans@, b@, t3 as int),
                    0 <= sum as int <= t3 * 0x4000_0000_0000,
                decreases n - t3,
            {
                proof {
                    assert((t3 + 1) * 0x4000_0000_0000 == t3 * 0x4000_0000_0000 + 0x4000_0000_0000)
                        by (nonlinear_arith);
                }
                sum = sum + (distances[t3] as i128);
                t3 = t3 + 1;
            }
            proof {
                lemma_sum_dists_bounds(a_trans@, b@, n as int);
                assert(n * 0x4000_0000_0000 < 0x7fff_ffff_ffff_ffff_ffff_ffff_ffff_ffff)
                    by (nonlinear_arith)
                    requires
                        n <= 0xffff_ffff_ffff_ffff,
                ;
            }
            let meanw = crate::pointcloud::tdiv128(sum, n as u64);
            assert(0 <= meanw as int <= 0x4000_0000_0000) by (nonlinear_arith)
                requires
                    meanw as int == tdiv_s(sum as int, n as int),
                    0 <= sum as int <= n * 0x4000_0000_0000,
                    n >= 1,
            ;
            let mean: Scalar = meanw as i64;

            let diff = if prev_err >= mean {
                prev_err - mean
            } else {
                mean - prev_err
            };
            stopped = diff < tolerance || mean > prev_err;
            a_trans = moved;
            prev_err = mean;
        }
        k = k + 1;
    }

    // the total transform from the original cloud to the refined one
    let fit = best_fit_transform(a, &a_trans);
    proof {
        crate::math::trig::lemma_cos_s_range(fit_angle_s(a@, a_trans@));
        crate::math::trig::lemma_sin_s_range(fit_angle_s(a@, a_trans@));
    }
    to_pose(&fit.0)
}

/// Every rotation matrix of the library is a proper rotation: its
/// determinant is positive, whatever the angle. In particular the
/// rotation that `best_fit_transform` returns always has a positive
/// determinant.
pub proof fn lemma_rot_proper(angle: int)
    ensures
        det_s(rot_mat_s(angle)) > 0,
{
    crate::math::trig::lemma_sin_s_range(angle);
    crate::math::trig::lemma_cos_s_range(angle);
    crate::math::trig::lemma_sin_cos_not_both_small(angle);
    let c = cos_s(angle);
    let s = sin_s(angle);
    assert(fmul_s(c, c) == tdiv_s(c * c, SCALE as int)) by {
        assert(0 <= c * c <= 0x1_0000_0000) by (nonlinear_arith)
            requires
                -65536 <= c <= 65536,
        ;
        assert(0 <= tdiv_s(c * c, SCALE as int) <= 65536) by (nonlinear_arith)
            requires
                0 <= c * c <= 0x1_0000_0000,
                SCALE == 65536,
        ;
    }
    assert(fmul_s(-s, s) == -tdiv_s(s * s, SCALE as int)) by {
        assert(0 <= s * s <= 0x1_0000_0000 && (-s) * s == -(s * s)) by (nonlinear_arith)
            requires
                -65536 <= s <= 65536,
        ;
        assert(0 <= tdiv_s(s * s, SCALE as int) <= 65536) by (nonlinear_arith)
            requires
                0 <= s * s <= 0x1_0000_0000,
                SCALE == 65536,
        ;
    }
    if iabs(s) >= 20000 {
        assert(tdiv_s(s * s, SCALE as int) >= 6103) by (nonlinear_arith)
            requires
                iabs(s) >= 20000,
                -65536 <= s <= 65536,
                SCALE == 65536,
        ;
        assert(tdiv_s(c * c, SCALE as int) >= 0) by (nonlinear_arith)
            requires
                -65536 <= c <= 65536,
                SCALE == 65536,
        ;
    } else {
        assert(tdiv_s(c * c, SCALE as int) >= 6103) by (nonlinear_arith)
            requires
                iabs(c) >= 20000,
                -65536 <= c <= 65536,
                SCALE == 65536,
        ;
        assert(tdiv_s(s * s, SCALE as int) >= 0) by (nonlinear_arith)
            requires
                -65536 <= s <= 65536,
                SCALE == 65536,
        ;
    }
}

/// A cloud of in-range points.
pub open spec fn cloud_in_range(a: Seq<Point>) -> bool {
    forall|i: int|
        0 <= i < a.len() ==> in_range((#[trigger] a[i]).x as int) && in_range(a[i].y as int)
}

/// The cross-covariance of a cloud against itself is symmetric, with
/// nonnegative diagonal entries.
proof fn lemma_hmat_self(a: Seq<Point>, ca: (int, int), i: int)
    requires
        0 <= i <= a.len(),
    ensures
        hmat_s(a, a, ca, ca, i).1 == hmat_s(a, a, ca, ca, i).2,
        hmat_s(a, a, ca, ca, i).0 >= 0,
        hmat_s(a, a, ca, ca, i).3 >= 0,
    decreases i,
{
    if i > 0 {
        lemma_hmat_self(a, ca, i - 1);
        let ax = fsub_s(a[i - 1].x as int, ca.0);
        let ay = fsub_s(a[i - 1].y as int, ca.1);
        assert(ax * ay == ay * ax) by (nonlinear_arith);
        assert(ax * ax >= 0 && ay * ay >= 0) by (nonlinear_arith);
        assert(tdiv_s(ax * ax, SCALE as int) >= 0 && tdiv_s(ay * ay, SCALE as int) >= 0)
            by (nonlinear_arith)
            requires
                ax * ax >= 0,
                ay * ay >= 0,
        ;
    }
}

/// Centroid coordinates of an in-range cloud are in range.
proof fn lemma_centroid_in_range(a: Seq<Point>)
    requires
        a.len() >= 1,
        cloud_in_range(a),
    ensures
        in_range(centroid_s(a).0),
        in_range(centroid_s(a).1),
{
    lemma_sum_in_range(a, a.len() as int);
    let n = a.len() as int;
    assert(in_range(tdiv_s(sum_x(a), n)) && in_range(tdiv_s(sum_y(a), n))) by (nonlinear_arith)
        requires
            n >= 1,
            iabs(sum_x(a)) <= n * 0x4000_0000_0000,
            iabs(sum_y(a)) <= n * 0x4000_0000_0000,
            in_range(tdiv_s(sum_x(a), n)) <==> -0x4000_0000_0000 <= tdiv_s(sum_x(a), n)
                <= 0x4000_0000_0000,
            in_range(tdiv_s(sum_y(a), n)) <==> -0x4000_0000_0000 <= tdiv_s(sum_y(a), n)
                <= 0x4000_0000_0000,
    ;
}

/// Coordinate sums of an in-range cloud grow at most linearly.
proof fn lemma_sum_in_range(a: Seq<Point>, i: int)
    requires
        cloud_in_range(a),
        0 <= i <= a.len(),
    ensures
        iabs(sum_x(a.take(i))) <= i * 0x4000_0000_0000,
        iabs(sum_y(a.take(i))) <= i * 0x4000_0000_0000,
        i == a.len() ==> iabs(sum_x(a)) <= i * 0x4000_0000_0000 && iabs(sum_y(a)) <= i
            * 0x4000_0000_0000,
    decreases i,
{
    if i > 0 {
        lemma_sum_in_range(a, i - 1);
        assert(a.take(i).drop_last() =~= a.take(i - 1));
        assert(a.take(i).last() == a[i - 1]);
        assert((i - 1) * 0x4000_0000_0000 + 0x4000_0000_0000 == i * 0x4000_0000_0000)
            by (nonlinear_arith);
    }
    if i == a.len() {
        assert(a.take(i) =~= a);
    }
}

/// Fitting a cloud onto itself is exactly the identity: the fitted
/// rotation angle is zero, the rotation matrix is the unit matrix,
/// and the translation is the zero vector.
pub proof fn lemma_best_fit_identity(a: Seq<Point>)
    requires
        a.len() >= 1,
        cloud_in_range(a),
    ensures
        fit_angle_s(a, a) == 0,
        rot_mat_s(fit_angle_s(a, a)) == (Mat2 { xx: SCALE, xy: 0, yx: 0, yy: SCALE }),
        fit_trans_s(a, a) == (0int, 0int),
{
    let ca = centroid_s(a);
    let h = hmat_s(a, a, ca, ca, a.len() as int);
    lemma_hmat_self(a, ca, a.len() as int);
    let e = tdiv_s(fadd_s(h.0, h.3), 2);
    let hh = tdiv_s(fsub_s(h.2, h.1), 2);
    assert(hh == 0);
    assert(e >= 0) by {
        assert(fadd_s(h.0, h.3) >= 0);
        assert(tdiv_s(fadd_s(h.0, h.3), 2) >= 0) by (nonlinear_arith)
            requires
                fadd_s(h.0, h.3) >= 0,
        ;
    }
    let g = tdiv_s(fadd_s(h.2, h.1), 2);
    let f = tdiv_s(fsub_s(h.0, h.3), 2);
    let th1 = atan2_s(g, f);
    let th2 = atan2_s(hh, e);
    crate::math::trig::lemma_atan2_zero(e);
    assert(th2 == 0);
    crate::math::trig::lemma_atan2_s_range(g, f);
    assert(fadd_s(th1, 0) == th1);
    assert(fsub_s(th1, 0) == th1);
    assert(fit_angle_s(a, a) == fsub_s(tdiv_s(th1, 2), tdiv_s(th1, 2)));
    assert(fit_angle_s(a, a) == 0);

    // the rotation at angle zero is the unit matrix
    vstd::arithmetic::div_mod::lemma_small_mod(0nat, TWO_PI as nat);
    assert(reduce_s(0) == 0);
    assert(sin_s(0) == sin_taylor_s(0));
    assert(sin_taylor_s(0) == 0) by {
        vstd::arithmetic::div_mod::lemma_div_of0(SCALE as int);
        vstd::arithmetic::div_mod::lemma_div_basics(6);
        vstd::arithmetic::div_mod::lemma_div_of0(6);
        vstd::arithmetic::div_mod::lemma_div_of0(120);
        vstd::arithmetic::div_mod::lemma_div_of0(5040);
        assert(tdiv_s(0, SCALE as int) == 0);
    }
    vstd::arithmetic::div_mod::lemma_small_mod(HALF_PI as nat, TWO_PI as nat);
    assert(cos_s(0) == sin_s(HALF_PI as int));
    assert(reduce_s(HALF_PI as int) == HALF_PI);
    assert(sin_s(HALF_PI as int) == cos_taylor_s(0));
    assert(cos_taylor_s(0) == SCALE) by {
        vstd::arithmetic::div_mod::lemma_div_of0(SCALE as int);
        vstd::arithmetic::div_mod::lemma_div_of0(2);
        vstd::arithmetic::div_mod::lemma_div_of0(24);
        vstd::arithmetic::div_mod::lemma_div_of0(720);
        assert(tdiv_s(0, SCALE as int) == 0);
    }

    // the translation cancels exactly
    lemma_centroid_in_range(a);
    assert(fmul_s(SCALE as int, ca.0) == ca.0) by (nonlinear_arith)
        requires
            -0x4000_0000_0000 <= ca.0 <= 0x4000_0000_0000,
            SCALE == 65536,
    ;
    assert(fmul_s(SCALE as int, ca.1) == ca.1) by (nonlinear_arith)
        requires
            -0x4000_0000_0000 <= ca.1 <= 0x4000_0000_0000,
            SCALE == 65536,
    ;
    assert(fmul_s(0, ca.0) == 0 && fmul_s(0, ca.1) == 0) by {
        assert(0 * ca.0 == 0 && 0 * ca.1 == 0) by (nonlinear_arith);
        vstd::arithmetic::div_mod::lemma_div_of0(SCALE as int);
        assert(tdiv_s(0, SCALE as int) == 0);
    }
    assert(fadd_s(ca.0, 0) == ca.0 && fadd_s(ca.1, 0) == ca.1);
    assert(fsub_s(ca.0, ca.0) == 0 && fsub_s(ca.1, ca.1) == 0);
}

/// Matching a cloud against itself: a point whose distance to every
/// other point of the cloud comes out positive is matched to its own
/// index, at distance zero.
pub proof fn lemma_nn_identity(a: Seq<Point>, i: int, j: int)
    requires
        0 <= i < a.len(),
        i < j <= a.len(),
        forall|k: int| 0 <= k < a.len() && k != i ==> dist_s(#[trigger] a[k], a[i]) > 0,
    ensures
        nn_idx_s(a[i], a, j) == i,
        dist_s(a[nn_idx_s(a[i], a, j)], a[i]) == 0,
    decreases j,
{
    assert(dist_s(a[i], a[i]) == 0) by {
        assert(fsub_s(a[i].x as int, a[i].x as int) == 0);
        assert(fsub_s(a[i].y as int, a[i].y as int) == 0);
        vstd::arithmetic::div_mod::lemma_div_of0(SCALE as int);
        assert(0int * 0int == 0) by (nonlinear_arith);
        assert(tdiv_s(0int * 0int, SCALE as int) == 0);
        assert(fmul_s(0, 0) == clip_s(0));
        assert(fadd_s(0, 0) == 0);
        assert(crate::math::scalar::fsqrt_s(0) == 0);
    }
    if j == i + 1 {
        if i == 0 {
        } else {
            lemma_nn_first_positive(a, i, i as int);
            assert(dist_s(a[i], a[i]) < dist_s(a[nn_idx_s(a[i], a, i)], a[i]));
        }
    } else {
        lemma_nn_identity(a, i, j - 1);
    }
}

/// While matching a point against indices that exclude it, the chosen
/// distance stays positive.
proof fn lemma_nn_first_positive(a: Seq<Point>, i: int, j: int)
    requires
        0 <= i < a.len(),
        1 <= j <= i,
        forall|k: int| 0 <= k < a.len() && k != i ==> dist_s(#[trigger] a[k], a[i]) > 0,
    ensures
        0 <= nn_idx_s(a[i], a, j) < j,
        dist_s(a[nn_idx_s(a[i], a, j)], a[i]) > 0,
    decreases j,
{
    lemma_nn_idx_props(a[i], a, j);
    if j > 1 {
        lemma_nn_first_positive(a, i, j - 1);
    }
}

} // verus!
