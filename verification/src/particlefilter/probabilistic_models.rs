use vstd::prelude::*;

use crate::math::scalar::{Scalar, SCALE, LIMIT, iabs, fadd, fadd_s, fsub, fsub_s, fmul, fmul_s, fdiv, fdiv_s, fsqrt, fsqrt_s, tdiv_s};
use crate::math::trig::{TWO_PI, atan2_fp, atan2_s, cos_fp, cos_s, sin_fp, sin_s, tdiv_c};
use crate::math::utils::{exp_fp, exp_s};
use crate::geometry::point::Point;
use crate::gridmap::{GridMap, index_ok, index_s, cell_point, occ_all_s};
use crate::odometry::pose::Pose;
use crate::odometry::twist::Twist;
use crate::pointcloud::PointCloud;
use crate::sensor::laserscanner::{Scan, Measurement, meas_point_s};

verus! {

/// Noise coefficient of the velocity motion model (each of the six).
pub const MOTION_ALPHA: Scalar = 655;

/// Mixture weight of the Gaussian hit component of the likelihood
/// field.
pub const Z_HIT: Scalar = 64225;

/// The sensor's maximum range (thirty whole units).
pub const Z_MAX: Scalar = 1966080;

/// Mixture weight of the uniform noise component.
pub const Z_RAND: Scalar = 1311;

/// Variance of the hit component of the likelihood field.
pub const VAR_HIT: Scalar = 66;

/// Starting value of a minimum-distance search.
pub const MIN_DIST_INIT: Scalar = 655294464;

/// The density of a zero-centered Gaussian with variance `b2` at
/// argument `a`, up to normalization; zero for a degenerate variance.
pub open spec fn prob_normal_s(a: int, b2: int) -> int {
    if b2 <= 0 {
        0
    } else {
        let inv = fdiv_s(SCALE as int, fsqrt_s(fmul_s(TWO_PI as int, b2)));
        let arg = tdiv_s(fdiv_s(fmul_s(a, a), b2), 2);
        fmul_s(inv, exp_s(fsub_s(0, arg)))
    }
}

/// A scalar quotient of nonnegative scalars is nonnegative and
/// clipped.
pub proof fn lemma_fdiv_s_nonneg(a: int, b: int)
    requires
        a >= 0,
        b >= 0,
    ensures
        0 <= fdiv_s(a, b) <= LIMIT as int,
{
    if b != 0 {
        assert(a * SCALE >= 0) by (nonlinear_arith)
            requires
                a >= 0,
        ;
        assert(iabs(a * (SCALE as int)) == a * SCALE);
        assert(iabs(b) == b);
        vstd::arithmetic::div_mod::lemma_div_pos_is_pos(a * SCALE, b);
    }
}

/// The Gaussian density score is nonnegative and clipped.
pub proof fn lemma_prob_normal_nonneg(a: int, b2: int)
    ensures
        0 <= prob_normal_s(a, b2) <= LIMIT as int,
{
    if b2 > 0 {
        let v = fmul_s(TWO_PI as int, b2);
        crate::math::scalar::lemma_fsqrt_s_range(v);
        lemma_fdiv_s_nonneg(SCALE as int, fsqrt_s(v));
        let inv = fdiv_s(SCALE as int, fsqrt_s(v));
        crate::math::utils::lemma_exp_s_nonneg(
            fsub_s(0, tdiv_s(fdiv_s(fmul_s(a, a), b2), 2)),
        );
        crate::math::utils::lemma_fmul_s_nonneg(
            inv,
            exp_s(fsub_s(0, tdiv_s(fdiv_s(fmul_s(a, a), b2), 2))),
        );
    }
}

/// The Gaussian density of the models, evaluated.
pub fn prob_normal_distribution(a: Scalar, b_squared: Scalar) -> (r: Scalar)
    ensures
        r as int == prob_normal_s(a as int, b_squared as int),
        0 <= r <= LIMIT,
{
    proof {
        lemma_prob_normal_nonneg(a as int, b_squared as int);
    }
    if b_squared <= 0 {
        0
    } else {
        let inv = fdiv(SCALE, fsqrt(fmul(TWO_PI, b_squared)));
        let arg = tdiv_c(fdiv(fmul(a, a), b_squared), 2);
        fmul(inv, exp_fp(fsub(0, arg)))
    }
}

/// The motion-model score of a pose transition under a command. The
/// whole computation over the scalar arithmetic: the implied circular
/// arc through the two poses, the implied velocities, and the product
/// of the three Gaussian densities of their discrepancies. A straight
/// transition (the arc denominator zero) is scored with the implied
/// turn rate taken directly from the heading change.
pub open spec fn motion_model_s(curr: Pose, prev: Pose, gain: Twist, dt: int) -> int {
    let v = gain.velocity.x as int;
    let omega = gain.angular as int;
    let xp = curr.position.x as int;
    let yp = curr.position.y as int;
    let tp = curr.heading as int;
    let x = prev.position.x as int;
    let y = prev.position.y as int;
    let t = prev.heading as int;
    let top = fadd_s(fmul_s(fsub_s(x, xp), cos_s(t)), fmul_s(fsub_s(y, yp), sin_s(t)));
    let bottom = fsub_s(fmul_s(fsub_s(y, yp), cos_s(t)), fmul_s(fsub_s(x, xp), sin_s(t)));
    let var_v = fadd_s(fmul_s(MOTION_ALPHA as int, fmul_s(v, v)), fmul_s(MOTION_ALPHA as int, fmul_s(omega, omega)));
    if bottom == 0 {
        let dist = fsqrt_s(
            fadd_s(fmul_s(fsub_s(xp, x), fsub_s(xp, x)), fmul_s(fsub_s(yp, y), fsub_s(yp, y))),
        );
        let v_hat = fdiv_s(dist, dt);
        let omega_hat = fdiv_s(fsub_s(tp, t), dt);
        let p1 = prob_normal_s(fsub_s(v, v_hat), var_v);
        let p2 = prob_normal_s(fsub_s(omega, omega_hat), var_v);
        fmul_s(p1, p2)
    } else {
        let mu = tdiv_s(fdiv_s(top, bottom), 2);
        let x_star = fadd_s(tdiv_s(fadd_s(x, xp), 2), fmul_s(mu, fsub_s(y, yp)));
        let y_star = fadd_s(tdiv_s(fadd_s(y, yp), 2), fmul_s(mu, fsub_s(xp, x)));
        let r_star = fsqrt_s(
            fadd_s(
                fmul_s(fsub_s(x, x_star), fsub_s(x, x_star)),
                fmul_s(fsub_s(y, y_star), fsub_s(y, y_star)),
            ),
        );
        let delta_theta = fsub_s(
            atan2_s(fsub_s(yp, y_star), fsub_s(xp, x_star)),
            atan2_s(fsub_s(y, y_star), fsub_s(x, x_star)),
        );
        let omega_hat = fdiv_s(delta_theta, dt);
        let v_hat = fmul_s(omega_hat, r_star);
        let gamma_hat = fsub_s(fdiv_s(fsub_s(tp, t), dt), omega_hat);
        let p1 = prob_normal_s(fsub_s(v, v_hat), var_v);
        let p2 = prob_normal_s(fsub_s(omega, omega_hat), var_v);
        let p3 = prob_normal_s(gamma_hat, var_v);
        fmul_s(fmul_s(p1, p2), p3)
    }
}

/// The motion-model score is nonnegative and clipped.
pub proof fn lemma_motion_model_nonneg(curr: Pose, prev: Pose, gain: Twist, dt: int)
    ensures
        0 <= motion_model_s(curr, prev, gain, dt) <= LIMIT as int,
{
    let v = gain.velocity.x as int;
    let omega = gain.angular as int;
    let xp = curr.position.x as int;
    let yp = curr.position.y as int;
    let tp = curr.heading as int;
    let x = prev.position.x as int;
    let y = prev.position.y as int;
    let t = prev.heading as int;
    let top = fadd_s(fmul_s(fsub_s(x, xp), cos_s(t)), fmul_s(fsub_s(y, yp), sin_s(t)));
    let bottom = fsub_s(fmul_s(fsub_s(y, yp), cos_s(t)), fmul_s(fsub_s(x, xp), sin_s(t)));
    let var_v = fadd_s(
        fmul_s(MOTION_ALPHA as int, fmul_s(v, v)),
        fmul_s(MOTION_ALPHA as int, fmul_s(omega, omega)),
    );
    if bottom == 0 {
        let dist = fsqrt_s(
            fadd_s(fmul_s(fsub_s(xp, x), fsub_s(xp, x)), fmul_s(fsub_s(yp, y), fsub_s(yp, y))),
        );
        let v_hat = fdiv_s(dist, dt);
        let omega_hat = fdiv_s(fsub_s(tp, t), dt);
        lemma_prob_normal_nonneg(fsub_s(v, v_hat), var_v);
        lemma_prob_normal_nonneg(fsub_s(omega, omega_hat), var_v);
        crate::math::utils::lemma_fmul_s_nonneg(
            prob_normal_s(fsub_s(v, v_hat), var_v),
            prob_normal_s(fsub_s(omega, omega_hat), var_v),
        );
    } else {
        let mu = tdiv_s(fdiv_s(top, bottom), 2);
        let x_star = fadd_s(tdiv_s(fadd_s(x, xp), 2), fmul_s(mu, fsub_s(y, yp)));
        let y_star = fadd_s(tdiv_s(fadd_s(y, yp), 2), fmul_s(mu, fsub_s(xp, x)));
        let delta_theta = fsub_s(
            atan2_s(fsub_s(yp, y_star), fsub_s(xp, x_star)),
            atan2_s(fsub_s(y, y_star), fsub_s(x, x_star)),
        );
        let r_star = fsqrt_s(
            fadd_s(
                fmul_s(fsub_s(x, x_star), fsub_s(x, x_star)),
                fmul_s(fsub_s(y, y_star), fsub_s(y, y_star)),
            ),
        );
        let omega_hat = fdiv_s(delta_theta, dt);
        let v_hat = fmul_s(omega_hat, r_star);
        let gamma_hat = fsub_s(fdiv_s(fsub_s(tp, t), dt), omega_hat);
        lemma_prob_normal_nonneg(fsub_s(v, v_hat), var_v);
        lemma_prob_normal_nonneg(fsub_s(omega, omega_hat), var_v);
        lemma_prob_normal_nonneg(gamma_hat, var_v);
        crate::math::utils::lemma_fmul_s_nonneg(
            prob_normal_s(fsub_s(v, v_hat), var_v),
            prob_normal_s(fsub_s(omega, omega_hat), var_v),
        );
        crate::math::utils::lemma_fmul_s_nonneg(
            fmul_s(
                prob_normal_s(fsub_s(v, v_hat), var_v),
                prob_normal_s(fsub_s(omega, omega_hat), var_v),
            ),
            prob_normal_s(gamma_hat, var_v),
        );
    }
}

/// The motion-model score of a pose transition under a command,
/// evaluated.
pub fn motion_model_velocity(curr_sampled_pose: &Pose, prev_particle_pose: &Pose, gain: &Twist, dt: Scalar) -> (r: Scalar)
    ensures
        r as int == motion_model_s(*curr_sampled_pose, *prev_particle_pose, *gain, dt as int),
        0 <= r <= LIMIT,
{
    proof {
        lemma_motion_model_nonneg(*curr_sampled_pose, *prev_particle_pose, *gain, dt as int);
    }
    let v = gain.velocity.x;
    let omega = gain.angular;
    let x_prime = curr_sampled_pose.position.x;
    let y_prime = curr_sampled_pose.position.y;
    let theta_prime = curr_sampled_pose.heading;
    let x = prev_particle_pose.position.x;
    let y = prev_particle_pose.position.y;
    let theta = prev_particle_pose.heading;

    let c_t = cos_fp(theta);
    let s_t = sin_fp(theta);
    let top = fadd(fmul(fsub(x, x_prime), c_t), fmul(fsub(y, y_prime), s_t));
    let bottom = fsub(fmul(fsub(y, y_prime), c_t), fmul(fsub(x, x_prime), s_t));

    let var_v = fadd(
        fmul(MOTION_ALPHA, fmul(v, v)),
        fmul(MOTION_ALPHA, fmul(omega, omega)),
    );

    if bottom == 0 {
        // straight transition: score location and heading change only
        let dist = fsqrt(
            fadd(
                fmul(fsub(x_prime, x), fsub(x_prime, x)),
                fmul(fsub(y_prime, y), fsub(y_prime, y)),
            ),
        );
        let v_hat = fdiv(dist, dt);
        let omega_hat = fdiv(fsub(theta_prime, theta), dt);
        let p1 = prob_normal_distribution(fsub(v, v_hat), var_v);
        let p2 = prob_normal_distribution(fsub(omega, omega_hat), var_v);
        fmul(p1, p2)
    } else {
        // the center and radius of the implied circular arc
        let mu = tdiv_c(fdiv(top, bottom), 2);
        let x_star = fadd(tdiv_c(fadd(x, x_prime), 2), fmul(mu, fsub(y, y_prime)));
        let y_star = fadd(tdiv_c(fadd(y, y_prime), 2), fmul(mu, fsub(x_prime, x)));
        let r_star = fsqrt(
            fadd(
                fmul(fsub(x, x_star), fsub(x, x_star)),
                fmul(fsub(y, y_star), fsub(y, y_star)),
            ),
        );
        let delta_theta = fsub(
            atan2_fp(fsub(y_prime, y_star), fsub(x_prime, x_star)),
            atan2_fp(fsub(y, y_star), fsub(x, x_star)),
        );
        let omega_hat = fdiv(delta_theta, dt);
        let v_hat = fmul(omega_hat, r_star);
        let gamma_hat = fsub(fdiv(fsub(theta_prime, theta), dt), omega_hat);
        let p1 = prob_normal_distribution(fsub(v, v_hat), var_v);
        let p2 = prob_normal_distribution(fsub(omega, omega_hat), var_v);
        let p3 = prob_normal_distribution(gamma_hat, var_v);
        fmul(fmul(p1, p2), p3)
    }
}

/// The least distance from the point to any of the listed cells, in
/// grid coordinates, starting from the search ceiling.
pub open spec fn min_dist_s(cells: Seq<Point>, z: Point, i: int) -> int
    decreases i,
{
    if i <= 0 {
        MIN_DIST_INIT as int
    } else {
        let prev = min_dist_s(cells, z, i - 1);
        let d = crate::geometry::point::dist_s(cells[i - 1], z);
        if d < prev {
            d
        } else {
            prev
        }
    }
}

/// The likelihood factor one measurement contributes: the mixture of
/// the Gaussian hit density at its distance to the nearest occupied
/// cell and the uniform noise floor. Measurements at or beyond the
/// sensor ceiling, or falling outside the grid, contribute nothing.
pub open spec fn meas_factor_s(
    m: Measurement,
    pose: Pose,
    cells: Seq<Point>,
    cs: int,
    n: int,
) -> int {
    let zw = meas_point_s(m, pose);
    if m.distance as int >= Z_MAX as int || !(index_ok(cs, n, zw.x as int) && index_ok(
        cs,
        n,
        zw.y as int,
    )) {
        SCALE as int
    } else {
        let zm = cell_point(index_s(cs, n, zw.x as int), index_s(cs, n, zw.y as int));
        let md = min_dist_s(cells, zm, cells.len() as int);
        fadd_s(
            fmul_s(Z_HIT as int, prob_normal_s(md, VAR_HIT as int)),
            fdiv_s(Z_RAND as int, Z_MAX as int),
        )
    }
}

/// The likelihood of the first `k` measurements: the product of their
/// factors.
pub open spec fn likelihood_s(
    ms: Seq<Measurement>,
    pose: Pose,
    cells: Seq<Point>,
    cs: int,
    n: int,
    k: int,
) -> int
    decreases k,
{
    if k <= 0 {
        SCALE as int
    } else {
        fmul_s(
            likelihood_s(ms, pose, cells, cs, n, k - 1),
            meas_factor_s(ms[k - 1], pose, cells, cs, n),
        )
    }
}

/// Every per-measurement factor is nonnegative and clipped.
pub proof fn lemma_meas_factor_nonneg(
    m: Measurement,
    pose: Pose,
    cells: Seq<Point>,
    cs: int,
    n: int,
)
    ensures
        0 <= meas_factor_s(m, pose, cells, cs, n) <= LIMIT as int,
{
    let zw = meas_point_s(m, pose);
    if !(m.distance as int >= Z_MAX as int) && index_ok(cs, n, zw.x as int) && index_ok(
        cs,
        n,
        zw.y as int,
    ) {
        let zm = cell_point(index_s(cs, n, zw.x as int), index_s(cs, n, zw.y as int));
        let md = min_dist_s(cells, zm, cells.len() as int);
        lemma_prob_normal_nonneg(md, VAR_HIT as int);
        crate::math::utils::lemma_fmul_s_nonneg(Z_HIT as int, prob_normal_s(md, VAR_HIT as int));
        lemma_fdiv_s_nonneg(Z_RAND as int, Z_MAX as int);
    }
}

/// The likelihood of any prefix of a scan is nonnegative and clipped.
pub proof fn lemma_likelihood_nonneg(
    ms: Seq<Measurement>,
    pose: Pose,
    cells: Seq<Point>,
    cs: int,
    n: int,
    k: int,
)
    ensures
        0 <= likelihood_s(ms, pose, cells, cs, n, k) <= LIMIT as int,
    decreases k,
{
    if k > 0 {
        lemma_likelihood_nonneg(ms, pose, cells, cs, n, k - 1);
        lemma_meas_factor_nonneg(ms[k - 1], pose, cells, cs, n);
        crate::math::utils::lemma_fmul_s_nonneg(
            likelihood_s(ms, pose, cells, cs, n, k - 1),
            meas_factor_s(ms[k - 1], pose, cells, cs, n),
        );
    } else {
        assert(likelihood_s(ms, pose, cells, cs, n, k) == SCALE as int);
    }
}

/// The measurement-model score of a scan against a map from a pose,
/// evaluated: the product over the in-range measurements of the
/// likelihood-field mixture at their distance to the nearest occupied
/// cell.
pub fn likelihood_field_range_finder_model(scan: &Scan, curr_sampled_pose: &Pose, prev_gridmap: &GridMap) -> (r: Scalar)
    requires
        prev_gridmap.wf(),
    ensures
        r as int == likelihood_s(
            scan.measurements@,
            *curr_sampled_pose,
            occ_all_s(prev_gridmap.grid(), prev_gridmap.size_spec(), prev_gridmap.size_spec()),
            prev_gridmap.cell_size_spec(),
            prev_gridmap.size_spec(),
            scan.measurements@.len() as int,
        ),
        0 <= r,
{
    let occupied = prev_gridmap.get_all_occupied_cells();
    let n_cells = occupied.size();
    let mut q: Scalar = SCALE;
    let mut k: usize = 0;
    let ghost cs = prev_gridmap.cell_size_spec();
    let ghost n = prev_gridmap.size_spec();
    while k < scan.measurements.len()
        invariant
            k <= scan.measurements@.len(),
            prev_gridmap.wf(),
            n_cells == occupied@.len(),
            cs == prev_gridmap.cell_size_spec(),
            n == prev_gridmap.size_spec(),
            q as int == likelihood_s(scan.measurements@, *curr_sampled_pose, occupied@, cs, n, k as int),
            0 <= q,
        decreases scan.measurements@.len() - k,
    {
        let m = scan.measurements[k];
        let factor: Scalar = if m.distance >= Z_MAX {
            SCALE
        } else {
            let zw = m.to_point(curr_sampled_pose);
            match prev_gridmap.world_to_map(zw) {
                Some((ix, iy)) => {
                    let zm = Point::new((ix as i64) * SCALE, (iy as i64) * SCALE);
                    assert(ix as i64 * SCALE == (ix as int * SCALE as int) as i64
                        && iy as i64 * SCALE == (iy as int * SCALE as int) as i64)
                        by (nonlinear_arith)
                        requires
                            0 <= ix < 0x10000,
                            0 <= iy < 0x10000,
                            SCALE == 65536,
                    ;
                    let mut md: Scalar = MIN_DIST_INIT;
                    let mut c: usize = 0;
                    while c < n_cells
                        invariant
                            c <= n_cells,
                            n_cells == occupied@.len(),
                            md as int == min_dist_s(occupied@, zm, c as int),
                        decreases n_cells - c,
                    {
                        let d = occupied.get(c).dist_to_point(zm);
                        if d < md {
                            md = d;
                        }
                        c = c + 1;
                    }
                    fadd(
                        fmul(Z_HIT, prob_normal_distribution(md, VAR_HIT)),
                        fdiv(Z_RAND, Z_MAX),
                    )
                },
                None => SCALE,
            }
        };
        proof {
            assert(factor as int == meas_factor_s(scan.measurements@[k as int], *curr_sampled_pose, occupied@, cs, n));
            if q >= 0 && factor >= 0 {
                crate::math::utils::lemma_fmul_s_nonneg(q as int, factor as int);
            }
            lemma_prob_normal_nonneg(0, VAR_HIT as int);
            lemma_fdiv_s_nonneg(Z_RAND as int, Z_MAX as int);
        }
        assert(factor >= 0) by {
            if !(scan.measurements@[k as int].distance as int >= Z_MAX as int) {
                let zw = meas_point_s(scan.measurements@[k as int], *curr_sampled_pose);
                if index_ok(cs, n, zw.x as int) && index_ok(cs, n, zw.y as int) {
                    let zm = cell_point(index_s(cs, n, zw.x as int), index_s(cs, n, zw.y as int));
                    let mdv = min_dist_s(occupied@, zm, occupied@.len() as int);
                    lemma_prob_normal_nonneg(mdv, VAR_HIT as int);
                    crate::math::utils::lemma_fmul_s_nonneg(
                        Z_HIT as int,
                        prob_normal_s(mdv, VAR_HIT as int),
                    );
                    lemma_fdiv_s_nonneg(Z_RAND as int, Z_MAX as int);
                }
            }
        }
        q = fmul(q, factor);
        k = k + 1;
    }
    q
}

} // verus!
