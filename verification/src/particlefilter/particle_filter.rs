use vstd::prelude::*;

use crate::math::scalar::{Scalar, SCALE, LIMIT, fadd, fadd_s, fsub, fsub_s, fmul, fmul_s, fdiv, fdiv_s, fsqrt_s};
use crate::math::utils::lemma_fmul_s_nonneg;
use crate::geometry::point::Point;
use crate::gridmap::{GridMap, occ_all_s};
use crate::odometry::pose::Pose;
use crate::odometry::twist::Twist;
use crate::odometry::motion_model::sample_motion_model_velocity;
use crate::particlefilter::particle::Particle;
use crate::particlefilter::probabilistic_models::{likelihood_field_range_finder_model, likelihood_s, lemma_likelihood_nonneg, lemma_motion_model_nonneg, motion_model_velocity, motion_model_s};
use crate::particlefilter::resampling::{low_variance_sampler, sum_weights_s, weights_nonneg};
use crate::pointcloud::PointCloud;
use crate::scanmatching::icp::icp;
use crate::sensor::laserscanner::{Measurement, Scan};
use crate::sensor::noise::gaussian;

verus! {

/// The sum of the squared weights of the first `i` particles.
pub open spec fn sum_sq_weights_s(ps: Seq<Particle>, i: int) -> int
    decreases i,
{
    if i <= 0 {
        0
    } else {
        sum_sq_weights_s(ps, i - 1) + ps[i - 1].weight * ps[i - 1].weight
    }
}

/// All particles carry the same weight.
pub open spec fn all_weights_equal(ps: Seq<Particle>) -> bool {
    forall|a: int| 0 <= a < ps.len() ==> #[trigger] ps[a].weight == ps[0].weight
}

/// The first `i` particles carry the same weight.
pub open spec fn prefix_weights_equal(ps: Seq<Particle>, i: int) -> bool {
    forall|a: int| 0 <= a < i ==> #[trigger] ps[a].weight == ps[0].weight
}

/// The effective sample size, in scalar units: the squared total
/// weight over the total squared weight.
pub open spec fn neff_s(ps: Seq<Particle>) -> int {
    (SCALE * sum_weights_s(ps, ps.len() as int) * sum_weights_s(ps, ps.len() as int))
        / sum_sq_weights_s(ps, ps.len() as int)
}

/// Equal weights sum to the count times the common weight.
proof fn lemma_sum_of_equal(ps: Seq<Particle>, i: int)
    requires
        ps.len() >= 1,
        0 <= i <= ps.len(),
        prefix_weights_equal(ps, i),
    ensures
        sum_weights_s(ps, i) == i * ps[0].weight,
        sum_sq_weights_s(ps, i) == i * (ps[0].weight * ps[0].weight),
    decreases i,
{
    if i > 0 {
        lemma_sum_of_equal(ps, i - 1);
        assert(ps[i - 1].weight == ps[0].weight);
        assert((i - 1) * ps[0].weight + ps[0].weight == i * ps[0].weight) by (nonlinear_arith);
        assert((i - 1) * (ps[0].weight * ps[0].weight) + ps[0].weight * ps[0].weight == i * (
        ps[0].weight * ps[0].weight)) by (nonlinear_arith);
    }
}

/// Weights at least one square to at least themselves, so a positive
/// total weight forces a positive total square.
proof fn lemma_sumsq_ge_sum(ps: Seq<Particle>, i: int)
    requires
        weights_nonneg(ps),
        0 <= i <= ps.len(),
    ensures
        sum_sq_weights_s(ps, i) >= sum_weights_s(ps, i),
        sum_sq_weights_s(ps, i) >= 0,
    decreases i,
{
    if i > 0 {
        lemma_sumsq_ge_sum(ps, i - 1);
        assert(ps[i - 1].weight * ps[i - 1].weight >= ps[i - 1].weight) by (nonlinear_arith)
            requires
                ps[i - 1].weight >= 0,
        ;
    }
}

/// The squared sum dominates the sum of squares.
proof fn lemma_sq_sum_ge(ps: Seq<Particle>, i: int)
    requires
        weights_nonneg(ps),
        0 <= i <= ps.len(),
    ensures
        sum_weights_s(ps, i) * sum_weights_s(ps, i) >= sum_sq_weights_s(ps, i),
        sum_weights_s(ps, i) >= 0,
    decreases i,
{
    if i > 0 {
        lemma_sq_sum_ge(ps, i - 1);
        let s = sum_weights_s(ps, i - 1);
        let x = ps[i - 1].weight;
        assert((s + x) * (s + x) >= s * s + x * x) by (nonlinear_arith)
            requires
                s >= 0,
                x >= 0,
        ;
    }
}

/// The Cauchy-Schwarz bound over the weights: the squared sum is at
/// most the count times the sum of squares, with equality exactly for
/// equal weights.
proof fn lemma_cauchy_schwarz(ps: Seq<Particle>, i: int)
    requires
        weights_nonneg(ps),
        0 <= i <= ps.len(),
    ensures
        sum_weights_s(ps, i) * sum_weights_s(ps, i) <= i * sum_sq_weights_s(ps, i),
        (sum_weights_s(ps, i) * sum_weights_s(ps, i) == i * sum_sq_weights_s(ps, i) && i >= 1)
            ==> prefix_weights_equal(ps, i),
        prefix_weights_equal(ps, i) ==> sum_weights_s(ps, i) * sum_weights_s(ps, i) == i
            * sum_sq_weights_s(ps, i),
    decreases i,
{
    if i == 0 {
    } else if i == 1 {
        assert(sum_weights_s(ps, 0) == 0);
        assert(sum_sq_weights_s(ps, 0) == 0);
        assert(sum_weights_s(ps, 1) == ps[0].weight);
        assert(sum_sq_weights_s(ps, 1) == ps[0].weight * ps[0].weight);
        assert(ps[0].weight * ps[0].weight == 1 * (ps[0].weight * ps[0].weight))
            by (nonlinear_arith);
    } else {
        lemma_cauchy_schwarz(ps, i - 1);
        lemma_sq_sum_ge(ps, i - 1);
        lemma_sumsq_ge_sum(ps, i - 1);
        let n = i - 1;
        let s = sum_weights_s(ps, n);
        let q = sum_sq_weights_s(ps, n);
        let x = ps[n].weight;
        assert(n * (n * (x * x) + q - 2 * s * x) == (n * x - s) * (n * x - s) + (n * q - s * s))
            by (nonlinear_arith);
        assert((n * x - s) * (n * x - s) >= 0) by (nonlinear_arith);
        assert(n * (x * x) + q - 2 * s * x >= 0) by (nonlinear_arith)
            requires
                n >= 1,
                n * (n * (x * x) + q - 2 * s * x) == (n * x - s) * (n * x - s) + (n * q - s * s),
                (n * x - s) * (n * x - s) >= 0,
                n * q - s * s >= 0,
        ;
        assert((s + x) * (s + x) == s * s + 2 * s * x + x * x) by (nonlinear_arith);
        assert((n + 1) * (q + x * x) == n * q + n * (x * x) + q + x * x) by (nonlinear_arith);
        // so (n+1)(q + x^2) - (s+x)^2 == (n q - s^2) + (n x^2 + q - 2 s x) >= 0
        if sum_weights_s(ps, i) * sum_weights_s(ps, i) == i * sum_sq_weights_s(ps, i) {
            // both gaps vanish: the prefix was equal and the new
            // weight matches it
            assert(n * q - s * s == 0 && n * (x * x) + q - 2 * s * x == 0);
            assert((n * x - s) * (n * x - s) == 0) by (nonlinear_arith)
                requires
                    n * (n * (x * x) + q - 2 * s * x) == (n * x - s) * (n * x - s) + (n * q - s
                        * s),
                    n * (x * x) + q - 2 * s * x == 0,
                    n * q - s * s == 0,
            ;
            assert(n * x == s) by (nonlinear_arith)
                requires
                    (n * x - s) * (n * x - s) == 0,
            ;
            assert(prefix_weights_equal(ps, n));
            lemma_sum_of_equal(ps, n);
            assert(s == n * ps[0].weight);
            assert(x == ps[0].weight) by (nonlinear_arith)
                requires
                    n * x == s,
                    s == n * ps[0].weight,
                    n >= 1,
            ;
            assert(prefix_weights_equal(ps, i));
        }
        if prefix_weights_equal(ps, i) {
            assert(prefix_weights_equal(ps, n));
            lemma_sum_of_equal(ps, n);
            assert(x == ps[0].weight);
            assert((n * ps[0].weight + x) * (n * ps[0].weight + x) == (n + 1) * (n * (
            ps[0].weight * ps[0].weight) + x * x)) by (nonlinear_arith)
                requires
                    x == ps[0].weight,
            ;
        }
    }
}

/// A sum over a prefix equals the sum over the taken prefix.
proof fn lemma_sum_take(ps: Seq<Particle>, n: int, i: int)
    requires
        0 <= i <= n <= ps.len(),
    ensures
        sum_weights_s(ps.take(n), i) == sum_weights_s(ps, i),
        sum_sq_weights_s(ps.take(n), i) == sum_sq_weights_s(ps, i),
    decreases i,
{
    if i > 0 {
        lemma_sum_take(ps, n, i - 1);
    }
}

/// A pose drawn around a mean with per-axis deviations: each
/// component is the mean plus the deviation times a factor of
/// magnitude at most six.
pub open spec fn pose_sample_ok(p: Pose, mean: Pose, std_dev: Pose) -> bool {
    &&& (exists|z: int|
        -(6 * SCALE as int) <= z <= 6 * SCALE as int && p.position.x as int == fadd_s(
            mean.position.x as int,
            fmul_s(std_dev.position.x as int, z),
        ))
    &&& (exists|z: int|
        -(6 * SCALE as int) <= z <= 6 * SCALE as int && p.position.y as int == fadd_s(
            mean.position.y as int,
            fmul_s(std_dev.position.y as int, z),
        ))
    &&& (exists|z: int|
        -(6 * SCALE as int) <= z <= 6 * SCALE as int && p.heading as int == fadd_s(
            mean.heading as int,
            fmul_s(std_dev.heading as int, z),
        ))
}

/// The score a sampled pose earns: its measurement likelihood times
/// its motion-model score.
pub open spec fn sample_score_s(
    x: Pose,
    prev: Pose,
    gain: Twist,
    dt: int,
    ms: Seq<Measurement>,
    cells: Seq<Point>,
    cs: int,
    n: int,
) -> int {
    fmul_s(likelihood_s(ms, x, cells, cs, n, ms.len() as int), motion_model_s(x, prev, gain, dt))
}

/// The normalizer over the first `k` sampled poses: the sum of their
/// scores.
pub open spec fn eta_s(
    xs: Seq<Pose>,
    prev: Pose,
    gain: Twist,
    dt: int,
    ms: Seq<Measurement>,
    cells: Seq<Point>,
    cs: int,
    n: int,
    k: int,
) -> int
    decreases k,
{
    if k <= 0 {
        0
    } else {
        fadd_s(
            eta_s(xs, prev, gain, dt, ms, cells, cs, n, k - 1),
            sample_score_s(xs[k - 1], prev, gain, dt, ms, cells, cs, n),
        )
    }
}

/// The normalizer is nonnegative and clipped.
pub proof fn lemma_eta_nonneg(
    xs: Seq<Pose>,
    prev: Pose,
    gain: Twist,
    dt: int,
    ms: Seq<Measurement>,
    cells: Seq<Point>,
    cs: int,
    n: int,
    k: int,
)
    ensures
        0 <= eta_s(xs, prev, gain, dt, ms, cells, cs, n, k) <= LIMIT as int,
    decreases k,
{
    if k > 0 {
        lemma_eta_nonneg(xs, prev, gain, dt, ms, cells, cs, n, k - 1);
        lemma_likelihood_nonneg(ms, xs[k - 1], cells, cs, n, ms.len() as int);
        lemma_motion_model_nonneg(xs[k - 1], prev, gain, dt);
        lemma_fmul_s_nonneg(
            likelihood_s(ms, xs[k - 1], cells, cs, n, ms.len() as int),
            motion_model_s(xs[k - 1], prev, gain, dt),
        );
    }
}


/// The score-weighted component sums of the first `k` sampled poses.
pub open spec fn mu_s(
    xs: Seq<Pose>,
    prev: Pose,
    gain: Twist,
    dt: int,
    ms: Seq<Measurement>,
    cells: Seq<Point>,
    cs: int,
    n: int,
    k: int,
) -> (int, int, int)
    decreases k,
{
    if k <= 0 {
        (0, 0, 0)
    } else {
        let prev3 = mu_s(xs, prev, gain, dt, ms, cells, cs, n, k - 1);
        let x = xs[k - 1];
        let pz = likelihood_s(ms, x, cells, cs, n, ms.len() as int);
        let px = motion_model_s(x, prev, gain, dt);
        (
            fadd_s(prev3.0, fmul_s(fmul_s(x.position.x as int, pz), px)),
            fadd_s(prev3.1, fmul_s(fmul_s(x.position.y as int, pz), px)),
            fadd_s(prev3.2, fmul_s(fmul_s(x.heading as int, pz), px)),
        )
    }
}

/// The score-weighted squared deviations of the first `k` sampled
/// poses around a mean pose.
pub open spec fn sigma_s(
    xs: Seq<Pose>,
    mean: Pose,
    prev: Pose,
    gain: Twist,
    dt: int,
    ms: Seq<Measurement>,
    cells: Seq<Point>,
    cs: int,
    n: int,
    k: int,
) -> (int, int, int)
    decreases k,
{
    if k <= 0 {
        (0, 0, 0)
    } else {
        let prev3 = sigma_s(xs, mean, prev, gain, dt, ms, cells, cs, n, k - 1);
        let x = xs[k - 1];
        let pz = likelihood_s(ms, x, cells, cs, n, ms.len() as int);
        let px = motion_model_s(x, prev, gain, dt);
        let dx = fsub_s(x.position.x as int, mean.position.x as int);
        let dy = fsub_s(x.position.y as int, mean.position.y as int);
        let dh = fsub_s(x.heading as int, mean.heading as int);
        (
            fadd_s(prev3.0, fmul_s(fmul_s(fmul_s(dx, dx), pz), px)),
            fadd_s(prev3.1, fmul_s(fmul_s(fmul_s(dy, dy), pz), px)),
            fadd_s(prev3.2, fmul_s(fmul_s(fmul_s(dh, dh), pz), px)),
        )
    }
}

/// The mean of the improved proposal: the weighted pose sums scaled
/// by the normalizer when it is positive.
pub open spec fn improved_mean_s(
    xs: Seq<Pose>,
    prev: Pose,
    gain: Twist,
    dt: int,
    ms: Seq<Measurement>,
    cells: Seq<Point>,
    cs: int,
    n: int,
) -> Pose {
    let eta = eta_s(xs, prev, gain, dt, ms, cells, cs, n, xs.len() as int);
    let m3 = mu_s(xs, prev, gain, dt, ms, cells, cs, n, xs.len() as int);
    if eta > 0 {
        Pose {
            position: Point {
                x: fdiv_s(m3.0, eta) as i64,
                y: fdiv_s(m3.1, eta) as i64,
            },
            heading: fdiv_s(m3.2, eta) as i64,
        }
    } else {
        Pose {
            position: Point { x: m3.0 as i64, y: m3.1 as i64 },
            heading: m3.2 as i64,
        }
    }
}

/// The per-axis spread of the improved proposal: the square root of
/// the normalized weighted variance.
pub open spec fn improved_std_s(
    xs: Seq<Pose>,
    prev: Pose,
    gain: Twist,
    dt: int,
    ms: Seq<Measurement>,
    cells: Seq<Point>,
    cs: int,
    n: int,
) -> Pose {
    let eta = eta_s(xs, prev, gain, dt, ms, cells, cs, n, xs.len() as int);
    let mean = improved_mean_s(xs, prev, gain, dt, ms, cells, cs, n);
    let s3 = sigma_s(xs, mean, prev, gain, dt, ms, cells, cs, n, xs.len() as int);
    let v3 = if eta > 0 {
        (fdiv_s(s3.0, eta), fdiv_s(s3.1, eta), fdiv_s(s3.2, eta))
    } else {
        s3
    };
    Pose {
        position: Point { x: fsqrt_s(v3.0) as i64, y: fsqrt_s(v3.1) as i64 },
        heading: fsqrt_s(v3.2) as i64,
    }
}

/// One particle's map grew out of another's: the same shape, with the
/// knowledge in every cell preserved or increased.
pub open spec fn map_grew(before: Particle, after: Particle) -> bool {
    &&& after.gridmap.size_spec() == before.gridmap.size_spec()
    &&& after.gridmap.cell_size_spec() == before.gridmap.cell_size_spec()
    &&& forall|i: int, j: int|
        0 <= i < before.gridmap.size_spec() && 0 <= j < before.gridmap.size_spec()
            ==> crate::gridmap::cell_le(
            before.gridmap.grid()[i][j],
            #[trigger] after.gridmap.grid()[i][j],
        )
}

/// Every weight is freshly reset to one over the population size.
pub open spec fn resampled_uniform(ps: Seq<Particle>) -> bool {
    forall|k: int|
        0 <= k < ps.len() ==> (#[trigger] ps[k]).weight as int == SCALE as int / ps.len() as int
}

/// The particle's map grew out of some particle of `before`.
pub open spec fn grew_from_some(before: Seq<Particle>, p: Particle) -> bool {
    exists|j: int| 0 <= j < before.len() && map_grew(before[j], p)
}

/// Every particle of `after` carries a map that grew out of some
/// particle of `before`.
pub open spec fn maps_grew_from(before: Seq<Particle>, after: Seq<Particle>) -> bool {
    forall|k: int| 0 <= k < after.len() ==> grew_from_some(before, #[trigger] after[k])
}

/// The weight moved from `before` to `after` by some nonnegative
/// scale factor.
pub open spec fn weight_scaled(before: Particle, after: Particle) -> bool {
    exists|e: int| 0 <= e && after.weight as int == fmul_s(before.weight as int, e)
}

/// Every weight of `after` is the matching weight of `before` scaled
/// by some nonnegative normalizer.
pub open spec fn weights_scaled_from(before: Seq<Particle>, after: Seq<Particle>) -> bool {
    forall|k: int| 0 <= k < after.len() ==> #[trigger] weight_scaled(before[k], after[k])
}

/// Every weight of `ps` is at most `w`.
pub open spec fn weight_dominates(ps: Seq<Particle>, w: Scalar) -> bool {
    forall|k: int| 0 <= k < ps.len() ==> (#[trigger] ps[k]).weight <= w
}

/// Pointwise map growth introduces `maps_grew_from`.
proof fn lemma_maps_grew_pointwise(before: Seq<Particle>, after: Seq<Particle>)
    requires
        before.len() == after.len(),
        forall|k: int| 0 <= k < after.len() ==> map_grew(before[k], #[trigger] after[k]),
    ensures
        maps_grew_from(before, after),
{
    assert forall|k: int| 0 <= k < after.len() implies grew_from_some(
        before,
        #[trigger] after[k],
    ) by {
        assert(map_grew(before[k], after[k]));
        assert(grew_from_some(before, after[k]));
    }
}

/// Map growth carried through a reshuffle introduces `maps_grew_from`.
proof fn lemma_maps_grew_carried(before: Seq<Particle>, mid: Seq<Particle>, after: Seq<Particle>)
    requires
        before.len() == mid.len(),
        forall|k: int| 0 <= k < mid.len() ==> map_grew(before[k], #[trigger] mid[k]),
        forall|k: int|
            0 <= k < after.len() ==> exists|j: int|
                0 <= j < mid.len() && crate::particlefilter::resampling::carried(
                    #[trigger] after[k],
                    mid[j],
                ),
    ensures
        maps_grew_from(before, after),
{
    assert forall|k: int| 0 <= k < after.len() implies grew_from_some(
        before,
        #[trigger] after[k],
    ) by {
        let j = choose|j: int|
            0 <= j < mid.len() && crate::particlefilter::resampling::carried(after[k], mid[j]);
        assert(map_grew(before[j], mid[j]));
        assert(map_grew(before[j], after[k]));
        assert(grew_from_some(before, after[k]));
    }
}

/// Pointwise nonnegative scale factors introduce `weights_scaled_from`.
proof fn lemma_weights_scaled_pointwise(before: Seq<Particle>, after: Seq<Particle>, es: Seq<int>)
    requires
        before.len() == after.len(),
        es.len() == after.len(),
        forall|k: int| 0 <= k < after.len() ==> 0 <= #[trigger] es[k],
        forall|k: int|
            0 <= k < after.len() ==> (#[trigger] after[k]).weight as int == fmul_s(
                before[k].weight as int,
                es[k],
            ),
    ensures
        weights_scaled_from(before, after),
{
    assert forall|k: int| 0 <= k < after.len() implies #[trigger] weight_scaled(
        before[k],
        after[k],
    ) by {
        assert(0 <= es[k] && after[k].weight as int == fmul_s(before[k].weight as int, es[k]));
        assert(weight_scaled(before[k], after[k]));
    }
}

/// A particle filter: a fixed-size population of map-and-pose
/// hypotheses, and the highest-weight one as the point estimate.
pub struct ParticleFilter {
    simulation: bool,
    n_particles: usize,
    particles: Vec<Particle>,
    pub best_particle: Particle,
}

impl ParticleFilter {
    /// A sound filter: a nonempty, bounded population of sound
    /// particles matching the declared count, and a sound estimate.
    pub closed spec fn wf(&self) -> bool {
        &&& self.particles@.len() == self.n_particles
        &&& 1 <= self.n_particles <= 0x10000
        &&& forall|i: int| 0 <= i < self.particles@.len() ==> (#[trigger] self.particles@[i]).wf()
        &&& self.best_particle.wf()
    }

    /// How many particles the filter carries.
    pub closed spec fn count(&self) -> int {
        self.particles@.len() as int
    }

    /// The particle population.
    pub closed spec fn population(&self) -> Seq<Particle> {
        self.particles@
    }

    /// The point estimate: the particle held as best.
    pub closed spec fn estimate(&self) -> Particle {
        self.best_particle
    }

    /// The effective particle count of a weight set, in scalar units: at
    /// least one, at most the particle count, the count exactly for equal
    /// weights and only then.
    pub fn compute_neff(particles: &Vec<Particle>) -> (r: Scalar)
    requires
        1 <= particles@.len() <= 0x10000,
        weights_nonneg(particles@),
        forall|i: int| 0 <= i < particles@.len() ==> #[trigger] particles@[i].weight <= LIMIT,
        sum_weights_s(particles@, particles@.len() as int) >= 1,
    ensures
        r as int == neff_s(particles@),
        SCALE <= r <= particles@.len() * SCALE,
        r == particles@.len() * SCALE <==> all_weights_equal(particles@),
{
    let m = particles.len();
    let ghost mm = m as int;
    proof {
        lemma_cauchy_schwarz(particles@, mm);
        lemma_sq_sum_ge(particles@, mm);
        lemma_sumsq_ge_sum(particles@, mm);
    }
    let mut sum: i128 = 0;
    let mut sumsq: i128 = 0;
    let mut t: usize = 0;
    while t < m
        invariant
            t <= m,
            m == particles@.len(),
            m <= 0x10000,
            weights_nonneg(particles@),
            forall|i: int| 0 <= i < particles@.len() ==> #[trigger] particles@[i].weight <= LIMIT,
            sum as int == sum_weights_s(particles@, t as int),
            sumsq as int == sum_sq_weights_s(particles@, t as int),
            0 <= sum as int <= t * (LIMIT as int),
            0 <= sumsq as int <= t * (LIMIT as int) * (LIMIT as int),
        decreases m - t,
    {
        let w = particles[t].weight;
        proof {
            assert((t + 1) * (LIMIT as int) == t * (LIMIT as int) + LIMIT) by (nonlinear_arith);
            assert((t + 1) * (LIMIT as int) * (LIMIT as int) == t * (LIMIT as int) * (LIMIT as int)
                + (LIMIT as int) * (LIMIT as int)) by (nonlinear_arith);
            assert(0 <= w as int * w as int <= (LIMIT as int) * (LIMIT as int))
                by (nonlinear_arith)
                requires
                    0 <= w <= LIMIT,
            ;
            assert(t * (LIMIT as int) <= 0x10000 * (LIMIT as int) && t * (LIMIT as int) * (
            LIMIT as int) <= 0x10000 * (LIMIT as int) * (LIMIT as int)) by (nonlinear_arith)
                requires
                    0 <= t <= 0x10000,
            ;
        }
        sum = sum + (w as i128);
        sumsq = sumsq + (w as i128) * (w as i128);
        t = t + 1;
    }
    let ghost stot = sum_weights_s(particles@, mm);
    let ghost qtot = sum_sq_weights_s(particles@, mm);
    proof {
        assert(m * (LIMIT as int) <= 0x10000 * (LIMIT as int) && m * (LIMIT as int) * (LIMIT as int)
            <= 0x10000 * (LIMIT as int) * (LIMIT as int)) by (nonlinear_arith)
            requires
                0 <= m <= 0x10000,
        ;
        lemma_sumsq_ge_sum(particles@, mm);
        assert(mm == particles@.len() as int);
        assert(stot == sum_weights_s(particles@, particles@.len() as int));
        assert(stot >= 1);
        assert(qtot >= stot);
        assert(qtot >= 1);
        assert(sum as int <= 0x4000_0000_0000_0000) by (nonlinear_arith)
            requires
                sum as int <= m * (LIMIT as int),
                0 <= m <= 0x10000,
                LIMIT == 0x4000_0000_0000,
        ;
        vstd::arithmetic::mul::lemma_mul_upper_bound(
            sum as int,
            0x4000_0000_0000_0000,
            sum as int,
            0x4000_0000_0000_0000,
        );
        assert(0x4000_0000_0000_0000 * 0x4000_0000_0000_0000
            == 0x1000_0000_0000_0000_0000_0000_0000_0000) by (nonlinear_arith);
        assert(sum as int * sum as int <= 0x1000_0000_0000_0000_0000_0000_0000_0000);
    }
    let num: i128 = sum * sum;
    let a: i128 = num / sumsq;
    proof {
        vstd::arithmetic::div_mod::lemma_fundamental_div_mod(num as int, sumsq as int);
        vstd::arithmetic::div_mod::lemma_mod_bound(num as int, sumsq as int);
        assert(num as int == sumsq as int * (num as int / sumsq as int) + num as int % sumsq as int);
        assert(a as int * sumsq as int == sumsq as int * (num as int / sumsq as int))
            by (nonlinear_arith)
            requires
                a as int == num as int / sumsq as int,
        ;
        vstd::arithmetic::div_mod::lemma_div_pos_is_pos(num as int, sumsq as int);
    }
    let rem: i128 = num - a * sumsq;
    proof {
        assert(rem as int == num as int % sumsq as int);
        assert(a as int <= mm) by {
            assert(num as int <= mm * qtot);
            vstd::arithmetic::div_mod::lemma_div_is_ordered(num as int, mm * qtot, qtot);
            vstd::arithmetic::div_mod::lemma_div_by_multiple(mm, qtot);
            assert(mm * qtot == qtot * mm) by (nonlinear_arith);
        }
    }
    let scaled_rem: i128 = rem * (SCALE as i128);
    let frac: i128 = scaled_rem / sumsq;
    proof {
        vstd::arithmetic::div_mod::lemma_div_pos_is_pos(scaled_rem as int, sumsq as int);
        assert((scaled_rem as int) < sumsq as int * SCALE as int) by (nonlinear_arith)
            requires
                (rem as int) < sumsq as int,
                scaled_rem as int == rem as int * SCALE as int,
                sumsq as int >= 1,
                SCALE == 65536,
        ;
        vstd::arithmetic::div_mod::lemma_multiply_divide_lt(
            scaled_rem as int,
            sumsq as int,
            SCALE as int,
        );
        assert(0 <= frac as int && (frac as int) < SCALE as int);
    }
    let r128: i128 = a * (SCALE as i128) + frac;
    proof {
        // the scaled quotient splits into the whole part and the
        // scaled remainder's quotient
        vstd::arithmetic::div_mod::lemma_fundamental_div_mod(scaled_rem as int, sumsq as int);
        vstd::arithmetic::div_mod::lemma_mod_bound(scaled_rem as int, sumsq as int);
        let fr = scaled_rem as int % sumsq as int;
        assert((SCALE as int) * num as int == sumsq as int * (a as int * SCALE as int
            + frac as int) + fr) by (nonlinear_arith)
            requires
                num as int == a as int * sumsq as int + rem as int,
                scaled_rem as int == rem as int * SCALE as int,
                scaled_rem as int == sumsq as int * frac as int + fr,
        ;
        vstd::arithmetic::div_mod::lemma_fundamental_div_mod_converse(
            (SCALE as int) * num as int,
            sumsq as int,
            a as int * SCALE as int + frac as int,
            fr,
        );
        assert(r128 as int == (SCALE as int * stot * stot) / qtot) by {
            assert(SCALE as int * num as int == SCALE as int * stot * stot) by (nonlinear_arith)
                requires
                    num as int == stot * stot,
            ;
        }
        // the bounds
        lemma_sq_sum_ge(particles@, mm);
        lemma_cauchy_schwarz(particles@, mm);
        assert(SCALE as int * qtot <= SCALE as int * num as int <= SCALE as int * (mm * qtot))
            by (nonlinear_arith)
            requires
                qtot <= num as int <= mm * qtot,
                SCALE == 65536,
        ;
        vstd::arithmetic::div_mod::lemma_div_is_ordered(
            SCALE as int * qtot,
            SCALE as int * num as int,
            qtot,
        );
        vstd::arithmetic::div_mod::lemma_div_is_ordered(
            SCALE as int * num as int,
            SCALE as int * (mm * qtot),
            qtot,
        );
        vstd::arithmetic::div_mod::lemma_div_by_multiple(SCALE as int, qtot);
        assert(SCALE as int * qtot == SCALE as int * qtot);
        vstd::arithmetic::div_mod::lemma_div_by_multiple(SCALE as int * mm, qtot);
        assert(SCALE as int * (mm * qtot) == (SCALE as int * mm) * qtot) by (nonlinear_arith);
        assert(SCALE as int <= r128 as int <= mm * SCALE as int) by {
            assert((SCALE as int * qtot) / qtot == SCALE as int);
            assert(((SCALE as int * mm) * qtot) / qtot == SCALE as int * mm);
        }
        // the count is reached exactly for equal weights
        if r128 as int == mm * SCALE as int {
            assert(frac as int == (mm - a as int) * SCALE as int) by (nonlinear_arith)
                requires
                    r128 as int == a as int * SCALE as int + frac as int,
                    r128 as int == mm * SCALE as int,
            ;
            assert(a as int == mm) by (nonlinear_arith)
                requires
                    frac as int == (mm - a as int) * SCALE as int,
                    0 <= frac as int && (frac as int) < SCALE as int,
                    a as int <= mm,
            ;
            assert(frac as int == 0) by (nonlinear_arith)
                requires
                    frac as int == (mm - a as int) * SCALE as int,
                    a as int == mm,
            ;
            assert(num as int <= mm * sumsq as int);
            assert(rem as int == 0) by (nonlinear_arith)
                requires
                    num as int == a as int * sumsq as int + rem as int,
                    a as int == mm,
                    num as int <= mm * sumsq as int,
                    0 <= rem as int,
            ;
            assert(stot * stot == mm * qtot) by (nonlinear_arith)
                requires
                    num as int == a as int * sumsq as int + rem as int,
                    rem as int == 0,
                    a as int == mm,
                    num as int == stot * stot,
                    sumsq as int == qtot,
            ;
            assert(prefix_weights_equal(particles@, mm));
            assert(all_weights_equal(particles@));
        }
        if all_weights_equal(particles@) {
            assert(prefix_weights_equal(particles@, mm));
            assert(stot * stot == mm * qtot);
            assert(rem as int == 0 && a as int == mm) by {
                vstd::arithmetic::div_mod::lemma_div_by_multiple(mm, qtot);
                assert(num as int == mm * qtot);
                assert(mm * qtot == qtot * mm) by (nonlinear_arith);
            }
            assert(scaled_rem as int == 0);
            assert(frac as int == 0) by {
                vstd::arithmetic::div_mod::lemma_div_of0(sumsq as int);
            }
            assert(r128 as int == mm * SCALE as int) by (nonlinear_arith)
                requires
                    r128 as int == a as int * SCALE as int + frac as int,
                    a as int == mm,
                    frac as int == 0,
            ;
        }
    }
    r128 as i64
}

    /// Draw candidate poses around a mean, one per slot, with per-axis
    /// spreads.
    pub fn sample_distribution(mean: &Pose, std_dev: Pose, k: usize) -> (r: Vec<Pose>)
    ensures
        r@.len() == k,
        forall|i: int| 0 <= i < k ==> pose_sample_ok(#[trigger] r@[i], *mean, std_dev),
{
    let mut samples: Vec<Pose> = Vec::new();
    let mut t: usize = 0;
    while t < k
        invariant
            t <= k,
            samples@.len() == t,
            forall|i: int| 0 <= i < t ==> pose_sample_ok(#[trigger] samples@[i], *mean, std_dev),
        decreases k - t,
    {
        let x = gaussian(mean.position.x, std_dev.position.x);
        let y = gaussian(mean.position.y, std_dev.position.y);
        let theta = gaussian(mean.heading, std_dev.heading);
        let p = Pose { position: Point { x, y }, heading: theta };
        samples.push(p);
        proof {
            assert(pose_sample_ok(p, *mean, std_dev));
        }
        t = t + 1;
    }
    samples
}

    /// The particle whose weight is highest; the earliest one on ties.
    fn get_highest_weight_particle(particles: &Vec<Particle>) -> (r: Particle)
    requires
        particles@.len() >= 1,
    ensures
        exists|j: int|
            0 <= j < particles@.len() && crate::particlefilter::resampling::carried(
                r,
                #[trigger] particles@[j],
            ) && r.weight == particles@[j].weight,
        forall|i: int| 0 <= i < particles@.len() ==> #[trigger] particles@[i].weight <= r.weight,
{
    let mut best: usize = 0;
    let mut i: usize = 1;
    while i < particles.len()
        invariant
            1 <= i <= particles@.len(),
            best < i,
            forall|j: int| 0 <= j < i ==> #[trigger] particles@[j].weight <= particles@[best as int].weight,
        decreases particles@.len() - i,
    {
        if particles[i].weight > particles[best].weight {
            best = i;
        }
        i = i + 1;
    }
    let r = particles[best].clone();
    proof {
        assert(crate::particlefilter::resampling::carried(r, particles@[best as int]));
    }
    r
    }

    /// Draw the particle's next pose from the improved proposal: score
    /// candidate poses by motion and measurement model, accumulate the
    /// weighted mean and variance, and draw once around them. Returns
    /// the draw and the normalizer (the summed scores).
    #[verifier::rlimit(100)]
    fn improved_proposal(
        sampled_poses: &Vec<Pose>,
        prev_particle_pose: &Pose,
        prev_gridmap: &GridMap,
        scan: &Scan,
        gain: &Twist,
        dt: Scalar,
    ) -> (r: (Pose, Scalar))
        requires
            prev_gridmap.wf(),
        ensures
            ({
                let cells = occ_all_s(
                    prev_gridmap.grid(),
                    prev_gridmap.size_spec(),
                    prev_gridmap.size_spec(),
                );
                let cs = prev_gridmap.cell_size_spec();
                let n = prev_gridmap.size_spec();
                let xs = sampled_poses@;
                let ms = scan.measurements@;
                r.1 as int == eta_s(
                    xs,
                    *prev_particle_pose,
                    *gain,
                    dt as int,
                    ms,
                    cells,
                    cs,
                    n,
                    xs.len() as int,
                ) && 0 <= r.1 <= LIMIT && pose_sample_ok(
                    r.0,
                    improved_mean_s(xs, *prev_particle_pose, *gain, dt as int, ms, cells, cs, n),
                    improved_std_s(xs, *prev_particle_pose, *gain, dt as int, ms, cells, cs, n),
                )
            }),
    {
        let ghost cells = occ_all_s(
            prev_gridmap.grid(),
            prev_gridmap.size_spec(),
            prev_gridmap.size_spec(),
        );
        let ghost csg = prev_gridmap.cell_size_spec();
        let ghost ng = prev_gridmap.size_spec();
        let ghost xs = sampled_poses@;
        let ghost ms = scan.measurements@;

        let kn = sampled_poses.len();
        let mut eta: Scalar = 0;
        let mut mux: Scalar = 0;
        let mut muy: Scalar = 0;
        let mut muh: Scalar = 0;
        let mut cache: Vec<(Pose, Scalar, Scalar)> = Vec::new();
        let mut t: usize = 0;
        while t < kn
            invariant
                t <= kn,
                kn == xs.len(),
                xs == sampled_poses@,
                ms == scan.measurements@,
                prev_gridmap.wf(),
                cells == occ_all_s(
                    prev_gridmap.grid(),
                    prev_gridmap.size_spec(),
                    prev_gridmap.size_spec(),
                ),
                csg == prev_gridmap.cell_size_spec(),
                ng == prev_gridmap.size_spec(),
                eta as int == eta_s(xs, *prev_particle_pose, *gain, dt as int, ms, cells, csg, ng, t as int),
                (mux as int, muy as int, muh as int) == mu_s(
                    xs,
                    *prev_particle_pose,
                    *gain,
                    dt as int,
                    ms,
                    cells,
                    csg,
                    ng,
                    t as int,
                ),
                cache@.len() == t,
                forall|i: int|
                    0 <= i < t ==> #[trigger] cache@[i] == (
                        xs[i],
                        likelihood_s(ms, xs[i], cells, csg, ng, ms.len() as int) as i64,
                        motion_model_s(xs[i], *prev_particle_pose, *gain, dt as int) as i64,
                    ),
            decreases kn - t,
        {
            let x = sampled_poses[t];
            let p_x = motion_model_velocity(&x, prev_particle_pose, gain, dt);
            let p_z = likelihood_field_range_finder_model(scan, &x, prev_gridmap);
            proof {
                lemma_likelihood_nonneg(ms, x, cells, csg, ng, ms.len() as int);
            }
            eta = fadd(eta, fmul(p_z, p_x));
            mux = fadd(mux, fmul(fmul(x.position.x, p_z), p_x));
            muy = fadd(muy, fmul(fmul(x.position.y, p_z), p_x));
            muh = fadd(muh, fmul(fmul(x.heading, p_z), p_x));
            cache.push((x, p_z, p_x));
            t = t + 1;
        }
        proof {
            lemma_eta_nonneg(xs, *prev_particle_pose, *gain, dt as int, ms, cells, csg, ng, kn as int);
        }

        // normalize the mean by the normalizer when it is positive
        let mean = if eta > 0 {
            Pose {
                position: Point { x: fdiv(mux, eta), y: fdiv(muy, eta) },
                heading: fdiv(muh, eta),
            }
        } else {
            Pose { position: Point { x: mux, y: muy }, heading: muh }
        };
        proof {
            assert(mean == improved_mean_s(xs, *prev_particle_pose, *gain, dt as int, ms, cells, csg, ng));
        }

        // the weighted variance around the mean
        let mut sx: Scalar = 0;
        let mut sy: Scalar = 0;
        let mut sh: Scalar = 0;
        let mut t2: usize = 0;
        while t2 < kn
            invariant
                t2 <= kn,
                kn == xs.len(),
                cache@.len() == kn,
                forall|i: int|
                    0 <= i < kn ==> #[trigger] cache@[i] == (
                        xs[i],
                        likelihood_s(ms, xs[i], cells, csg, ng, ms.len() as int) as i64,
                        motion_model_s(xs[i], *prev_particle_pose, *gain, dt as int) as i64,
                    ),
                (sx as int, sy as int, sh as int) == sigma_s(
                    xs,
                    mean,
                    *prev_particle_pose,
                    *gain,
                    dt as int,
                    ms,
                    cells,
                    csg,
                    ng,
                    t2 as int,
                ),
            decreases kn - t2,
        {
            let entry = cache[t2];
            let x = entry.0;
            let p_z = entry.1;
            let p_x = entry.2;
            proof {
                lemma_likelihood_nonneg(ms, xs[t2 as int], cells, csg, ng, ms.len() as int);
                lemma_motion_model_nonneg(xs[t2 as int], *prev_particle_pose, *gain, dt as int);
            }
            let dx = fsub(x.position.x, mean.position.x);
            let dy = fsub(x.position.y, mean.position.y);
            let dh = fsub(x.heading, mean.heading);
            sx = fadd(sx, fmul(fmul(fmul(dx, dx), p_z), p_x));
            sy = fadd(sy, fmul(fmul(fmul(dy, dy), p_z), p_x));
            sh = fadd(sh, fmul(fmul(fmul(dh, dh), p_z), p_x));
            t2 = t2 + 1;
        }
        let var = if eta > 0 {
            Pose {
                position: Point { x: fdiv(sx, eta), y: fdiv(sy, eta) },
                heading: fdiv(sh, eta),
            }
        } else {
            Pose { position: Point { x: sx, y: sy }, heading: sh }
        };
        let std_dev = var.sqrt();
        proof {
            assert(std_dev == improved_std_s(xs, *prev_particle_pose, *gain, dt as int, ms, cells, csg, ng));
        }

        // one draw around the improved mean
        let draws = ParticleFilter::sample_distribution(&mean, std_dev, 1);
        let improved = draws[0];
        (improved, eta)
    }

    /// Advance one particle by one filter step: propose from the
    /// motion model, correct by scan matching against the cached
    /// cloud, draw the improved pose, reweight by the normalizer, and
    /// fold the scan into the particle's own map.
    #[verifier::rlimit(100)]
    fn advance_particle(p: &mut Particle, scan: &Scan, gain: &Twist, dt: Scalar) -> (eta: Scalar)
        requires
            old(p).wf(),
        ensures
            final (p).wf(),
            map_grew(*old(p), *final (p)),
            0 <= eta,
            final (p).weight as int == fmul_s(old(p).weight as int, eta as int),
    {
            // propose from the motion model
        let motion_model_pose = sample_motion_model_velocity(&p.pose, gain, dt, true);

        // correct against the cached previous observation
        let curr_pointcloud = scan.to_pointcloud(&motion_model_pose);
        let scan_match_pose = if p.prev_pointcloud.size() >= 1 && p.prev_pointcloud.size()
            == curr_pointcloud.size() {
            let pose_correction = icp(&curr_pointcloud, &p.prev_pointcloud, 20, 7);
            p.prev_pose_correction = pose_correction;
            motion_model_pose.add(pose_correction)
        } else {
            motion_model_pose
        };

        // spread the candidates in proportion to the motion
        let translational_range = fmul(fmul(gain.velocity.x, dt), 6554);
        let angular_range = fmul(fmul(gain.angular, dt), 6554);
        let std_dev_sampling = Pose::new(
            Point::new(translational_range, translational_range),
            angular_range,
        );
        let pose_samples = ParticleFilter::sample_distribution(&scan_match_pose, std_dev_sampling, 30);

        // weight and draw the improved pose
        let (improved_pose, eta) = ParticleFilter::improved_proposal(
            &pose_samples,
            &p.pose,
            &p.gridmap,
            scan,
            gain,
            dt,
        );

        // update the particle's weight, map, pose and cache
        proof {
            crate::math::utils::lemma_fmul_s_nonneg(p.weight as int, eta as int);
        }
        p.weight = fmul(p.weight, eta);
        p.gridmap.update(&improved_pose, scan);
        p.pose = improved_pose;
        p.prev_pointcloud = curr_pointcloud;
        proof {
            assert(map_grew(*old(p), *p));
        }
        eta
    }

    /// Advance the filter one step with the latest scan and command,
    /// using one simulated second per step: propose by the motion
    /// model, correct by scan matching against each particle's cached
    /// cloud, reweight by the improved proposal's normalizer, fold the
    /// scan into each particle's own map, pick the heaviest particle
    /// as the estimate, and resample when the effective count falls
    /// below half the population.
    #[verifier::rlimit(100)]
    #[verifier::spinoff_prover]
    pub fn cycle(&mut self, scan: &Scan, gain: &Twist)
        requires
            old(self).wf(),
        ensures
            final (self).wf(),
            final (self).count() == old(self).count(),
            // every surviving map grew out of some pre-cycle particle's
            // map: knowledge is never erased
            maps_grew_from(old(self).population(), final (self).population()),
            // the estimate dominates the weights it was drawn from,
            // unless the population was just resampled to uniform ones
            weight_dominates(final (self).population(), final (self).estimate().weight)
                || resampled_uniform(final (self).population()),
            // each weight is its old weight scaled by some nonnegative
            // normalizer, unless the resample reset them
            weights_scaled_from(old(self).population(), final (self).population())
                || resampled_uniform(final (self).population()),
            // the resample check: fresh uniform weights, or diversity at
            // or above half the population, or a vanished total weight
            resampled_uniform(final (self).population()) || neff_s(final (self).population()) >= (
            final (self).count() * SCALE) / 2 || sum_weights_s(
                final (self).population(),
                final (self).count(),
            ) < 1,
    {
        let ghost orig = self.particles@;
        let ghost mut etas: Seq<int> = Seq::empty();
        let dt: Scalar = SCALE;
        let n = self.particles.len();
        let mut i: usize = 0;
        while i < n
            invariant
                i <= n,
                n == self.particles@.len(),
                orig.len() == n,
                self.wf(),
                etas.len() == i,
                forall|k: int| i <= k < n ==> self.particles@[k] == orig[k],
                forall|k: int|
                    0 <= k < i ==> map_grew(orig[k], #[trigger] self.particles@[k]),
                forall|k: int| 0 <= k < i ==> 0 <= #[trigger] etas[k],
                forall|k: int|
                    0 <= k < i ==> (#[trigger] self.particles@[k]).weight as int == fmul_s(
                        orig[k].weight as int,
                        etas[k],
                    ),
            decreases n - i,
        {
            let mut p = self.particles[i].clone();
            proof {
                assert(self.particles@[i as int] == orig[i as int]);
                assert(self.particles@[i as int].wf());
                assert(p.gridmap.grid() == orig[i as int].gridmap.grid());
            }
            let ghost w0 = p.weight;
            let eta = ParticleFilter::advance_particle(&mut p, scan, gain, dt);
            proof {
                assert(map_grew(orig[i as int], p));
            }
            let ghost before_set = self.particles@;
            self.particles.set(i, p);
            proof {
                etas = etas.push(eta as int);
                assert(self.particles@ == before_set.update(i as int, p));
                assert(self.particles@[i as int] == p);
                assert(w0 == orig[i as int].weight);
                assert(forall|k: int| i as int + 1 <= k < n ==> self.particles@[k] == orig[k]);
                assert(forall|k: int| 0 <= k < i ==> self.particles@[k] == before_set[k]);
                assert(forall|k: int| 0 <= k < i ==> #[trigger] etas[k] == etas.drop_last()[k]);
            }
            i = i + 1;
        }
        let ghost mid = self.particles@;

        // the heaviest particle is the point estimate
        let best = ParticleFilter::get_highest_weight_particle(&self.particles);
        proof {
            let j = choose|j: int|
                0 <= j < self.particles@.len() && crate::particlefilter::resampling::carried(
                    best,
                    self.particles@[j],
                ) && best.weight == self.particles@[j].weight;
            assert(self.particles@[j].wf());
        }
        self.best_particle = best;

        // resample when the effective count collapses
        let mut sum: i128 = 0;
        let mut t: usize = 0;
        while t < n
            invariant
                t <= n,
                n == self.particles@.len(),
                self.wf(),
                sum as int == crate::particlefilter::resampling::sum_weights_s(
                    self.particles@,
                    t as int,
                ),
                0 <= sum as int <= t * (LIMIT as int),
            decreases n - t,
        {
            proof {
                assert((t + 1) * (LIMIT as int) == t * (LIMIT as int) + LIMIT)
                    by (nonlinear_arith);
                assert(self.particles@[t as int].wf());
            }
            sum = sum + (self.particles[t].weight as i128);
            t = t + 1;
        }
        if sum >= 1 {
            let neff = ParticleFilter::compute_neff(&self.particles);
            let threshold = ((n as i64) * SCALE) / 2;
            if neff < threshold {
                let resampled = low_variance_sampler(&self.particles);
                proof {
                    vstd::arithmetic::div_mod::lemma_div_pos_is_pos(
                        SCALE as int,
                        self.particles@.len() as int,
                    );
                    vstd::arithmetic::div_mod::lemma_div_is_ordered_by_denominator(
                        SCALE as int,
                        1,
                        self.particles@.len() as int,
                    );
                    vstd::arithmetic::div_mod::lemma_div_basics(SCALE as int);
                    assert forall|k: int| 0 <= k < resampled@.len() implies (
                    #[trigger] resampled@[k]).wf() by {
                        let j = choose|j: int|
                            0 <= j < self.particles@.len()
                                && crate::particlefilter::resampling::carried(
                                resampled@[k],
                                self.particles@[j],
                            );
                        assert(self.particles@[j].wf());
                    }
                }
                self.particles = resampled;
                proof {
                    assert(self.population() == resampled@);
                    assert(resampled_uniform(self.population()));
                    lemma_maps_grew_carried(orig, mid, self.population());
                    assert(orig == old(self).population());
                }
            } else {
                proof {
                    assert(neff as int == neff_s(self.population()));
                    assert(neff_s(self.population()) >= (self.count() * SCALE) / 2);
                    lemma_maps_grew_pointwise(orig, self.population());
                    lemma_weights_scaled_pointwise(orig, self.population(), etas);
                    assert(weight_dominates(self.population(), self.estimate().weight));
                    assert(orig == old(self).population());
                }
            }
        } else {
            proof {
                assert(sum_weights_s(self.population(), self.count()) < 1);
                lemma_maps_grew_pointwise(orig, self.population());
                lemma_weights_scaled_pointwise(orig, self.population(), etas);
                assert(weight_dominates(self.population(), self.estimate().weight));
                assert(orig == old(self).population());
            }
        }
    }
}


impl Default for ParticleFilter {
    /// Twenty particles at the origin with fresh maps and unit
    /// weights.
    fn default() -> (r: ParticleFilter)
        ensures
            r.wf(),
            r.count() == 20,
    {
        let n_particles: usize = 20;
        let init_particle = Particle::default();
        let mut particles: Vec<Particle> = Vec::new();
        let mut i: usize = 0;
        while i < n_particles
            invariant
                i <= n_particles,
                particles@.len() == i,
                init_particle.wf(),
                forall|j: int| 0 <= j < i ==> (#[trigger] particles@[j]).wf(),
            decreases n_particles - i,
        {
            particles.push(init_particle.clone());
            i = i + 1;
        }
        ParticleFilter {
            simulation: true,
            n_particles,
            particles,
            best_particle: init_particle,
        }
    }
}

} // verus!
