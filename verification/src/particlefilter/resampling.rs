use vstd::prelude::*;

use crate::math::scalar::{Scalar, SCALE, tdiv_s};
use crate::particlefilter::particle::Particle;
use crate::pointcloud::tdiv128;
use crate::sensor::noise::rand_below;

verus! {

/// The total weight of the first `i` particles.
pub open spec fn sum_weights_s(ps: Seq<Particle>, i: int) -> int
    decreases i,
{
    if i <= 0 {
        0
    } else {
        sum_weights_s(ps, i - 1) + ps[i - 1].weight
    }
}

/// All weights are nonnegative.
pub open spec fn weights_nonneg(ps: Seq<Particle>) -> bool {
    forall|i: int| 0 <= i < ps.len() ==> #[trigger] ps[i].weight >= 0
}

/// With nonnegative weights the partial sums grow monotonically and
/// stay linearly bounded.
pub proof fn lemma_sum_weights_bounds(ps: Seq<Particle>, i: int)
    requires
        weights_nonneg(ps),
        0 <= i <= ps.len(),
    ensures
        0 <= sum_weights_s(ps, i) <= i * 0x7fff_ffff_ffff_ffff,
        forall|j: int| 0 <= j <= i ==> #[trigger] sum_weights_s(ps, j) <= sum_weights_s(ps, i),
    decreases i,
{
    if i > 0 {
        lemma_sum_weights_bounds(ps, i - 1);
        assert((i - 1) * 0x7fff_ffff_ffff_ffff + 0x7fff_ffff_ffff_ffff == i
            * 0x7fff_ffff_ffff_ffff) by (nonlinear_arith);
    }
}

/// The index of the first particle whose cumulative weight reaches
/// `u`, scanning from index `i` on; the last index when none does.
pub open spec fn bracket_idx_s(ps: Seq<Particle>, u: int, i: int) -> int
    decreases ps.len() - i,
{
    if i >= ps.len() - 1 {
        ps.len() - 1
    } else if u <= sum_weights_s(ps, i + 1) {
        i
    } else {
        bracket_idx_s(ps, u, i + 1)
    }
}

/// Scanning from anywhere at or below the first index whose
/// cumulative weight reaches `u` lands on that index.
proof fn lemma_bracket_from(ps: Seq<Particle>, u: int, i: int, i0: int)
    requires
        0 <= i <= i0 < ps.len(),
        forall|j: int| i <= j < i0 ==> #[trigger] sum_weights_s(ps, j + 1) < u,
        u <= sum_weights_s(ps, i0 + 1) || i0 == ps.len() - 1,
    ensures
        bracket_idx_s(ps, u, i) == i0,
    decreases i0 - i,
{
    if i < i0 {
        lemma_bracket_from(ps, u, i + 1, i0);
    }
}

/// One particle's content carried over into a resampled slot.
pub open spec fn carried(out: Particle, src: Particle) -> bool {
    &&& out.pose == src.pose
    &&& out.prev_pointcloud@ == src.prev_pointcloud@
    &&& out.gridmap.grid() == src.gridmap.grid()
    &&& out.gridmap.size_spec() == src.gridmap.size_spec()
    &&& out.gridmap.cell_size_spec() == src.gridmap.cell_size_spec()
}

/// Slot `k` of the output carries the particle whose cumulative
/// weight bracket contains `off + k * stride`.
pub open spec fn systematic_pick(
    ps: Seq<Particle>,
    out: Seq<Particle>,
    off: int,
    stride: int,
) -> bool {
    forall|k: int|
        0 <= k < out.len() ==> carried(
            #[trigger] out[k],
            ps[bracket_idx_s(ps, off + k * stride, 0)],
        )
}

/// Systematic (low-variance) resampling: one random offset below the
/// weight stride picks all slots, walking the cumulative weights
/// forward only. The result holds exactly as many particles as came
/// in; slot `k` carries the particle whose cumulative-weight bracket
/// contains the `k`-th systematic mark, with its weight reset to one
/// over the count.
pub fn low_variance_sampler(particles: &Vec<Particle>) -> (r: Vec<Particle>)
    requires
        particles@.len() >= 1,
        particles@.len() < 0x8000_0000_0000_0000,
        weights_nonneg(particles@),
        sum_weights_s(particles@, particles@.len() as int) >= 1,
    ensures
        r@.len() == particles@.len(),
        forall|k: int|
            0 <= k < r@.len() ==> #[trigger] r@[k].weight as int == SCALE as int
                / particles@.len() as int,
        forall|k: int|
            0 <= k < r@.len() ==> exists|j: int|
                0 <= j < particles@.len() && carried(#[trigger] r@[k], particles@[j]),
        exists|off: int|
            0 <= off && (tdiv_s(
                sum_weights_s(particles@, particles@.len() as int),
                particles@.len() as int,
            ) >= 1 ==> off < tdiv_s(
                sum_weights_s(particles@, particles@.len() as int),
                particles@.len() as int,
            )) && (tdiv_s(
                sum_weights_s(particles@, particles@.len() as int),
                particles@.len() as int,
            ) == 0 ==> off == 0) && #[trigger] systematic_pick(
                particles@,
                r@,
                off,
                tdiv_s(
                    sum_weights_s(particles@, particles@.len() as int),
                    particles@.len() as int,
                ),
            ),
{
    let m: usize = particles.len();
    let ghost total = sum_weights_s(particles@, m as int);
    proof {
        lemma_sum_weights_bounds(particles@, m as int);
        assert(m * 0x7fff_ffff_ffff_ffff < 0x7fff_ffff_ffff_ffff_ffff_ffff_ffff_ffff)
            by (nonlinear_arith)
            requires
                m <= 0xffff_ffff_ffff_ffff,
        ;
    }

    // total weight
    let mut sum: i128 = 0;
    let mut t: usize = 0;
    while t < m
        invariant
            t <= m,
            m == particles@.len(),
            weights_nonneg(particles@),
            sum as int == sum_weights_s(particles@, t as int),
            0 <= sum as int <= t * 0x7fff_ffff_ffff_ffff,
        decreases m - t,
    {
        proof {
            assert((t + 1) * 0x7fff_ffff_ffff_ffff == t * 0x7fff_ffff_ffff_ffff
                + 0x7fff_ffff_ffff_ffff) by (nonlinear_arith);
        }
        sum = sum + (particles[t].weight as i128);
        t = t + 1;
    }

    // the stride between the systematic picks, and the one random
    // offset below it
    let step128 = tdiv128(sum, m as u64);
    assert(0 <= step128 as int <= 0x7fff_ffff_ffff_ffff) by (nonlinear_arith)
        requires
            step128 as int == tdiv_s(sum as int, m as int),
            0 <= sum as int <= m * 0x7fff_ffff_ffff_ffff,
            m >= 1,
    ;
    let step: i64 = step128 as i64;
    let r0: i64 = if step >= 1 {
        rand_below(step as u64) as i64
    } else {
        0
    };
    proof {
        assert(m as int * step as int <= sum as int) by {
            vstd::arithmetic::div_mod::lemma_fundamental_div_mod(sum as int, m as int);
            assert(m as int * tdiv_s(sum as int, m as int) == m as int * (sum as int / m as int))
                by (nonlinear_arith)
                requires
                    sum as int >= 0,
                    m >= 1,
                    tdiv_s(sum as int, m as int) == sum as int / m as int,
            ;
        }
    }

    let m_inv: i64 = SCALE / (m as i64);

    let mut out: Vec<Particle> = Vec::new();
    let mut i: usize = 0;
    let mut c: i128 = particles[0].weight as i128;
    proof {
        assert(sum_weights_s(particles@, 0) == 0);
        assert(sum_weights_s(particles@, 1) == particles@[0].weight);
    }
    let mut k: usize = 0;
    while k < m
        invariant
            k <= m,
            m == particles@.len(),
            m >= 1,
            m < 0x8000_0000_0000_0000,
            weights_nonneg(particles@),
            total == sum_weights_s(particles@, m as int),
            total >= 1,
            sum as int == total,
            0 <= sum as int <= m * 0x7fff_ffff_ffff_ffff,
            0 <= step as int,
            m as int * step as int <= sum as int,
            0 <= r0,
            step >= 1 ==> r0 < step,
            step == 0 ==> r0 == 0,
            i < m,
            c as int == sum_weights_s(particles@, i as int + 1),
            m_inv as int == SCALE as int / m as int,
            out@.len() == k,
            forall|j: int|
                0 <= j < i ==> #[trigger] sum_weights_s(particles@, j + 1) < r0 + (k as int) * (
                step as int),
            forall|k2: int|
                0 <= k2 < k ==> #[trigger] out@[k2].weight as int == SCALE as int / m as int,
            forall|k2: int|
                0 <= k2 < k ==> exists|j: int|
                    0 <= j < m && carried(#[trigger] out@[k2], particles@[j]),
            forall|k2: int|
                0 <= k2 < k ==> carried(
                    #[trigger] out@[k2],
                    particles@[bracket_idx_s(particles@, r0 + k2 * (step as int), 0)],
                ),
        decreases m - k,
    {
        assert(0 <= (k as int) * (step as int) <= m as int * step as int) by (nonlinear_arith)
            requires
                0 <= k < m,
                0 <= step,
        ;
        let u: i128 = (r0 as i128) + (k as i128) * (step as i128);
        assert(u < total) by (nonlinear_arith)
            requires
                u == r0 + (k as int) * (step as int),
                0 <= r0,
                step >= 1 ==> r0 < step,
                step == 0 ==> r0 == 0,
                0 <= step,
                k < m,
                m as int * step as int <= sum as int,
                sum as int == total,
                total >= 1,
        ;
        while u > c
            invariant
                i < m,
                m == particles@.len(),
                weights_nonneg(particles@),
                c as int == sum_weights_s(particles@, i as int + 1),
                u < total,
                total == sum_weights_s(particles@, m as int),
                0 <= sum as int <= m * 0x7fff_ffff_ffff_ffff,
                forall|j: int| 0 <= j < i ==> #[trigger] sum_weights_s(particles@, j + 1) < u as int,
            decreases m - i,
        {
            proof {
                lemma_sum_weights_bounds(particles@, m as int);
                if i + 1 == m {
                    assert(c as int == total);
                    assert(false);
                }
            }
            i = i + 1;
            c = c + (particles[i].weight as i128);
        }
        let mut p = particles[i].clone();
        p.weight = m_inv;
        out.push(p);
        proof {
            lemma_bracket_from(particles@, u as int, 0, i as int);
            assert(bracket_idx_s(particles@, r0 + (k as int) * (step as int), 0) == i as int);
            assert(carried(out@[k as int], particles@[i as int]));
            assert(out@[k as int].weight as int == SCALE as int / m as int);
            assert((k as int + 1) * (step as int) == (k as int) * (step as int) + step as int)
                by (nonlinear_arith);
            assert(forall|j: int|
                0 <= j < i ==> #[trigger] sum_weights_s(particles@, j + 1) < r0 + (k as int + 1)
                    * (step as int));
        }
        k = k + 1;
    }
    proof {
        assert(step as int == tdiv_s(
            sum_weights_s(particles@, particles@.len() as int),
            particles@.len() as int,
        ));
        assert(systematic_pick(particles@, out@, r0 as int, step as int));
    }
    out
}

} // verus!
