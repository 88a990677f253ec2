use fastslam::geometry::point::Point;
use fastslam::geometry::vector::Vector;
use fastslam::gridmap::GridMap;
use fastslam::math::scalar::SCALE;
use fastslam::math::utils::sigmoid;
use fastslam::odometry::pose::Pose;
use fastslam::particlefilter::particle::Particle;
use fastslam::particlefilter::particle_filter::ParticleFilter;
use fastslam::pointcloud::PointCloud;
use fastslam::scanmatching::icp::{best_fit_transform, icp, mat_det};
use fastslam::sensor::laserscanner::{Measurement, Scan};
use fastslam::odometry::twist::Twist;

fn fp(v: f64) -> i64 {
    (v * 65536.0).round() as i64
}

fn to_f(v: i64) -> f64 {
    v as f64 / 65536.0
}

fn pts(v: &[(f64, f64)]) -> PointCloud {
    PointCloud::new(v.iter().map(|&(x, y)| Point::new(fp(x), fp(y))).collect())
}

#[test]
fn round_trip_identity_is_exact() {
    // fitting a cloud onto itself gives exactly the unit rotation and
    // the zero translation
    let a = pts(&[(1.0, 2.0), (-3.0, 0.5), (4.0, -2.5), (0.0, 7.0)]);
    let (tf, r, t) = best_fit_transform(&a, &a);
    assert_eq!(r.xx, SCALE);
    assert_eq!(r.xy, 0);
    assert_eq!(r.yx, 0);
    assert_eq!(r.yy, SCALE);
    assert_eq!(t, Vector::new(0, 0));
    assert_eq!(tf.rot, r);
    assert_eq!(tf.trans, t);
}

#[test]
fn known_rigid_transform_is_recovered() {
    // rotate and translate a cloud by known amounts; the fit recovers
    // them, and the swapped fit recovers the inverse
    let theta = 0.3f64;
    let (tx, ty) = (2.0f64, 1.0f64);
    let a = pts(&[(1.0, 2.0), (-3.0, 0.5), (4.0, -2.5), (0.0, 7.0), (2.0, 2.0)]);
    let mut moved: Vec<Point> = Vec::new();
    for p in a.iter() {
        let v = Vector::new(p.x, p.y).rotate(fp(theta));
        moved.push(Point::new(v.x + fp(tx), v.y + fp(ty)));
    }
    let b = PointCloud::new(moved);

    let (_, r, t) = best_fit_transform(&a, &b);
    assert!((to_f(r.xx) - theta.cos()).abs() < 0.1);
    assert!((to_f(r.yx) - theta.sin()).abs() < 0.1);
    assert!((to_f(t.x) - tx).abs() < 0.1);
    assert!((to_f(t.y) - ty).abs() < 0.1);

    let (_, r2, t2) = best_fit_transform(&b, &a);
    assert!((to_f(r2.xx) - theta.cos()).abs() < 0.1);
    assert!((to_f(r2.yx) + theta.sin()).abs() < 0.1);
    // the inverse translation of (tx, ty) under the inverse rotation
    let inv_tx = -(tx * theta.cos() + ty * theta.sin());
    let inv_ty = -(-tx * theta.sin() + ty * theta.cos());
    assert!((to_f(t2.x) - inv_tx).abs() < 0.1);
    assert!((to_f(t2.y) - inv_ty).abs() < 0.1);
}

#[test]
fn fitted_rotation_is_always_proper() {
    // adversarial, reflection-inducing pairs still fit to a proper
    // rotation
    let cases: [(&[(f64, f64)], &[(f64, f64)]); 3] = [
        (
            &[(1.0, 100.0), (0.0, 0.0), (-1.0, -100.0)],
            &[(-1.0, -100.0), (0.0, 0.0), (1.0, 100.0)],
        ),
        (
            &[(1.0, 0.0), (-1.0, 0.0), (0.0, 1.0)],
            &[(1.0, 0.0), (-1.0, 0.0), (0.0, -1.0)],
        ),
        (
            &[(5.0, 5.0), (-5.0, -5.0), (5.0, -5.0)],
            &[(-5.0, 5.0), (5.0, -5.0), (-5.0, -5.0)],
        ),
    ];
    for (av, bv) in cases.iter() {
        let a = pts(av);
        let b = pts(bv);
        let (_, r, _) = best_fit_transform(&a, &b);
        assert!(mat_det(r) > 0);
    }
}

#[test]
fn icp_converges_on_near_identical_clouds() {
    // aligning a cloud to a slightly perturbed copy of itself lands
    // near the identity delta
    let a = pts(&[
        (1.0, 2.0),
        (-3.0, 0.5),
        (4.0, -2.5),
        (0.0, 7.0),
        (6.0, 1.0),
        (-2.0, -4.0),
    ]);
    let noise = [0.03, -0.05, 0.02, 0.04, -0.01, 0.05];
    let mut moved: Vec<Point> = Vec::new();
    for (i, p) in a.iter().iter().enumerate() {
        moved.push(Point::new(p.x + fp(noise[i]), p.y + fp(noise[(i + 1) % 6])));
    }
    let b = PointCloud::new(moved);

    let delta = icp(&a, &b, 20, fp(0.0001).max(1));
    assert!(to_f(delta.position.x).abs() < 1.0);
    assert!(to_f(delta.position.y).abs() < 1.0);
    assert!(to_f(delta.heading).abs() < 0.1);
}

#[test]
fn effective_sample_size_bounds() {
    // equal weights: the effective count is exactly the population
    let equal: Vec<Particle> = (0..5)
        .map(|_| Particle::new(Pose::default(), fp(2.0), GridMap::new(4, fp(1.0))))
        .collect();
    let neff = ParticleFilter::compute_neff(&equal);
    assert_eq!(neff, 5 * SCALE);

    // one particle holding all the weight: the effective count is one
    let mut concentrated: Vec<Particle> = (0..5)
        .map(|_| Particle::new(Pose::default(), 0, GridMap::new(4, fp(1.0))))
        .collect();
    concentrated[2].weight = fp(7.0);
    let neff_one = ParticleFilter::compute_neff(&concentrated);
    assert_eq!(neff_one, SCALE);

    // anything else stays within the bounds
    let mixed: Vec<Particle> = [1.0, 2.0, 3.0, 4.0]
        .iter()
        .map(|&w| Particle::new(Pose::default(), fp(w), GridMap::new(4, fp(1.0))))
        .collect();
    let neff_mixed = ParticleFilter::compute_neff(&mixed);
    assert!(neff_mixed >= SCALE && neff_mixed <= 4 * SCALE);
    assert!(neff_mixed < 4 * SCALE);
}

#[test]
fn filter_cycle_preserves_population() {
    let mut filter = ParticleFilter::default();
    let scan = Scan {
        measurements: vec![
            Measurement { angle: 0, distance: fp(5.0) },
            Measurement { angle: fp(1.5), distance: fp(4.0) },
            Measurement { angle: fp(3.0), distance: fp(6.0) },
        ],
    };
    let gain = Twist::new(Vector::new(fp(0.15), 0), fp(0.05));
    filter.cycle(&scan, &gain);
    assert!(filter.best_particle.weight >= 0);
    filter.cycle(&scan, &gain);
    assert!(filter.best_particle.weight >= 0);
}

#[test]
fn sigmoid_at_zero_is_one_half() {
    assert_eq!(sigmoid(0), SCALE / 2);
}

#[test]
fn pose_sqrt_is_componentwise() {
    let p = Pose::new(Point::new(fp(4.0), fp(9.0)), fp(1.0));
    let r = p.sqrt();
    assert_eq!(r.position.x, fp(2.0));
    assert_eq!(r.position.y, fp(3.0));
    assert_eq!(r.heading, fp(1.0));
}

#[test]
fn update_outside_grid_changes_nothing() {
    // a robot standing outside the grid cannot write into it
    let mut grid = GridMap::new(10, fp(1.0));
    let pose = Pose::new(Point::new(fp(100.0), fp(100.0)), 0);
    let scan = Scan {
        measurements: vec![Measurement { angle: 0, distance: fp(2.0) }],
    };
    grid.update(&pose, &scan);
    assert_eq!(grid.get_all_occupied_cells().size(), 0);
    assert_eq!(grid.cell_state(20, 20), None);
}
