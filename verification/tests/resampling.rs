use fastslam::particlefilter::particle::Particle;
use fastslam::odometry::pose::Pose;
use fastslam::gridmap::GridMap;
use fastslam::particlefilter::resampling::low_variance_sampler;

fn fp(v: f64) -> i64 {
    (v * 65536.0).round() as i64
}

#[test]
fn test_resampling() {
    let particles: Vec<Particle> = vec![
        Particle::new(Pose::default(), fp(0.1), GridMap::default()),
        Particle::new(Pose::default(), fp(0.1), GridMap::default()),
        Particle::new(Pose::default(), fp(19.1), GridMap::default()),
        Particle::new(Pose::default(), fp(0.1), GridMap::default()),
        Particle::new(Pose::default(), fp(0.14), GridMap::default()),
        Particle::new(Pose::default(), fp(351.1), GridMap::default()),
        Particle::new(Pose::default(), fp(0.1), GridMap::default()),
        Particle::new(Pose::default(), fp(0.1), GridMap::default()),
        Particle::new(Pose::default(), fp(591.1), GridMap::default()),
        Particle::new(Pose::default(), fp(1.1), GridMap::default()),
        Particle::new(Pose::default(), fp(0.0001), GridMap::default()),
        Particle::new(Pose::default(), fp(0.000001), GridMap::default()),
    ];

    let resampled_particles = low_variance_sampler(&particles);
    let resampled_weights: Vec<i64> = resampled_particles.iter().map(|p| p.weight).collect();
    println!("resampled: {:?}", resampled_weights);

    // the population size is preserved, and every weight resets to
    // one over the count
    assert_eq!(resampled_particles.len(), particles.len());
    for w in resampled_weights {
        assert_eq!(w, 65536 / 12);
    }
}
