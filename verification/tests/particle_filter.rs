use fastslam::odometry::pose::Pose;
use fastslam::geometry::point::Point;
use fastslam::particlefilter::particle_filter::ParticleFilter;

fn fp(v: f64) -> i64 {
    (v * 65536.0).round() as i64
}

#[test]
fn test_sample_distribution() {
    let init_pose = Pose::new(
        Point::new(fp(0.049825244434982714), fp(-0.0000000000000002220446049250313)),
        fp(0.00000000000000005551115123125786),
    );

    let std_dev_sampling = Pose::new(Point::new(fp(0.05), fp(0.05)), fp(0.05));

    let pose_samples: Vec<Pose> = ParticleFilter::sample_distribution(&init_pose, std_dev_sampling, 10);
    println!("pose samples: {:?}", pose_samples);
    assert_eq!(pose_samples.len(), 10);
}
