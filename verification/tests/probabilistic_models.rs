use fastslam::particlefilter::probabilistic_models::{likelihood_field_range_finder_model, motion_model_velocity};
use fastslam::sensor::laserscanner::{Scan, Measurement};
use fastslam::odometry::pose::Pose;
use fastslam::odometry::twist::Twist;
use fastslam::gridmap::GridMap;
use fastslam::geometry::point::Point;
use fastslam::geometry::vector::Vector;

fn fp(v: f64) -> i64 {
    (v * 65536.0).round() as i64
}

const PI_F: f64 = std::f64::consts::PI;

fn ranged_scan(angles: &[f64], distance: f64) -> Scan {
    Scan {
        measurements: angles
            .iter()
            .map(|&a| Measurement { angle: fp(a), distance: fp(distance) })
            .collect(),
    }
}

#[test]
fn test_likelihood_range_finder_empty_map_zero_prob() {
    let mut grid = GridMap::new(100, fp(1.0));

    let pose = Pose { position: Point { x: fp(29.0), y: fp(29.0) }, heading: 0 };

    let mut measurements: Vec<Measurement> = Vec::new();
    for i in 0..360 {
        measurements.push(Measurement {
            angle: fp((i as f64) * PI_F / 180.0),
            distance: fp(20.0),
        });
    }

    let scan = Scan { measurements };
    let old_grid_map = grid.clone();
    grid.update(&pose, &scan);

    let prob = likelihood_field_range_finder_model(&scan, &pose, &old_grid_map);

    // measuring a full sweep against a map that knows nothing scores
    // nothing
    assert_eq!(prob, 0);
}

#[test]
fn test_likelihood_range_finder_same_scan_twice() {
    let mut grid = GridMap::new(100, fp(1.0));

    let pose = Pose { position: Point { x: fp(29.0), y: fp(29.0) }, heading: 0 };

    let angles = [
        0.0,
        -PI_F / 2.0 * 0.1,
        -PI_F / 2.0 * 0.2,
        -PI_F / 2.0 * 0.3,
        -PI_F / 2.0 * 0.4,
        -PI_F / 2.0 * 0.5,
        -PI_F / 2.0 * 0.6,
        -PI_F / 2.0 * 0.7,
        -PI_F / 2.0 * 0.8,
        -PI_F / 2.0 * 0.9,
        -PI_F / 2.0,
    ];

    let scan = ranged_scan(&angles, 10.0);
    grid.update(&pose, &scan);
    let old_grid_map = grid.clone();

    let scan2 = ranged_scan(&angles, 10.0);
    grid.update(&pose, &scan2);

    let prob = likelihood_field_range_finder_model(&scan2, &pose, &old_grid_map);

    // a still robot measuring the same world twice scores very high
    assert!(prob > fp(1000.0));
}

#[test]
fn test_likelihood_range_finder_unlikely_second_scan() {
    let mut grid = GridMap::new(100, fp(1.0));

    let pose1 = Pose { position: Point { x: fp(29.0), y: 0 }, heading: 0 };

    let angles = [0.1, 0.2, 0.3, 0.4, 0.5, 0.0, -0.1, -0.2, -0.3, -0.4, -0.5];

    let scan1 = ranged_scan(&angles, 10.0);
    grid.update(&pose1, &scan1);
    let old_grid_map = grid.clone();

    let pose2 = Pose { position: Point { x: fp(30.0), y: 0 }, heading: 0 };
    let scan2 = ranged_scan(&angles, 11.0);
    grid.update(&pose2, &scan2);

    let prob = likelihood_field_range_finder_model(&scan2, &pose2, &old_grid_map);

    // a wall that moved away while the robot advanced toward it is
    // nearly impossible: the score collapses toward zero (all the way
    // to zero in this arithmetic)
    assert!(prob >= 0 && prob < fp(0.00001).max(1));
}

#[test]
fn test_likelihood_range_finder_likely_second_scan() {
    let mut grid = GridMap::new(100, fp(1.0));

    let pose1 = Pose { position: Point { x: fp(29.0), y: 0 }, heading: 0 };

    let angles = [0.1, 0.2, 0.3, 0.4, 0.5, 0.0, -0.1, -0.2, -0.3, -0.4, -0.5];

    let scan1 = ranged_scan(&angles, 10.0);
    grid.update(&pose1, &scan1);
    let old_grid_map = grid.clone();

    let pose2 = Pose { position: Point { x: fp(30.0), y: 0 }, heading: 0 };
    let scan2 = ranged_scan(&angles, 9.0);
    grid.update(&pose2, &scan2);

    let prob = likelihood_field_range_finder_model(&scan2, &pose2, &old_grid_map);

    // a wall that kept its place while the robot advanced toward it is
    // what a static world looks like: the score stays high
    assert!(prob > fp(1000.0));
}

#[test]
fn test_motion_model_velocity() {
    let prev_pose = Pose::new(Point::new(0, 0), 0);
    let prev_gain = Twist::new(Vector::new(fp(1.0), 0), 0);
    let curr_pose = Pose::new(Point::new(fp(1.0001), fp(0.001)), fp(0.0001));

    let prob_sample_overcompensated = motion_model_velocity(&curr_pose, &prev_pose, &prev_gain, fp(0.8));

    let prob_sample_accurate = motion_model_velocity(&curr_pose, &prev_pose, &prev_gain, fp(0.98));

    let prob_sample_undercompensated = motion_model_velocity(&curr_pose, &prev_pose, &prev_gain, fp(1.2));

    assert!(prob_sample_accurate > prob_sample_undercompensated);
    assert!(prob_sample_undercompensated > prob_sample_overcompensated);
}
