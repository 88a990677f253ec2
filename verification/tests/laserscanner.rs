use fastslam::sensor::laserscanner::{Measurement, Scan};
use fastslam::geometry::point::Point;
use fastslam::odometry::pose::Pose;
use fastslam::math::scalar::PI;
use fastslam::math::utils::compute_point_abs_diff;

fn fp(v: f64) -> i64 {
    (v * 65536.0).round() as i64
}

fn to_f(v: i64) -> f64 {
    v as f64 / 65536.0
}

#[test]
fn test_measurement_to_point_straight_ahead() {
    let meas = Measurement { angle: 0, distance: fp(20.0) };
    let pose = Pose { position: Point { x: 0, y: 0 }, heading: 0 };
    assert_eq!(meas.to_point(&pose), Point { x: fp(20.0), y: 0 });
}

#[test]
fn test_measurement_to_point_straight_behind() {
    let meas = Measurement { angle: PI, distance: fp(20.0) };
    let pose = Pose { position: Point { x: 0, y: 0 }, heading: 0 };

    let (diff_x, diff_y) = compute_point_abs_diff(
        meas.to_point(&pose),
        Point { x: fp(-20.0), y: 0 },
    );
    assert!(to_f(diff_x) < 5e-3);
    assert!(to_f(diff_y) < 5e-3);
}

#[test]
fn test_measurement_to_point_straight_right() {
    let meas = Measurement { angle: -PI / 2, distance: fp(20.0) };
    let pose = Pose { position: Point { x: 0, y: 0 }, heading: 0 };

    let (diff_x, diff_y) = compute_point_abs_diff(
        meas.to_point(&pose),
        Point { x: 0, y: fp(-20.0) },
    );
    assert!(to_f(diff_x) < 5e-3);
    assert!(to_f(diff_y) < 5e-3);
}

#[test]
fn test_measurement_to_point_straight_left_when_turned_180() {
    let meas = Measurement { angle: -PI / 2, distance: fp(20.0) };
    let pose = Pose { position: Point { x: 0, y: 0 }, heading: -PI };

    let (diff_x, diff_y) = compute_point_abs_diff(
        meas.to_point(&pose),
        Point { x: 0, y: fp(20.0) },
    );
    assert!(to_f(diff_x) < 5e-3);
    assert!(to_f(diff_y) < 5e-3);
}

#[test]
fn test_scan_to_pointcloud() {
    let mut scan = Scan::empty();
    scan.add(Measurement { angle: 0, distance: fp(20.0) });
    scan.add(Measurement { angle: PI, distance: fp(20.0) });

    let pose = Pose { position: Point { x: fp(-20.0), y: 0 }, heading: -PI / 2 };
    let pc = scan.to_pointcloud(&pose);

    assert!(pc.iter().iter().any(|&p| {
        let (diff_x, diff_y) = compute_point_abs_diff(p, Point { x: fp(-20.0), y: fp(-20.0) });
        to_f(diff_x) < 5e-3 && to_f(diff_y) < 5e-3
    }));

    assert!(pc.iter().iter().any(|&p| {
        let (diff_x, diff_y) = compute_point_abs_diff(p, Point { x: fp(-20.0), y: fp(20.0) });
        to_f(diff_x) < 5e-3 && to_f(diff_y) < 5e-3
    }));
}
