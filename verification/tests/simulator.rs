use fastslam::geometry::line::Line;
use fastslam::geometry::point::Point;
use fastslam::odometry::pose::Pose;
use fastslam::simulator::laserscanner::LaserScanner;
use fastslam::simulator::robot::{Direction, Robot};

fn fp(v: f64) -> i64 {
    (v * 65536.0).round() as i64
}

fn to_f(v: i64) -> f64 {
    v as f64 / 65536.0
}

#[test]
fn test_simulated_scan_hits_wall() {
    // a vertical wall two units ahead of the robot
    let wall = Line::new(Point::new(fp(2.0), fp(-10.0)), Point::new(fp(2.0), fp(10.0)));
    let scanner = LaserScanner { num_columns: 8 };
    let pose = Pose::new(Point::new(0, 0), 0);

    let scan = scanner.scan(&pose, &[wall]);

    // the forward column strikes the wall two units away; the rear
    // half of the sweep strikes nothing
    assert!(scan.measurements.len() >= 1);
    assert!(scan.measurements.len() < 8);
    assert!((to_f(scan.measurements[0].distance) - 2.0).abs() < 1e-2);
    assert_eq!(scan.measurements[0].angle, 0);
}

#[test]
fn test_robot_moves_forward() {
    let mut robot = Robot::default();
    robot.move_forward(Some(Direction::Forward));
    assert!(robot.odom.pose.position.x > 0);
    assert_eq!(robot.odom.pose.position.y, 0);
    assert_eq!(robot.odom.pose.heading, 0);

    robot.move_forward(Some(Direction::Left));
    assert!(robot.odom.pose.heading > 0);

    let before = robot.odom.pose;
    robot.move_forward(None);
    assert_eq!(robot.odom.pose, before);
}
