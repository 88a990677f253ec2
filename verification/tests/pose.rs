use fastslam::odometry::pose::Pose;
use fastslam::geometry::point::Point;

fn fp(v: f64) -> i64 {
    (v * 65536.0).round() as i64
}

#[test]
fn test_pose_add_assign() {
    let mut p1 = Pose::new(Point::new(fp(1.0), fp(1.0)), fp(2.0));
    let p2 = Pose::new(Point::new(fp(1.0), fp(1.0)), fp(2.0));

    p1.add_assign(p2);

    assert_eq!(p1, p2.mul_scalar(fp(2.0)));
}

#[test]
fn test_pose_add_assign_negative() {
    let mut p1 = Pose::new(Point::new(fp(1.0), fp(1.0)), fp(2.0));
    let p2 = Pose::new(Point::new(fp(-1.0), fp(-1.0)), fp(-2.0));

    p1.add_assign(p2);

    assert_eq!(p1, p2.mul_scalar(fp(0.0)));
}
