use fastslam::geometry::point::Point;
use fastslam::pointcloud::PointCloud;
use fastslam::scanmatching::icp::icp;
use fastslam::odometry::pose::Pose;
use fastslam::math::utils::pose_relative_eq;

fn fp(v: f64) -> i64 {
    (v * 65536.0).round() as i64
}

fn pts(v: &[(f64, f64)]) -> PointCloud {
    PointCloud::new(v.iter().map(|&(x, y)| Point::new(fp(x), fp(y))).collect())
}

fn pose(x: f64, y: f64, heading: f64) -> Pose {
    Pose::new(Point::new(fp(x), fp(y)), fp(heading))
}


const C15: [(f64, f64); 15] = [
    (100.0, 100.0),
    (3.0, 2.0),
    (3.0, -2.0),
    (-1.0, 204.0),
    (300.0, 6.0),
    (-4.0, -10.0),
    (3.0, 3.0),
    (-10.0, 0.0),
    (-10.0, 7.0),
    (-40.0, -10.0),
    (-104.0, 3.5),
    (400.0, -100.0),
    (-14.0, 37.5),
    (4.07, 1.07),
    (19.0, 36.5),
];

const D15: [(f64, f64); 15] = [
    (-200.0, -200.0),
    (-4.0, -10.0),
    (3.0, 6.0),
    (-4.0, -100.0),
    (3.0, 40.0),
    (-10.0, 0.0),
    (3.0, 6.0),
    (-4.0, -100.0),
    (3.0, 40.0),
    (-10.0, 0.0),
    (3.0, 3.0),
    (-10.0, 0.0),
    (-1.0, 204.0),
    (300.0, 6.0),
    (30.0, -30.0),
];

#[test]
fn test_icp_case_0() {
    let a = pts(&[(1.0, 2.0), (2.0, 2.0), (3.0, -3.0), (-1.0, -2.0)]);
    let b = pts(&[(3.0, 6.0), (-4.0, -40.0), (3.0, 3.0), (0.0, 0.0)]);

    let _pose_dif = icp(&a, &b, 1, fp(0.000001).max(1));
}




#[test]
fn test_icp_case_4() {
    let a = pts(&C15);
    let b = pts(&D15);

    let pose_dif = icp(&a, &b, 100, 1);
    let pose_dif_expected = pose(-1.8648786600632477, -1.8806433339899442, 0.1396554628187165);

    assert_eq!(pose_relative_eq(pose_dif, pose_dif_expected, fp(1.0e-1)), true);
}


