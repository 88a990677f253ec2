use fastslam::geometry::point::Point;
use fastslam::geometry::vector::{Mat2, Vector};
use fastslam::pointcloud::PointCloud;
use fastslam::scanmatching::icp::{best_fit_transform, handle_improper_rotation, mat_det};

fn fp(v: f64) -> i64 {
    (v * 65536.0).round() as i64
}

fn to_f(v: i64) -> f64 {
    v as f64 / 65536.0
}

fn rot_close(r: Mat2, xx: f64, xy: f64, yx: f64, yy: f64) -> bool {
    (to_f(r.xx) - xx).abs() <= 0.1 && (to_f(r.xy) - xy).abs() <= 0.1 && (to_f(r.yx) - yx).abs()
        <= 0.1 && (to_f(r.yy) - yy).abs() <= 0.1
}

fn vec_close(t: Vector, x: f64, y: f64) -> bool {
    (to_f(t.x) - x).abs() <= 0.1 && (to_f(t.y) - y).abs() <= 0.1
}

fn pts(v: &[(f64, f64)]) -> PointCloud {
    PointCloud::new(v.iter().map(|&(x, y)| Point::new(fp(x), fp(y))).collect())
}

#[test]
fn test_best_fit_transform_no_reflection_case_0() {
    let a = pts(&[(1.0, 2.0), (2.0, 2.0), (3.0, 3.0), (-1.0, -2.0)]);
    let b = a.clone();

    let (_, r, t) = best_fit_transform(&a, &b);

    assert!(rot_close(r, 1.0, 0.0, 0.0, 1.0));
    assert!(vec_close(t, 0.0, 0.0));
    assert!(mat_det(r) > 0);
}

#[test]
fn test_best_fit_transform_no_reflection_case_1() {
    let a = pts(&[(1.0, 2.0), (2.0, 2.0), (3.0, 3.0), (-1.0, -2.0)]);
    let b = pts(&[(3.0, 6.0), (2.0, 2.0), (6.0, 6.0), (-1.0, -2.0)]);

    let (_, r, t) = best_fit_transform(&a, &b);

    assert!(rot_close(r, 0.99766257, 0.06833305, -0.06833305, 0.99766257));
    assert!(vec_close(t, 1.16750548, 1.83833811));
    assert!(mat_det(r) > 0);
}

#[test]
fn test_best_fit_transform_no_reflection_case_2() {
    let a = pts(&[(1.0, 2.0), (2.0, 2.0), (3.0, 3.0), (-1.0, -2.0)]);
    let b = pts(&[(-3.0, -6.0), (-4.0, -4.0), (-3.0, -3.0), (0.0, 0.0)]);

    let (_, r, t) = best_fit_transform(&a, &b);

    assert!(rot_close(r, -0.983282, -0.18208926, 0.18208926, -0.983282));
    assert!(vec_close(t, -1.04328592, -2.24850907));
    assert!(mat_det(r) > 0);
}

#[test]
fn test_best_fit_transform_no_reflection_case_3() {
    let a = pts(&[(1.0, 2.0), (2.0, 2.0), (3.0, 3.0), (-1.0, -2.0)]);
    let b = pts(&[(3.0, 6.0), (-4.0, -4.0), (3.0, 3.0), (0.0, 0.0)]);

    let (_, r, t) = best_fit_transform(&b, &a);

    assert!(rot_close(r, 0.91036648, -0.41380294, 0.41380294, 0.91036648));
    assert!(vec_close(t, 1.31207044, -0.09485957));
    assert!(mat_det(r) > 0);
}

#[test]
fn test_best_fit_pointcloud_reflection_case_0() {
    let a = pts(&[(1.0, -2.0), (2.0, 2.0), (3.0, 2.0), (-1.0, 2.0)]);
    let b = pts(&[(3.0, 6.0), (-4.0, -4.0), (3.0, 3.0), (0.0, 0.0)]);

    let (_, r, t) = best_fit_transform(&a, &b);

    assert!(rot_close(r, -0.85207599, -0.52341811, 0.52341811, -0.85207599));
    assert!(vec_close(t, 2.08851309, 1.44780335));
    assert!(mat_det(r) > 0);
}

#[test]
fn test_best_fit_transform_reflection_case_1() {
    let a = pts(&[(3.0, -2.0), (-2.0, 2.0), (30.0, 3.0), (-1.0, 204.0)]);
    let b = pts(&[(3.0, 6.0), (-4.0, -4.0), (3.0, 3.0), (0.0, 0.0)]);

    let (_, r, t) = best_fit_transform(&a, &b);

    assert!(rot_close(r, -0.68895316, -0.72480586, 0.72480586, -0.68895316));
    assert!(vec_close(t, 43.17585206, 31.46728233));
    assert!(mat_det(r) > 0);
}

#[test]
fn test_best_fit_transform_no_reflection_case_4() {
    let a = pts(&[(30.0, -2.0), (-32.0, 2.0), (30.0, 332.0), (-1.0, 204.0)]);
    let b = pts(&[(3.0, 6.0), (-4.0, -100.0), (3.0, 40.0), (-10.0, 0.0)]);

    let (_, r, t) = best_fit_transform(&a, &b);

    assert!(rot_close(r, 0.97272514, -0.23196079, 0.23196079, 0.97272514));
    assert!(vec_close(t, 22.51685114, -145.41090368));
    assert!(mat_det(r) > 0);
}

#[test]
fn test_best_fit_transform_reflection_case_2() {
    let a = pts(&[(3.0, -2.0), (3.0, 2.0), (3.0, -2.0), (-1.0, 204.0)]);
    let b = pts(&[(300.0, 6.0), (-4.0, -10.0), (3.0, 3.0), (-10.0, 0.0)]);

    let (_, r, t) = best_fit_transform(&a, &b);

    assert!(rot_close(r, 0.01979609, -0.99980404, 0.99980404, 0.01979609));
    assert!(vec_close(t, 122.70051175, -3.24931067));
    assert!(mat_det(r) > 0);
}

#[test]
fn test_best_fit_transform_no_reflection_case_5() {
    let a = pts(&[
        (3.0, -2.0),
        (3.0, 2.0),
        (3.0, -2.0),
        (-1.0, 204.0),
        (300.0, 6.0),
        (-4.0, -10.0),
        (3.0, 3.0),
        (-10.0, 0.0),
        (-10.0, 7.0),
        (-40.0, -10.0),
        (-104.0, 3.5),
        (40.0, -10.0),
        (-14.0, 37.5),
        (4.07, 1.07),
        (19.0, 36.5),
    ]);
    let b = pts(&[
        (300.0, 6.0),
        (-4.0, -10.0),
        (3.0, 6.0),
        (-4.0, -100.0),
        (3.0, 40.0),
        (-10.0, 0.0),
        (3.0, 6.0),
        (-4.0, -100.0),
        (3.0, 40.0),
        (-10.0, 0.0),
        (3.0, 3.0),
        (-10.0, 0.0),
        (-1.0, 204.0),
        (300.0, 6.0),
        (-4.0, -10.0),
    ]);

    let (_, r, t) = best_fit_transform(&a, &b);

    assert!(rot_close(r, -0.69839246, -0.71571501, 0.71571501, -0.69839246));
    assert!(vec_close(t, 59.5285593, 9.3135397));
    assert!(mat_det(r) > 0);
}

#[test]
fn test_best_fit_transform_reflection_case_3() {
    let a = pts(&[
        (1.0, 100.0),
        (0.0, 0.0),
        (0.0, 0.0),
        (0.0, 0.0),
        (0.0, 0.0),
        (0.0, 0.0),
        (-1.0, -100.0),
    ]);
    let b = pts(&[
        (-1.0, -100.0),
        (0.0, 0.0),
        (0.0, 0.0),
        (0.0, 0.0),
        (0.0, 0.0),
        (0.0, 0.0),
        (1.0, 100.0),
    ]);

    let (_, r1, t1) = best_fit_transform(&a, &b);

    assert!(rot_close(r1, -1.0, 0.0, 0.0, -1.0));
    assert!(vec_close(t1, 0.0, 0.0));
    assert!(mat_det(r1) > 0);

    let (_, r2, t2) = best_fit_transform(&b, &a);

    assert!(rot_close(r2, -1.0, 0.0, 0.0, -1.0));
    assert!(vec_close(t2, 0.0, 0.0));
    assert!(mat_det(r2) > 0);
}

#[test]
fn test_best_fit_transform_reflection_case_4() {
    let a = pts(&[
        (1.0, 100.0),
        (0.0, 0.0),
        (0.0, 0.0),
        (-1.0, -100.0),
        (0.0, 0.0),
        (0.0, 0.0),
        (500.0, -90.0),
    ]);
    let b = pts(&[
        (-1.0, -100.0),
        (0.0, 0.0),
        (0.0, 0.0),
        (0.0, 0.0),
        (0.0, 0.0),
        (0.0, 0.0),
        (100.0, -300.0),
    ]);

    let (_, r, t) = best_fit_transform(&a, &b);

    assert!(rot_close(r, 0.4340702, 0.90087905, -0.90087905, 0.4340702));
    assert!(vec_close(t, -5.27942622, 12.78654903));
    assert!(mat_det(r) > 0);
}

#[test]
fn test_best_fit_transform_reflection_case_5() {
    let a = pts(&[
        (-1900.0, 1200.0),
        (0.0, 0.0),
        (0.0, 0.0),
        (-1.0, -100.0),
        (0.0, 100.0),
        (0.0, 0.0),
        (500.0, -90.0),
    ]);
    let b = pts(&[
        (-1.0, -100.0),
        (0.0, 0.0),
        (0.0, 0.0),
        (0.0, 0.0),
        (0.0, 0.0),
        (0.0, 0.0),
        (1000.0, -3000.0),
    ]);

    let (_, r, t) = best_fit_transform(&a, &b);

    assert!(rot_close(r, 0.6243408, 0.78115208, -0.78115208, 0.6243408));
    assert!(vec_close(t, 143.80323661, -698.20176373));
    assert!(mat_det(r) > 0);
}

#[test]
fn improper_rotation_case_1() {
    let u = Mat2 { xx: fp(-0.0099995), xy: fp(-0.99995), yx: fp(-0.99995), yy: fp(0.0099995) };
    let vt = Mat2 { xx: fp(0.0099995), xy: fp(0.99995), yx: fp(-0.99995), yy: fp(0.0099995) };
    let s = Vector::new(fp(1.0), fp(0.0));

    let candidate = fastslam::scanmatching::icp::mat_mul(
        fastslam::scanmatching::icp::mat_transpose(vt),
        fastslam::scanmatching::icp::mat_transpose(u),
    );
    if mat_det(candidate) < 0 {
        let _fixed = handle_improper_rotation(candidate, u, s, vt);
    }
}

#[test]
fn improper_rotation_case_2() {
    let u = Mat2 {
        xx: fp(-0.9998181379392826),
        xy: fp(0.01907068555730712),
        yx: fp(-0.01907068555730701),
        yy: fp(-0.9998181379392826),
    };
    let vt = Mat2 {
        xx: fp(0.0007255423829884326),
        xy: fp(0.9999997367940907),
        yx: fp(0.9999997367940907),
        yy: fp(-0.0007255423829884326),
    };
    let s = Vector::new(fp(1.0), fp(0.0));

    let candidate = fastslam::scanmatching::icp::mat_mul(
        fastslam::scanmatching::icp::mat_transpose(vt),
        fastslam::scanmatching::icp::mat_transpose(u),
    );
    if mat_det(candidate) < 0 {
        println!("RESULT: \n \n ");
        let _fixed = handle_improper_rotation(candidate, u, s, vt);
    }
}
