use fastslam::geometry::vector::Vector;
use fastslam::math::scalar::PI;

fn fp(v: f64) -> i64 {
    (v * 65536.0).round() as i64
}

fn to_f(v: i64) -> f64 {
    v as f64 / 65536.0
}

fn vector_abs_diff(u: Vector, v: Vector) -> (f64, f64) {
    ((to_f(u.x) - to_f(v.x)).abs(), (to_f(u.y) - to_f(v.y)).abs())
}

fn abs_diff(a: i64, b: f64) -> f64 {
    (to_f(a) - b).abs()
}

#[test]
fn test_create_vector_from_angle() {
    let mut u = Vector::from_angle(0);
    let mut v = Vector::new(fp(1.0), fp(0.0));
    let (diff_x1, diff_y1) = vector_abs_diff(u, v);
    assert!(diff_x1 < 1e-10);
    assert!(diff_y1 < 1e-10);

    u = Vector::from_angle(PI / 4);
    v = Vector::new(fp(0.7), fp(0.7));
    let (diff_x2, diff_y2) = vector_abs_diff(u, v);
    assert!(diff_x2 < 5e-2);
    assert!(diff_y2 < 5e-2);

    u = Vector::from_angle(PI / 2);
    v = Vector::new(fp(0.0), fp(1.0));
    let (diff_x3, diff_y3) = vector_abs_diff(u, v);
    assert!(diff_x3 < 1e-3);
    assert!(diff_y3 < 1e-3);

    u = Vector::from_angle(3 * PI / 4);
    v = Vector::new(fp(-0.7), fp(0.7));
    let (diff_x4, diff_y4) = vector_abs_diff(u, v);
    assert!(diff_x4 < 5e-2);
    assert!(diff_y4 < 5e-2);

    u = Vector::from_angle(PI);
    v = Vector::new(fp(-1.0), fp(0.0));
    let (diff_x5, diff_y5) = vector_abs_diff(u, v);
    assert!(diff_x5 < 1e-10);
    assert!(diff_y5 < 1e-10);

    u = Vector::from_angle(5 * PI / 4);
    v = Vector::new(fp(-0.7), fp(-0.7));
    let (diff_x6, diff_y6) = vector_abs_diff(u, v);
    assert!(diff_x6 < 5e-2);
    assert!(diff_y6 < 5e-2);

    u = Vector::from_angle(-PI / 4);
    v = Vector::new(fp(0.7), fp(-0.7));
    let (diff_x7, diff_y7) = vector_abs_diff(u, v);
    assert!(diff_x7 < 5e-2);
    assert!(diff_y7 < 5e-2);
}

#[test]
fn test_get_angle_from_vector() {
    let u = Vector::new(fp(0.7), fp(0.7));
    let desired_ang = std::f64::consts::PI / 4.0;
    let diff_ang = abs_diff(u.angle(), desired_ang);
    assert!(diff_ang < 5e-2);

    let w = Vector::new(fp(-0.7), fp(-0.7));
    let desired_ang2 = -3.0 * std::f64::consts::PI / 4.0;
    let diff_ang2 = abs_diff(w.angle(), desired_ang2);
    assert!(diff_ang2 < 5e-2);
}

#[test]
fn test_operator_overloading() {
    let u = Vector::new(fp(-1.0), fp(-1.0));
    let v = Vector::new(fp(1.0), fp(1.0));

    let add = u.add(v);
    assert_eq!(add, Vector::new(0, 0));

    let sub1 = u.sub(v);
    assert_eq!(sub1, Vector::new(fp(-2.0), fp(-2.0)));

    let sub2 = v.sub(u);
    assert_eq!(sub2, Vector::new(fp(2.0), fp(2.0)));

    let vec_times_scalar = u.mul(fp(2.0));
    assert_eq!(vec_times_scalar, Vector::new(fp(-2.0), fp(-2.0)));

    assert_ne!(u, v);
    assert_eq!(v, v);
}

#[test]
fn test_vector_products() {
    // dot product
    let mut u = Vector::new(fp(2.0), fp(2.0));
    let mut v = Vector::new(fp(3.0), fp(1.0));
    let mut dot_prod = u.dot(v);
    assert_eq!(fp(8.0), dot_prod);

    u = Vector::new(fp(2.0), fp(2.10));
    v = Vector::new(fp(-3.5), fp(5.3));
    dot_prod = u.dot(v);
    let mut diff = abs_diff(dot_prod, 4.13);
    assert!(diff < 1e-3);

    // cross product
    let cross_prod = u.cross(v);
    diff = abs_diff(cross_prod, 17.95);
    assert!(diff < 1e-3);

    u = Vector::new(fp(1.0), fp(2.0));
    v = Vector::new(fp(4.0), fp(5.0));
    let cross_prod2 = u.cross(v);
    diff = abs_diff(cross_prod2, -3.0);
    assert!(diff < 1e-3);
}

#[test]
fn test_vector_rotate() {
    let u = Vector::new(fp(1.0), fp(0.0));
    let v = u.rotate(5 * PI / 4);

    let (diff_x, diff_y) = vector_abs_diff(v, Vector::new(fp(-0.707), fp(-0.707)));
    assert!(diff_x < 5e-3);
    assert!(diff_y < 5e-3);

    let w = v.rotate(3 * PI / 4);
    let (diff_x2, diff_y2) = vector_abs_diff(w, Vector::new(fp(1.0), fp(0.0)));
    assert!(diff_x2 < 5e-3);
    assert!(diff_y2 < 5e-3);

    let z = w.rotate(-5 * PI / 4);
    let (diff_x3, diff_y3) = vector_abs_diff(z, Vector::new(fp(-0.707), fp(0.707)));
    assert!(diff_x3 < 5e-3);
    assert!(diff_y3 < 5e-3);
}

#[test]
fn test_vector_length() {
    let mut u = Vector::new(fp(3.0), fp(0.0));
    assert_eq!(fp(3.0), u.length());

    u = Vector::new(fp(-1.0), fp(-1.0));
    let diff = abs_diff(u.length(), 2.0f64.sqrt());
    assert!(diff < 1e-3);
}
