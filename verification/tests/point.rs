use fastslam::geometry::ray::Ray;
use fastslam::geometry::point::Point;
use fastslam::geometry::vector::Vector;

fn fp(v: f64) -> i64 {
    (v * 65536.0).round() as i64
}

#[test]
fn test_point_vector() {
    let p0 = Point::new(fp(1.0), fp(0.0));
    let dir = Vector::new(fp(2.0), fp(2.0));
    let ray = Ray::new(p0, dir);

    // ray of light
    let p = ray.origin;
    let r_vec = ray.direction;
    let p_r = p.add_vec(r_vec);

    assert_eq!(p_r, Point::new(fp(3.0), fp(2.0)));

    let p_to_r = p.to_point_vec(p_r);
    assert_eq!(p_to_r, dir);
}
