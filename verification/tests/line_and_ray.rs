use fastslam::geometry::point::Point;
use fastslam::geometry::line::Line;
use fastslam::geometry::ray::Ray;
use fastslam::geometry::vector::Vector;
use fastslam::geometry::target::Target;

fn fp(v: f64) -> i64 {
    (v * 65536.0).round() as i64
}

#[test]
fn test_line_and_raycast_intersection() {
    let p = Point::new(fp(-1.0), fp(1.0));
    let r = Point::new(fp(1.0), fp(-1.0));
    let p_to_r = Line::new(p, r);

    let ray = Ray::new(Point::new(fp(-1.0), fp(-1.0)), Vector::new(fp(2.0), fp(2.0)));

    let intersection_point = p_to_r.intersect(&ray);
    let len = intersection_point.len();
    assert_eq!(len, 1);
    if len == 1 {
        assert_eq!(intersection_point[0], Point::new(0, 0));
    }
}

#[test]
fn test_line_and_raycast_parallel() {
    let p = Point::new(fp(-1.0), fp(1.0));
    let r = Point::new(fp(1.0), fp(1.0));
    let p_to_r = Line::new(p, r);

    let ray = Ray::new(Point::new(fp(-1.0), fp(-1.0)), Vector::new(fp(2.0), fp(0.0)));

    let intersection_point = p_to_r.intersect(&ray);
    assert_eq!(intersection_point.len(), 0);
}

#[test]
fn test_line_and_raycast_colinear_and_opposite() {
    let p = Point::new(fp(-1.0), fp(1.0));
    let r = Point::new(fp(1.0), fp(1.0));
    let p_to_r = Line::new(p, r);

    let ray = Ray::new(r, Vector::new(fp(-2.0), fp(0.0)));

    let intersection_point = p_to_r.intersect(&ray);
    assert_eq!(intersection_point.len(), 0);
}

#[test]
fn test_line_and_raycast_intersection_neg_sign() {
    let p = Point::new(fp(-1.0), fp(1.0));
    let r = Point::new(fp(1.0), fp(-1.0));
    let p_to_r = Line::new(r, p);

    let ray = Ray::new(Point::new(fp(1.0), fp(1.0)), Vector::new(fp(-2.0), fp(-2.0)));

    let intersection_point = p_to_r.intersect(&ray);
    let len = intersection_point.len();
    assert_eq!(len, 1);
    if len == 1 {
        assert_eq!(intersection_point[0], Point::new(0, 0));
    }
}
