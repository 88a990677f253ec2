use fastslam::pointcloud::PointCloud;
use fastslam::geometry::point::Point;
use fastslam::geometry::vector::Vector;

fn fp(v: f64) -> i64 {
    (v * 65536.0).round() as i64
}

#[test]
fn test_empty_pointcloud() {
    let mut cloud = PointCloud::empty();

    assert_eq!(cloud.size(), 0);

    cloud.add(Point::new(fp(0.0), fp(0.0)));
    cloud.add(Point::new(fp(1.0), fp(1.0)));
    cloud.add(Point::new(fp(2.0), fp(2.0)));
    cloud.add(Point::new(fp(3.0), fp(3.0)));

    assert_eq!(cloud.size(), 4);
}

#[test]
fn test_new_pointcloud() {
    let p0 = Point::new(fp(1.0), fp(1.0));
    let p1 = Point::new(fp(10.0), fp(10.0));
    let cloud1 = PointCloud::new(vec![p0, p0, p0]);

    assert_eq!(cloud1.size(), 3);

    let cloud2: Vec<Vector> = cloud1.iter().iter().map(|m| m.to_point_vec(p1)).collect();

    for vec in cloud2.iter() {
        assert_eq!(vec.x, fp(9.0));
        assert_eq!(vec.y, fp(9.0));
    }
}

#[test]
fn test_mutate_pointcloud() {
    let p0 = Point::new(fp(1.0), fp(1.0));
    let p1 = Point::new(fp(2.0), fp(2.0));
    let p3 = Point::new(fp(-1.0), fp(-1.0));
    let mut cloud = PointCloud::new(vec![p0, p0, p0]);

    assert_eq!(cloud.size(), 3);

    for i in 0..cloud.size() {
        let moved = cloud.get(i).sub(p1);
        cloud.set(i, moved);
    }

    for p in cloud.iter() {
        assert_eq!(*p, p3);
    }
}

#[test]
fn test_pointcloud_centroid() {
    let p0 = Point::new(fp(-1.0), fp(-1.0));
    let p1 = Point::new(fp(-1.0), fp(-1.0));
    let p2 = Point::new(fp(-1.0), fp(-1.0));
    let p3 = Point::new(fp(1.0), fp(1.0));
    let cloud = PointCloud::new(vec![p0, p1, p2, p3]);

    assert_eq!(cloud.size(), 4);

    let centroid = cloud.centroid();
    assert_eq!(Point::new(fp(-0.5), fp(-0.5)), centroid);
}
