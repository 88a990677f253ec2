use fastslam::pointcloud::PointCloud;
use fastslam::scanmatching::icp::nearest_neighbor;
use fastslam::geometry::point::Point;

fn fp(v: f64) -> i64 {
    (v * 65536.0).round() as i64
}

fn to_f(v: i64) -> f64 {
    v as f64 / 65536.0
}

fn pts(v: &[(f64, f64)]) -> PointCloud {
    PointCloud::new(v.iter().map(|&(x, y)| Point::new(fp(x), fp(y))).collect())
}

fn matching_dist(v1: &[i64], v2: &[f64]) -> usize {
    v1.iter().zip(v2).filter(|&(a, b)| (to_f(*a) - b).abs() <= 1.0e-2).count()
}

fn matching_idx(v1: &[usize], v2: &[usize]) -> usize {
    v1.iter().zip(v2).filter(|&(a, b)| a == b).count()
}

#[test]
fn test_nn_identical_pointclouds() {
    let a = pts(&[(1.0, 2.0), (2.0, 2.0), (3.0, 3.0), (-1.0, -2.0)]);
    let b = a.clone();

    let (distances, indices) = nearest_neighbor(&a, &b);

    let d_matches = matching_dist(&distances, &[0.0, 0.0, 0.0, 0.0]);
    let i_matches = matching_idx(&indices, &[0, 1, 2, 3]);

    assert_eq!(d_matches, distances.len());
    assert_eq!(i_matches, indices.len());
}

#[test]
fn test_nn_shifted_pointclouds() {
    let a = pts(&[(1.0, 2.0), (2.0, 2.0), (3.0, 3.0), (-1.0, -2.0)]);
    let b = pts(&[(3.0, 6.0), (2.0, 2.0), (6.0, 6.0), (-1.0, -2.0)]);

    let (distances, indices) = nearest_neighbor(&a, &b);

    let d_matches = matching_dist(&distances, &[1.0, 0.0, 1.4142, 0.0]);
    let i_matches = matching_idx(&indices, &[1, 1, 1, 3]);

    assert_eq!(d_matches, distances.len());
    assert_eq!(i_matches, indices.len());
}

#[test]
fn test_nn_shifted_pointclouds_negative() {
    let a = pts(&[(1.0, 2.0), (2.0, 2.0), (3.0, 3.0), (-1.0, -2.0)]);
    let b = pts(&[(-3.0, -6.0), (-4.0, -4.0), (-3.0, -3.0), (0.0, 0.0)]);

    let (distances, indices) = nearest_neighbor(&a, &b);

    let d_matches = matching_dist(
        &distances,
        &[2.23606798, 2.82842712, 4.24264069, 2.23606798],
    );
    let i_matches = matching_idx(&indices, &[3, 3, 3, 2]);

    assert_eq!(d_matches, distances.len());
    assert_eq!(i_matches, indices.len());
}

#[test]
fn test_nn_pointclouds_pos_and_neg_and_switched() {
    let a = pts(&[(1.0, 2.0), (2.0, 2.0), (3.0, 3.0), (-1.0, -2.0)]);
    let b = pts(&[(3.0, 6.0), (-4.0, -4.0), (3.0, 3.0), (0.0, 0.0)]);

    let (distances, indices) = nearest_neighbor(&b, &a);

    let d_matches = matching_dist(&distances, &[3.0, 3.60555128, 0.0, 2.23606798]);
    let i_matches = matching_idx(&indices, &[2, 3, 2, 0]);

    assert_eq!(d_matches, distances.len());
    assert_eq!(i_matches, indices.len());
}
