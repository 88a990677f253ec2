use fastslam::math::utils::sigmoid;

fn fp(v: f64) -> i64 {
    (v * 65536.0).round() as i64
}

#[test]
fn test_sigmoid() {
    let max = fp(6.0);
    let min = fp(-6.0);
    let s_max = sigmoid(max);
    let s_min = sigmoid(min);

    assert!(s_max > fp(0.99));
    assert!(s_min < fp(0.01));
}
