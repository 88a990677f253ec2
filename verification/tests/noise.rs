use fastslam::sensor::noise::{gaussian, uniform};

fn fp(v: f64) -> i64 {
    (v * 65536.0).round() as i64
}

#[test]
fn test_uniform() {
    let r = uniform(fp(-10.0), fp(1.0));
    assert!(r >= fp(-11.0) && r <= fp(-9.0));
}

#[test]
fn test_gaussian_noise() {
    let v = gaussian(fp(0.5), fp(0.05));
    println!("{} is a draw around one half", v);
    assert!(v >= fp(0.5) - 6 * fp(0.05) && v <= fp(0.5) + 6 * fp(0.05));
}
