//! The probabilistic core of a particle-filter localization and
//! mapping pipeline: each particle carries a pose hypothesis and its
//! own occupancy grid; a velocity motion model proposes poses, scan
//! matching refines them, motion and measurement models weight them,
//! and low-variance resampling refocuses the population.
//!
//! All quantities are fixed-point scalars (`math::scalar`): an `i64`
//! counting units of `1/65536`, with saturating arithmetic and its own
//! verified square root, trigonometry and exponential. Randomness and
//! discrete line drawing come from outside crates through the two
//! trusted wrappers in `sensor::noise` and `gridmap`.

pub mod math;
pub mod geometry;
pub mod pointcloud;
pub mod odometry;
pub mod sensor;
pub mod gridmap;
pub mod scanmatching;
pub mod particlefilter;
pub mod simulator;
