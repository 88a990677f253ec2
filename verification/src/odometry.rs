pub mod pose;
pub mod twist;
pub mod odometry;
pub mod motion_model;
