pub mod laserscanner;
pub mod noise;
