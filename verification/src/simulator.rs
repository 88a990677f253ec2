pub mod laserscanner;
pub mod robot;
