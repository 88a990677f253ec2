pub mod icp;
