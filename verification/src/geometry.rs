pub mod point;
pub mod vector;
pub mod ray;
pub mod target;
pub mod line;
