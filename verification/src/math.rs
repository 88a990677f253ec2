pub mod scalar;
pub mod trig;
pub mod utils;
