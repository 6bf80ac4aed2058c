pub mod field;
pub mod sample;
pub mod fixed;
pub mod rng;
