pub mod probabilistic_models;
pub mod particle;
pub mod resampling;
pub mod particle_filter;
