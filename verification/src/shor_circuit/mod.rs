pub mod phase_estimation;
pub mod precompute;
pub mod qft;
pub mod scalar_mul;
pub mod shor;
pub mod export;
