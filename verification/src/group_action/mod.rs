pub mod continued_fraction;
pub mod measurement;
pub mod wnaf;
pub mod quantum_gate;
pub mod qft_stub;
pub mod qft;
pub mod precompute;
pub mod window_effects;
pub mod scalar_mul;
pub mod scalar_mul_jacobian;
pub mod scalar_mul_jacobian_v3;
pub mod double_scalar;
pub mod shor;
pub mod export;
