pub mod ec_spec;
pub mod curve;
pub mod point_ops;
pub mod point_ops_generic;
pub mod double_scalar_mul;
pub mod ecdlp;
pub mod test_case;
pub mod laws;
