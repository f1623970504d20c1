pub mod gates;
pub mod resource_counter;
pub mod register;
pub mod ancilla;
pub mod adder;
pub mod blocks;
pub mod multiplier;
pub mod montgomery;
pub mod inverter;
pub mod circuit_ops;
pub mod ec_add_affine;
pub mod ec_double_affine;
pub mod ec_add_jacobian;
pub mod ec_double_jacobian;
pub mod ec_double_jacobian_v3;
pub mod adder_laws;
pub mod bennett_laws;
pub mod multiplier_laws;
pub mod modular_adder_laws;
pub mod modmul_laws;
pub mod gate_wf;
pub mod ec_affine_laws;
