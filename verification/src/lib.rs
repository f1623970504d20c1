pub mod field;
pub mod ec;
pub mod group_action;
pub mod reversible;
pub mod text;
pub mod shor_circuit;
pub mod benchmark;
