//! Test cases and proof inputs/outputs for checking the group-action
//! circuit against the classical reference.
use crate::ec::curve::{AffinePoint, CurveParams};
use vstd::prelude::*;

verus! {

/// A single test case: the circuit must compute [a]G + [b]Q.
#[derive(Clone, Copy, Debug)]
pub struct TestCase {
    /// Scalar for the generator G.
    pub a: u64,
    /// Scalar for the target point Q.
    pub b: u64,
    /// Target point Q = [k]G (the public key being attacked).
    pub target_q: AffinePoint,
    /// Expected result [a]G + [b]Q (classical reference).
    pub expected: AffinePoint,
}

/// Input data for a proof run: everything needed to build the circuit and
/// check it against classical ground truth.
#[derive(Clone, Debug)]
pub struct ProofInput {
    /// Curve parameters (Oath-N tier).
    pub curve: CurveParams,
    /// Window size for circuit construction.
    pub window_size: usize,
    /// Test cases to check.
    pub test_cases: Vec<TestCase>,
}

/// Public values committed by a proof run.
#[derive(Clone, Copy, Debug)]
pub struct ProofOutput {
    /// Peak logical qubit count of the constructed circuit.
    pub qubit_count: usize,
    /// Total Toffoli gates in the circuit.
    pub toffoli_count: usize,
    /// Total CNOT gates in the circuit.
    pub cnot_count: usize,
    /// Circuit depth (critical path length).
    pub depth: usize,
    /// Number of test cases successfully checked.
    pub num_test_cases: usize,
    /// Field size in bits (identifies the Oath-N tier).
    pub field_bits: usize,
    /// Window size used for circuit construction.
    pub window_size: usize,
    /// SHA-256 hash of the serialized circuit summary.
    pub circuit_hash: [u8; 32],
}

} // verus!
