//! Resource model of the quantum Fourier transform.
use crate::text::decimal::{decimal, push_decimal};
use vstd::prelude::*;
use vstd::string::StringExecFns;

verus! {

/// QFT resource estimate: per register n Hadamards, n(n−1)/2 controlled
/// rotations and ⌊n/2⌋ swaps, for one or two registers.
#[derive(Clone, Copy, Debug)]
pub struct QftResourceEstimate {
    /// Number of qubits per register.
    pub num_qubits: usize,
    /// Number of registers QFT is applied to (2 for ECDLP).
    pub num_registers: usize,
    /// Hadamard gates (all registers).
    pub hadamard_count: usize,
    /// Controlled phase rotation gates (all registers).
    pub controlled_rotation_count: usize,
    /// SWAP gates (all registers).
    pub swap_count: usize,
    /// Total gates across all registers.
    pub total_gates: usize,
}

/// Gates of a QFT on one n-qubit register: n + n(n−1)/2 + ⌊n/2⌋.
pub open spec fn qft_single_total(n: int) -> int {
    n + n * (n - 1) / 2 + n / 2
}

impl QftResourceEstimate {
    /// Estimate QFT resources for a single n-qubit register.
    pub fn for_single_register(n: usize) -> (r: Self)
        requires
            n >= 1,
            n * (n - 1) <= usize::MAX,
            qft_single_total(n as int) <= usize::MAX,
        ensures
            r.num_qubits == n,
            r.num_registers == 1,
            r.hadamard_count == n,
            r.controlled_rotation_count == n * (n - 1) / 2,
            r.swap_count == n / 2,
            r.total_gates == qft_single_total(n as int),
    {
        proof {
            assert(n * (n - 1) >= 0) by (nonlinear_arith)
                requires
                    n >= 1,
            ;
            assert(n * (n - 1) <= 2 * (n * (n - 1) / 2) + 1);
        }
        let hadamards = n;
        let rotations = n * (n - 1) / 2;
        let swaps = n / 2;
        QftResourceEstimate {
            num_qubits: n,
            num_registers: 1,
            hadamard_count: hadamards,
            controlled_rotation_count: rotations,
            swap_count: swaps,
            total_gates: hadamards + rotations + swaps,
        }
    }

    /// Estimate QFT resources for the two exponent registers of Shor's
    /// ECDLP: twice the single-register counts.
    pub fn for_dual_register(n: usize) -> (r: Self)
        requires
            n >= 1,
            n * (n - 1) <= usize::MAX,
            2 * qft_single_total(n as int) <= usize::MAX,
        ensures
            r.num_qubits == n,
            r.num_registers == 2,
            r.hadamard_count == 2 * n,
            r.controlled_rotation_count == 2 * (n * (n - 1) / 2),
            r.swap_count == 2 * (n / 2),
            r.total_gates == 2 * qft_single_total(n as int),
    {
        proof {
            assert(n * (n - 1) >= 0) by (nonlinear_arith)
                requires
                    n >= 1,
            ;
        }
        let single = Self::for_single_register(n);
        QftResourceEstimate {
            num_qubits: n,
            num_registers: 2,
            hadamard_count: single.hadamard_count * 2,
            controlled_rotation_count: single.controlled_rotation_count * 2,
            swap_count: single.swap_count * 2,
            total_gates: single.total_gates * 2,
        }
    }

    /// A summary of the estimate.
    pub fn summary(&self) -> (s: String)
        ensures
            s@ == "QFT Resource Estimate ("@ + decimal(self.num_registers as nat) + " register(s) x "@
                + decimal(self.num_qubits as nat) + " qubits):\n├── Hadamard gates:           "@ + decimal(
                self.hadamard_count as nat,
            ) + "\n├── Controlled rotations:     "@ + decimal(self.controlled_rotation_count as nat)
                + "\n├── SWAP gates:               "@ + decimal(self.swap_count as nat)
                + "\n└── Total QFT gates:          "@ + decimal(self.total_gates as nat)
                + "\nNote: <0.1% of EC arithmetic cost. Deferred to v2."@,
    {
        let mut s = String::new();
        s.append("QFT Resource Estimate (");
        push_decimal(&mut s, self.num_registers as u64);
        s.append(" register(s) x ");
        push_decimal(&mut s, self.num_qubits as u64);
        s.append(" qubits):\n├── Hadamard gates:           ");
        push_decimal(&mut s, self.hadamard_count as u64);
        s.append("\n├── Controlled rotations:     ");
        push_decimal(&mut s, self.controlled_rotation_count as u64);
        s.append("\n├── SWAP gates:               ");
        push_decimal(&mut s, self.swap_count as u64);
        s.append("\n└── Total QFT gates:          ");
        push_decimal(&mut s, self.total_gates as u64);
        s.append("\nNote: <0.1% of EC arithmetic cost. Deferred to v2.");
        s
    }
}

} // verus!
