//! Gate set of the full Shor circuit (reversible arithmetic plus QFT
//! and measurement) and its OpenQASM text.
use crate::reversible::gates::{gate_qubits, Gate};
use crate::text::decimal::{decimal, push_decimal};
use vstd::prelude::*;
use vstd::string::StringExecFns;

verus! {

/// Extended gate set for the full Shor's ECDLP quantum circuit: the
/// reversible gates of the group-action map, and the non-classical gates of
/// the QFT and measurement stages.
#[derive(Clone, Copy, Debug, PartialEq, Eq, Structural)]
pub enum QuantumGate {
    /// Classical reversible gate (NOT, CNOT, or Toffoli).
    Reversible(Gate),
    /// Hadamard gate.
    Hadamard { target: usize },
    /// Controlled phase rotation by sign·2π/2^k.
    ControlledPhase {
        control: usize,
        target: usize,
        /// Rotation denominator exponent: angle = 2π / 2^k.
        k: usize,
        /// +1 for forward QFT, −1 for inverse QFT.
        sign: i8,
    },
    /// Swap two qubits (QFT bit reversal).
    Swap { qubit_a: usize, qubit_b: usize },
    /// Measurement in the computational basis.
    Measure { qubit: usize, classical_bit: usize },
}

/// The qubits a gate acts on.
pub open spec fn quantum_gate_qubits(g: QuantumGate) -> Seq<usize> {
    match g {
        QuantumGate::Reversible(r) => gate_qubits(r),
        QuantumGate::Hadamard { target } => seq![target],
        QuantumGate::ControlledPhase { control, target, .. } => seq![control, target],
        QuantumGate::Swap { qubit_a, qubit_b } => seq![qubit_a, qubit_b],
        QuantumGate::Measure { qubit, .. } => seq![qubit],
    }
}

/// "q[i]".
pub open spec fn qref(i: usize) -> Seq<char> {
    "q["@ + decimal(i as nat) + "]"@
}

/// The OpenQASM 3.0 statement of a gate.
pub open spec fn qasm_text(g: QuantumGate) -> Seq<char> {
    match g {
        QuantumGate::Reversible(r) => match r {
            Gate::Not { target } => "x "@ + qref(target) + ";"@,
            Gate::Cnot { control, target } => "cx "@ + qref(control) + ", "@ + qref(target) + ";"@,
            Gate::Toffoli { control1, control2, target } => "ccx "@ + qref(control1) + ", "@ + qref(control2)
                + ", "@ + qref(target) + ";"@,
        },
        QuantumGate::Hadamard { target } => "h "@ + qref(target) + ";"@,
        QuantumGate::ControlledPhase { control, target, k, sign } => "cp("@ + (if sign < 0 {
            "-"@
        } else {
            ""@
        }) + "2*pi/2**"@ + decimal(k as nat) + ") "@ + qref(control) + ", "@ + qref(target) + ";"@,
        QuantumGate::Swap { qubit_a, qubit_b } => "swap "@ + qref(qubit_a) + ", "@ + qref(qubit_b) + ";"@,
        QuantumGate::Measure { qubit, classical_bit } => "c["@ + decimal(classical_bit as nat) + "] = measure "@
            + qref(qubit) + ";"@,
    }
}

/// Appends "q[i]".
fn push_qref(s: &mut String, i: usize)
    ensures
        final(s)@ == old(s)@ + qref(i),
{
    s.append("q[");
    push_decimal(s, i as u64);
    s.append("]");
    proof {
        assert(final(s)@ =~= old(s)@ + qref(i));
    }
}

impl QuantumGate {
    /// The qubit indices this gate operates on.
    pub fn qubits(&self) -> (r: Vec<usize>)
        ensures
            r@ == quantum_gate_qubits(*self),
    {
        match self {
            QuantumGate::Reversible(g) => g.qubits(),
            QuantumGate::Hadamard { target } => vec![*target],
            QuantumGate::ControlledPhase { control, target, .. } => vec![*control, *target],
            QuantumGate::Swap { qubit_a, qubit_b } => vec![*qubit_a, *qubit_b],
            QuantumGate::Measure { qubit, .. } => vec![*qubit],
        }
    }

    /// This gate as an OpenQASM 3.0 statement.
    pub fn to_qasm(&self) -> (r: String)
        ensures
            r@ == qasm_text(*self),
    {
        let mut s = String::new();
        match self {
            QuantumGate::Reversible(g) => match g {
                Gate::Not { target } => {
                    s.append("x ");
                    push_qref(&mut s, *target);
                    s.append(";");
                },
                Gate::Cnot { control, target } => {
                    s.append("cx ");
                    push_qref(&mut s, *control);
                    s.append(", ");
                    push_qref(&mut s, *target);
                    s.append(";");
                },
                Gate::Toffoli { control1, control2, target } => {
                    s.append("ccx ");
                    push_qref(&mut s, *control1);
                    s.append(", ");
                    push_qref(&mut s, *control2);
                    s.append(", ");
                    push_qref(&mut s, *target);
                    s.append(";");
                },
            },
            QuantumGate::Hadamard { target } => {
                s.append("h ");
                push_qref(&mut s, *target);
                s.append(";");
            },
            QuantumGate::ControlledPhase { control, target, k, sign } => {
                s.append("cp(");
                if *sign < 0 {
                    s.append("-");
                } else {
                    s.append("");
                }
                s.append("2*pi/2**");
                push_decimal(&mut s, *k as u64);
                s.append(") ");
                push_qref(&mut s, *control);
                s.append(", ");
                push_qref(&mut s, *target);
                s.append(";");
            },
            QuantumGate::Swap { qubit_a, qubit_b } => {
                s.append("swap ");
                push_qref(&mut s, *qubit_a);
                s.append(", ");
                push_qref(&mut s, *qubit_b);
                s.append(";");
            },
            QuantumGate::Measure { qubit, classical_bit } => {
                s.append("c[");
                push_decimal(&mut s, *classical_bit as u64);
                s.append("] = measure ");
                push_qref(&mut s, *qubit);
                s.append(";");
            },
        }
        proof {
            assert(s@ =~= qasm_text(*self));
        }
        s
    }
}

/// Aggregate gate counts for the full Shor circuit (reversible + quantum).
#[derive(Clone, Copy, Debug)]
pub struct QuantumGateCount {
    /// Classical reversible gates (from the group-action map).
    pub toffoli: usize,
    pub cnot: usize,
    pub not: usize,
    /// QFT-specific gates.
    pub hadamard: usize,
    pub controlled_phase: usize,
    pub swap: usize,
    /// Measurement operations.
    pub measurement: usize,
}

/// The tallies of a gate list, as a count record.
pub open spec fn count_gates(gs: Seq<QuantumGate>) -> QuantumGateCount
    decreases gs.len(),
{
    if gs.len() == 0 {
        QuantumGateCount {
            toffoli: 0,
            cnot: 0,
            not: 0,
            hadamard: 0,
            controlled_phase: 0,
            swap: 0,
            measurement: 0,
        }
    } else {
        count_one(count_gates(gs.drop_last()), gs.last())
    }
}

/// A count record with one more gate.
pub open spec fn count_one(c: QuantumGateCount, g: QuantumGate) -> QuantumGateCount {
    match g {
        QuantumGate::Reversible(r) => match r {
            Gate::Toffoli { .. } => QuantumGateCount { toffoli: (c.toffoli + 1) as usize, ..c },
            Gate::Cnot { .. } => QuantumGateCount { cnot: (c.cnot + 1) as usize, ..c },
            Gate::Not { .. } => QuantumGateCount { not: (c.not + 1) as usize, ..c },
        },
        QuantumGate::Hadamard { .. } => QuantumGateCount { hadamard: (c.hadamard + 1) as usize, ..c },
        QuantumGate::ControlledPhase { .. } => QuantumGateCount {
            controlled_phase: (c.controlled_phase + 1) as usize,
            ..c
        },
        QuantumGate::Swap { .. } => QuantumGateCount { swap: (c.swap + 1) as usize, ..c },
        QuantumGate::Measure { .. } => QuantumGateCount { measurement: (c.measurement + 1) as usize, ..c },
    }
}

/// The sum of all tallies.
pub open spec fn count_total(c: QuantumGateCount) -> int {
    c.toffoli + c.cnot + c.not + c.hadamard + c.controlled_phase + c.swap + c.measurement
}

/// Every tally of a list is at most its length, and they add up to it.
pub proof fn lemma_count_gates_total(gs: Seq<QuantumGate>)
    requires
        gs.len() <= usize::MAX,
    ensures
        count_total(count_gates(gs)) == gs.len(),
    decreases gs.len(),
{
    if gs.len() > 0 {
        lemma_count_gates_total(gs.drop_last());
    }
}

impl Default for QuantumGateCount {
    fn default() -> (r: Self)
        ensures
            r == count_gates(Seq::empty()),
    {
        QuantumGateCount { toffoli: 0, cnot: 0, not: 0, hadamard: 0, controlled_phase: 0, swap: 0, measurement: 0 }
    }
}

impl QuantumGateCount {
    /// Count gates from a gate sequence.
    pub fn from_gates(gates: &[QuantumGate]) -> (r: Self)
        ensures
            r == count_gates(gates@),
    {
        let mut counts = Self::default();
        let mut i: usize = 0;
        while i < gates.len()
            invariant
                i <= gates@.len(),
                counts == count_gates(gates@.take(i as int)),
            decreases gates@.len() - i,
        {
            proof {
                lemma_count_gates_total(gates@.take(i as int));
                assert(gates@.take(i + 1).drop_last() =~= gates@.take(i as int));
            }
            counts.record(&gates[i]);
            i = i + 1;
        }
        proof {
            assert(gates@.take(gates@.len() as int) =~= gates@);
        }
        counts
    }

    /// Record a single gate.
    pub fn record(&mut self, gate: &QuantumGate)
        requires
            count_total(*old(self)) < usize::MAX,
        ensures
            *final(self) == count_one(*old(self), *gate),
    {
        match gate {
            QuantumGate::Reversible(g) => match g {
                Gate::Toffoli { .. } => self.toffoli = self.toffoli + 1,
                Gate::Cnot { .. } => self.cnot = self.cnot + 1,
                Gate::Not { .. } => self.not = self.not + 1,
            },
            QuantumGate::Hadamard { .. } => self.hadamard = self.hadamard + 1,
            QuantumGate::ControlledPhase { .. } => self.controlled_phase = self.controlled_phase + 1,
            QuantumGate::Swap { .. } => self.swap = self.swap + 1,
            QuantumGate::Measure { .. } => self.measurement = self.measurement + 1,
        }
    }

    /// Total gate count across all types.
    pub fn total(&self) -> (r: usize)
        requires
            count_total(*self) <= usize::MAX,
        ensures
            r == count_total(*self),
    {
        self.toffoli + self.cnot + self.not + self.hadamard + self.controlled_phase + self.swap + self.measurement
    }

    /// A summary table of the counts.
    pub fn summary(&self) -> (s: String)
        requires
            count_total(*self) <= usize::MAX,
        ensures
            s@ == "Quantum Gate Counts:\n├── Toffoli:            "@ + decimal(self.toffoli as nat)
                + "\n├── CNOT:               "@ + decimal(self.cnot as nat) + "\n├── NOT:                "@
                + decimal(self.not as nat) + "\n├── Hadamard:           "@ + decimal(self.hadamard as nat)
                + "\n├── Controlled-Phase:   "@ + decimal(self.controlled_phase as nat)
                + "\n├── SWAP:               "@ + decimal(self.swap as nat) + "\n├── Measurement:        "@
                + decimal(self.measurement as nat) + "\n└── Total:              "@ + decimal(
                count_total(*self) as nat,
            ),
    {
        let mut s = String::new();
        s.append("Quantum Gate Counts:\n├── Toffoli:            ");
        push_decimal(&mut s, self.toffoli as u64);
        s.append("\n├── CNOT:               ");
        push_decimal(&mut s, self.cnot as u64);
        s.append("\n├── NOT:                ");
        push_decimal(&mut s, self.not as u64);
        s.append("\n├── Hadamard:           ");
        push_decimal(&mut s, self.hadamard as u64);
        s.append("\n├── Controlled-Phase:   ");
        push_decimal(&mut s, self.controlled_phase as u64);
        s.append("\n├── SWAP:               ");
        push_decimal(&mut s, self.swap as u64);
        s.append("\n├── Measurement:        ");
        push_decimal(&mut s, self.measurement as u64);
        s.append("\n└── Total:              ");
        push_decimal(&mut s, self.total() as u64);
        s
    }
}

} // verus!
