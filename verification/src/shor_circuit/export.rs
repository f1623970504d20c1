//! OpenQASM 3.0 export of the single-scalar circuit.
use crate::group_action::export::{as_quantum, qasm_lines};
use crate::group_action::quantum_gate::{qasm_text, QuantumGate};
use crate::reversible::blocks::{concat_map, lemma_concat_map_prefix};
use crate::reversible::gates::Gate;
use crate::shor_circuit::shor::ShorCircuit;
use crate::text::decimal::{decimal, push_decimal};
use vstd::prelude::*;
use vstd::string::StringExecFns;

verus! {

/// The OpenQASM text of the circuit.
pub open spec fn shor_circuit_qasm(c: ShorCircuit) -> Seq<char> {
    "OPENQASM 3.0;\ninclude \"stdgates.inc\";\n\n// Oathbreaker: Oath-64 ECDLP circuit over GF(2^64 - 2^32 + 1)\n// Field bits: "@
        + decimal(c.curve.field_bits as nat) + ", Window size: "@ + decimal(c.window_size as nat)
        + "\n// Total qubits: "@ + decimal(c.resources.qubit_high_water as nat) + ", Toffoli gates: "@ + decimal(
        c.resources.toffoli_count as nat,
    ) + "\n\nqubit["@ + decimal(c.resources.qubit_high_water as nat) + "] q;\n\n"@ + qasm_lines(
        as_quantum(c.gate_log@),
    )
}

/// Export the circuit in OpenQASM 3.0 format: a header with the field and
/// window size, the qubit and Toffoli counts, the qubit register, and every
/// reversible gate of the log.
pub fn export_qasm(circuit: &ShorCircuit) -> (r: String)
    ensures
        r@ == shor_circuit_qasm(*circuit),
{
    let mut qasm = String::new();
    qasm.append(
        "OPENQASM 3.0;\ninclude \"stdgates.inc\";\n\n// Oathbreaker: Oath-64 ECDLP circuit over GF(2^64 - 2^32 + 1)\n// Field bits: ",
    );
    push_decimal(&mut qasm, circuit.curve.field_bits as u64);
    qasm.append(", Window size: ");
    push_decimal(&mut qasm, circuit.window_size as u64);
    qasm.append("\n// Total qubits: ");
    push_decimal(&mut qasm, circuit.qubit_count() as u64);
    qasm.append(", Toffoli gates: ");
    push_decimal(&mut qasm, circuit.toffoli_count() as u64);
    qasm.append("\n\nqubit[");
    push_decimal(&mut qasm, circuit.qubit_count() as u64);
    qasm.append("] q;\n\n");
    let ghost s0 = qasm@;
    let ghost qs = as_quantum(circuit.gate_log@);
    let ghost f = |i: int| qasm_text(qs[i]) + "\n"@;
    let mut i: usize = 0;
    while i < circuit.gate_log.len()
        invariant
            i <= circuit.gate_log@.len(),
            qs == as_quantum(circuit.gate_log@),
            qs.len() == circuit.gate_log@.len(),
            f == (|i: int| qasm_text(qs[i]) + "\n"@),
            qasm@ == s0 + concat_map(f, 0, i as int),
        decreases circuit.gate_log@.len() - i,
    {
        proof {
            lemma_concat_map_prefix(f, 0, i as int, circuit.gate_log@.len() as int);
        }
        let q = QuantumGate::Reversible(circuit.gate_log[i]);
        let line = q.to_qasm();
        qasm.append(line.as_str());
        qasm.append("\n");
        proof {
            assert(qs[i as int] == q);
            assert(qasm@ =~= s0 + concat_map(f, 0, i + 1));
        }
        i = i + 1;
    }
    proof {
        assert(qasm@ =~= shor_circuit_qasm(*circuit));
    }
    qasm
}

} // verus!
