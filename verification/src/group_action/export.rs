//! OpenQASM 3.0 export of the group-action circuit and of the complete Shor
//! circuit.
use crate::group_action::double_scalar::GroupActionCircuit;
use crate::group_action::qft::{is_measure, lemma_shor_measurements_one_to_one, measure_bits_distinct, measures_into_own_bit, shor_qft_measure};
use crate::group_action::quantum_gate::{count_total, qasm_text, QuantumGate};
use crate::group_action::shor::ShorsEcdlp;
use crate::reversible::blocks::{concat_map, lemma_concat_map_prefix};
use crate::reversible::gates::Gate;
use crate::text::decimal::{decimal, push_decimal};
use vstd::prelude::*;
use vstd::string::StringExecFns;

verus! {

/// One statement per line for a list of quantum gates.
pub open spec fn qasm_lines(gs: Seq<QuantumGate>) -> Seq<char> {
    concat_map(|i: int| qasm_text(gs[i]) + "\n"@, 0, gs.len() as int)
}

/// The reversible gates as quantum gates.
pub open spec fn as_quantum(gs: Seq<Gate>) -> Seq<QuantumGate> {
    gs.map_values(|g: Gate| QuantumGate::Reversible(g))
}

/// Appends one statement per line.
fn push_qasm_lines(s: &mut String, gates: &Vec<QuantumGate>)
    ensures
        final(s)@ == old(s)@ + qasm_lines(gates@),
{
    let ghost s0 = s@;
    let ghost f = |i: int| qasm_text(gates@[i]) + "\n"@;
    let mut i: usize = 0;
    while i < gates.len()
        invariant
            i <= gates@.len(),
            f == (|i: int| qasm_text(gates@[i]) + "\n"@),
            s@ == s0 + concat_map(f, 0, i as int),
        decreases gates@.len() - i,
    {
        proof {
            lemma_concat_map_prefix(f, 0, i as int, gates@.len() as int);
        }
        let line = gates[i].to_qasm();
        s.append(line.as_str());
        s.append("\n");
        proof {
            assert(s@ =~= s0 + concat_map(f, 0, i + 1));
        }
        i = i + 1;
    }
}

/// Appends one statement per line for reversible gates.
fn push_gate_lines(s: &mut String, gates: &Vec<Gate>)
    ensures
        final(s)@ == old(s)@ + qasm_lines(as_quantum(gates@)),
{
    let ghost s0 = s@;
    let ghost qs = as_quantum(gates@);
    let ghost f = |i: int| qasm_text(qs[i]) + "\n"@;
    let mut i: usize = 0;
    while i < gates.len()
        invariant
            i <= gates@.len(),
            qs == as_quantum(gates@),
            qs.len() == gates@.len(),
            f == (|i: int| qasm_text(qs[i]) + "\n"@),
            s@ == s0 + concat_map(f, 0, i as int),
        decreases gates@.len() - i,
    {
        proof {
            lemma_concat_map_prefix(f, 0, i as int, gates@.len() as int);
        }
        let q = QuantumGate::Reversible(gates[i]);
        let line = q.to_qasm();
        s.append(line.as_str());
        s.append("\n");
        proof {
            assert(qs[i as int] == q);
            assert(s@ =~= s0 + concat_map(f, 0, i + 1));
        }
        i = i + 1;
    }
}

/// The OpenQASM text of a group-action circuit.
pub open spec fn group_action_qasm(c: GroupActionCircuit) -> Seq<char> {
    "OPENQASM 3.0;\ninclude \"stdgates.inc\";\n\n// Oathbreaker: coherent group-action circuit\n// Computes |a⟩|b⟩|O⟩ → |a⟩|b⟩|[a]G + [b]Q⟩\n// Field: GF(2^"@
        + decimal(c.curve.field_bits as nat) + " - 2^"@ + decimal((c.curve.field_bits / 2) as nat)
        + " + 1), Window size: "@ + decimal(c.window_size as nat) + "\n// Total qubits: "@ + decimal(
        c.resources.qubit_high_water as nat,
    ) + ", Toffoli gates: "@ + decimal(c.resources.toffoli_count as nat) + "\n\nqubit["@ + decimal(
        c.resources.qubit_high_water as nat,
    ) + "] q;\n\n"@ + qasm_lines(as_quantum(c.gate_log@)) + "\n// QFT gates: "@ + decimal(
        c.qft_estimate.total_gates as nat,
    ) + " (Hadamard: "@ + decimal(c.qft_estimate.hadamard_count as nat) + ", Rotations: "@ + decimal(
        c.qft_estimate.controlled_rotation_count as nat,
    ) + ", SWAPs: "@ + decimal(c.qft_estimate.swap_count as nat) + ")\n"@
}

/// Export the group-action circuit in OpenQASM 3.0 format: a header with
/// the field, window size, qubit and Toffoli counts, the qubit register,
/// every reversible gate of the log, and the QFT estimate as a comment.
pub fn export_qasm(circuit: &GroupActionCircuit) -> (r: String)
    ensures
        r@ == group_action_qasm(*circuit),
{
    let mut qasm = String::new();
    qasm.append(
        "OPENQASM 3.0;\ninclude \"stdgates.inc\";\n\n// Oathbreaker: coherent group-action circuit\n// Computes |a⟩|b⟩|O⟩ → |a⟩|b⟩|[a]G + [b]Q⟩\n// Field: GF(2^",
    );
    push_decimal(&mut qasm, circuit.curve.field_bits as u64);
    qasm.append(" - 2^");
    push_decimal(&mut qasm, (circuit.curve.field_bits / 2) as u64);
    qasm.append(" + 1), Window size: ");
    push_decimal(&mut qasm, circuit.window_size as u64);
    qasm.append("\n// Total qubits: ");
    push_decimal(&mut qasm, circuit.qubit_count() as u64);
    qasm.append(", Toffoli gates: ");
    push_decimal(&mut qasm, circuit.toffoli_count() as u64);
    qasm.append("\n\nqubit[");
    push_decimal(&mut qasm, circuit.qubit_count() as u64);
    qasm.append("] q;\n\n");
    push_gate_lines(&mut qasm, &circuit.gate_log);
    qasm.append("\n// QFT gates: ");
    push_decimal(&mut qasm, circuit.qft_estimate.total_gates as u64);
    qasm.append(" (Hadamard: ");
    push_decimal(&mut qasm, circuit.qft_estimate.hadamard_count as u64);
    qasm.append(", Rotations: ");
    push_decimal(&mut qasm, circuit.qft_estimate.controlled_rotation_count as u64);
    qasm.append(", SWAPs: ");
    push_decimal(&mut qasm, circuit.qft_estimate.swap_count as u64);
    qasm.append(")\n");
    proof {
        assert(qasm@ =~= group_action_qasm(*circuit));
    }
    qasm
}

/// The OpenQASM text of a complete Shor circuit.
pub open spec fn shor_qasm(s: ShorsEcdlp) -> Seq<char> {
    let c = s.group_action_circuit;
    let n = s.curve.field_bits as nat;
    let g = s.gate_counts;
    "OPENQASM 3.0;\ninclude \"stdgates.inc\";\n\n// Oathbreaker: Complete Shor's ECDLP circuit (Oath-"@ + decimal(n)
        + ")\n// Stages: Group-action map + Inverse QFT + Measurement\n// Window size: "@ + decimal(
        s.window_size as nat,
    ) + ", Coordinate system: "@ + c.coordinate_system@ + "\n// Total gates: "@ + decimal(count_total(g) as nat)
        + " (Toffoli: "@ + decimal(g.toffoli as nat) + ", QFT: "@ + decimal(
        (g.hadamard + g.controlled_phase + g.swap) as nat,
    ) + ", Measurement: "@ + decimal(g.measurement as nat) + ")\n\nqubit["@ + decimal(
        c.resources.qubit_high_water as nat,
    ) + "] q;\nbit["@ + decimal(2 * n) + "] c;\n\n// === Stage 1: Group-action map [a]G + [b]Q ===\n"@
        + qasm_lines(as_quantum(c.gate_log@))
        + "\n// === Stage 2: Inverse QFT on exponent registers ===\n// === Stage 3: Measurement ===\n"@
        + qasm_lines(s.qft_measurement_gates@)
}

/// Export the complete Shor's ECDLP circuit in OpenQASM 3.0 format: header,
/// quantum and classical registers, the group-action gates, then the
/// inverse QFT and measurement statements.
pub fn export_shor_qasm(shor: &ShorsEcdlp) -> (r: String)
    requires
        count_total(shor.gate_counts) <= usize::MAX,
        2 * shor.curve.field_bits <= usize::MAX,
    ensures
        r@ == shor_qasm(*shor),
{
    let circuit = &shor.group_action_circuit;
    let n = shor.curve.field_bits;
    let mut qasm = String::new();
    qasm.append("OPENQASM 3.0;\ninclude \"stdgates.inc\";\n\n// Oathbreaker: Complete Shor's ECDLP circuit (Oath-");
    push_decimal(&mut qasm, n as u64);
    qasm.append(")\n// Stages: Group-action map + Inverse QFT + Measurement\n// Window size: ");
    push_decimal(&mut qasm, shor.window_size as u64);
    qasm.append(", Coordinate system: ");
    qasm.append(circuit.coordinate_system.as_str());
    qasm.append("\n// Total gates: ");
    push_decimal(&mut qasm, shor.gate_counts.total() as u64);
    qasm.append(" (Toffoli: ");
    push_decimal(&mut qasm, shor.gate_counts.toffoli as u64);
    qasm.append(", QFT: ");
    push_decimal(
        &mut qasm,
        (shor.gate_counts.hadamard + shor.gate_counts.controlled_phase + shor.gate_counts.swap) as u64,
    );
    qasm.append(", Measurement: ");
    push_decimal(&mut qasm, shor.gate_counts.measurement as u64);
    qasm.append(")\n\nqubit[");
    push_decimal(&mut qasm, circuit.qubit_count() as u64);
    qasm.append("] q;\nbit[");
    push_decimal(&mut qasm, (2 * n) as u64);
    qasm.append("] c;\n\n// === Stage 1: Group-action map [a]G + [b]Q ===\n");
    push_gate_lines(&mut qasm, &circuit.gate_log);
    qasm.append("\n// === Stage 2: Inverse QFT on exponent registers ===\n// === Stage 3: Measurement ===\n");
    push_qasm_lines(&mut qasm, &shor.qft_measurement_gates);
    proof {
        assert(qasm@ =~= shor_qasm(*shor));
    }
    qasm
}

/// `text` holds the declaration of a quantum register q of m qubits.
pub open spec fn declares_qubit_register(text: Seq<char>, m: nat) -> bool {
    let d = "qubit["@ + decimal(m) + "] q;"@;
    exists|i: int| 0 <= i && i + d.len() <= text.len() && #[trigger] text.subrange(i, i + d.len()) == d
}

/// `text` holds the declaration of a classical register c of m bits.
pub open spec fn declares_classical_register(text: Seq<char>, m: nat) -> bool {
    let d = "bit["@ + decimal(m) + "] c;"@;
    exists|i: int| 0 <= i && i + d.len() <= text.len() && #[trigger] text.subrange(i, i + d.len()) == d
}

/// The Shor program declares a quantum register of the circuit's peak
/// qubit count and a classical register of 2n bits for the two n-bit
/// exponent registers, its reversible stage measures nothing, and its
/// measurement stage writes each classical bit below 2n at most once, bit q
/// from qubit q.
pub proof fn lemma_shor_qasm_classical_register(s: ShorsEcdlp)
    requires
        s.qft_measurement_gates@ == shor_qft_measure(s.curve.field_bits as int),
        2 * s.curve.field_bits <= usize::MAX,
    ensures
        declares_classical_register(shor_qasm(s), 2 * (s.curve.field_bits as nat)),
        declares_qubit_register(shor_qasm(s), s.group_action_circuit.resources.qubit_high_water as nat),
        forall|k: int|
            0 <= k < as_quantum(s.group_action_circuit.gate_log@).len() ==> !is_measure(
                #[trigger] as_quantum(s.group_action_circuit.gate_log@)[k],
            ),
        measures_into_own_bit(s.qft_measurement_gates@, 2 * s.curve.field_bits),
        measure_bits_distinct(s.qft_measurement_gates@),
{
    let c = s.group_action_circuit;
    let n = s.curve.field_bits as nat;
    let g = s.gate_counts;
    lemma_shor_measurements_one_to_one(n as int);
    let pre0 = "OPENQASM 3.0;\ninclude \"stdgates.inc\";\n\n// Oathbreaker: Complete Shor's ECDLP circuit (Oath-"@
        + decimal(n) + ")\n// Stages: Group-action map + Inverse QFT + Measurement\n// Window size: "@ + decimal(
        s.window_size as nat,
    ) + ", Coordinate system: "@ + c.coordinate_system@ + "\n// Total gates: "@ + decimal(count_total(g) as nat)
        + " (Toffoli: "@ + decimal(g.toffoli as nat) + ", QFT: "@ + decimal(
        (g.hadamard + g.controlled_phase + g.swap) as nat,
    ) + ", Measurement: "@ + decimal(g.measurement as nat);
    let lq = ")\n\nqubit["@;
    let dq = decimal(c.resources.qubit_high_water as nat);
    let pre = pre0 + lq + dq;
    let l1 = "] q;\nbit["@;
    let d = decimal(2 * n);
    let l2 = "] c;\n\n// === Stage 1: Group-action map [a]G + [b]Q ===\n"@;
    let post = qasm_lines(as_quantum(c.gate_log@))
        + "\n// === Stage 2: Inverse QFT on exponent registers ===\n// === Stage 3: Measurement ===\n"@
        + qasm_lines(s.qft_measurement_gates@);
    let text = shor_qasm(s);
    assert(text =~= pre + l1 + d + l2 + post);
    reveal_strlit("] q;\nbit[");
    reveal_strlit("] c;\n\n// === Stage 1: Group-action map [a]G + [b]Q ===\n");
    reveal_strlit("bit[");
    reveal_strlit("] c;");
    let decl = "bit["@ + d + "] c;"@;
    let i = (pre + l1).len() - 4;
    assert(text.subrange(i, i + decl.len()) =~= decl);
    reveal_strlit(")\n\nqubit[");
    reveal_strlit("qubit[");
    reveal_strlit("] q;");
    let qdecl = "qubit["@ + dq + "] q;"@;
    let iq = (pre0 + lq).len() - 6;
    assert(text =~= pre0 + lq + dq + l1 + (d + l2 + post));
    assert(text.subrange(iq, iq + qdecl.len()) =~= qdecl);
    assert forall|k: int| 0 <= k < as_quantum(c.gate_log@).len() implies !is_measure(
        #[trigger] as_quantum(c.gate_log@)[k],
    ) by {}
}

/// The group-action program declares a quantum register of the circuit's
/// peak qubit count.
pub proof fn lemma_group_action_qasm_register(c: GroupActionCircuit)
    ensures
        declares_qubit_register(group_action_qasm(c), c.resources.qubit_high_water as nat),
{
    let pre0 = "OPENQASM 3.0;\ninclude \"stdgates.inc\";\n\n// Oathbreaker: coherent group-action circuit\n// Computes |a⟩|b⟩|O⟩ → |a⟩|b⟩|[a]G + [b]Q⟩\n// Field: GF(2^"@
        + decimal(c.curve.field_bits as nat) + " - 2^"@ + decimal((c.curve.field_bits / 2) as nat)
        + " + 1), Window size: "@ + decimal(c.window_size as nat) + "\n// Total qubits: "@ + decimal(
        c.resources.qubit_high_water as nat,
    ) + ", Toffoli gates: "@ + decimal(c.resources.toffoli_count as nat);
    let lq = "\n\nqubit["@;
    let dq = decimal(c.resources.qubit_high_water as nat);
    let l1 = "] q;\n\n"@;
    let post = qasm_lines(as_quantum(c.gate_log@)) + "\n// QFT gates: "@ + decimal(
        c.qft_estimate.total_gates as nat,
    ) + " (Hadamard: "@ + decimal(c.qft_estimate.hadamard_count as nat) + ", Rotations: "@ + decimal(
        c.qft_estimate.controlled_rotation_count as nat,
    ) + ", SWAPs: "@ + decimal(c.qft_estimate.swap_count as nat) + ")\n"@;
    let text = group_action_qasm(c);
    assert(text =~= pre0 + lq + dq + l1 + post);
    reveal_strlit("\n\nqubit[");
    reveal_strlit("qubit[");
    reveal_strlit("] q;\n\n");
    reveal_strlit("] q;");
    let qdecl = "qubit["@ + dq + "] q;"@;
    let iq = (pre0 + lq).len() - 6;
    assert(text.subrange(iq, iq + qdecl.len()) =~= qdecl);
}

} // verus!
