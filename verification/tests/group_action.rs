use oathbreaker::ec::curve::{AffinePoint, CurveParams};
use oathbreaker::ec::double_scalar_mul::double_scalar_mul;
use oathbreaker::ec::point_ops::scalar_mul;
use oathbreaker::field::goldilocks::GoldilocksField;
use oathbreaker::group_action::continued_fraction::{
    continued_fraction_convergents, gcd, mod_inverse, recover_secret_direct, recover_secret_multi,
};
use oathbreaker::group_action::double_scalar::{
    build_group_action_circuit, build_group_action_circuit_jacobian, build_group_action_circuit_jacobian_v3,
    GroupActionCircuit,
};
use oathbreaker::group_action::export::{export_qasm, export_shor_qasm};
use oathbreaker::group_action::precompute::PrecomputeTable;
use oathbreaker::group_action::qft::Qft;
use oathbreaker::group_action::qft_stub::QftResourceEstimate;
use oathbreaker::group_action::quantum_gate::{QuantumGate, QuantumGateCount};
use oathbreaker::group_action::shor::ShorsEcdlp;
use oathbreaker::reversible::gates::Gate;
use oathbreaker::shor_circuit::shor::build_shor_circuit;

#[test]
fn test_qft_estimate_single_register_64() {
    let est = QftResourceEstimate::for_single_register(64);
    assert_eq!(est.hadamard_count, 64);
    assert_eq!(est.controlled_rotation_count, 64 * 63 / 2);
    assert_eq!(est.swap_count, 32);
    assert_eq!(est.num_registers, 1);
}

#[test]
fn test_qft_estimate_dual_register_64() {
    let est = QftResourceEstimate::for_dual_register(64);
    assert_eq!(est.hadamard_count, 128);
    assert_eq!(est.controlled_rotation_count, 64 * 63);
    assert_eq!(est.swap_count, 64);
    assert_eq!(est.num_registers, 2);
}

#[test]
fn test_qft_estimate_small() {
    let est = QftResourceEstimate::for_single_register(4);
    assert_eq!(est.hadamard_count, 4);
    assert_eq!(est.controlled_rotation_count, 6);
    assert_eq!(est.swap_count, 2);
    assert_eq!(est.total_gates, 12);
}

#[test]
fn test_qft_gate_count_matches_estimate() {
    for n in [4, 8, 16, 32, 64] {
        assert!(Qft::validate_against_estimate(n), "QFT gate count mismatch for n={}", n);
    }
}

#[test]
fn test_qft_forward_gate_sequence_4() {
    let gates = Qft::forward_gates(0, 4);
    let hadamards = gates.iter().filter(|g| matches!(g, QuantumGate::Hadamard { .. })).count();
    assert_eq!(hadamards, 4);
    let rotations = gates.iter().filter(|g| matches!(g, QuantumGate::ControlledPhase { .. })).count();
    assert_eq!(rotations, 6);
    let swaps = gates.iter().filter(|g| matches!(g, QuantumGate::Swap { .. })).count();
    assert_eq!(swaps, 2);
    assert!(matches!(gates[0], QuantumGate::Hadamard { target: 0 }));
    assert!(matches!(gates[1], QuantumGate::ControlledPhase { control: 1, target: 0, k: 2, sign: 1 }));
}

#[test]
fn test_qft_inverse_negates_phases() {
    let forward = Qft::forward_gates(0, 4);
    let inverse = Qft::inverse_gates(0, 4);
    let count = |gates: &[QuantumGate], pred: fn(&QuantumGate) -> bool| -> usize {
        gates.iter().filter(|g| pred(g)).count()
    };
    let is_h = |g: &QuantumGate| matches!(g, QuantumGate::Hadamard { .. });
    let is_cr = |g: &QuantumGate| matches!(g, QuantumGate::ControlledPhase { .. });
    let is_swap = |g: &QuantumGate| matches!(g, QuantumGate::Swap { .. });
    assert_eq!(count(&forward, is_h), count(&inverse, is_h));
    assert_eq!(count(&forward, is_cr), count(&inverse, is_cr));
    assert_eq!(count(&forward, is_swap), count(&inverse, is_swap));
    for gate in &inverse {
        if let QuantumGate::ControlledPhase { sign, .. } = gate {
            assert_eq!(*sign, -1, "Inverse QFT should have sign=-1");
        }
    }
    for gate in &forward {
        if let QuantumGate::ControlledPhase { sign, .. } = gate {
            assert_eq!(*sign, 1, "Forward QFT should have sign=+1");
        }
    }
}

#[test]
fn test_qft_with_offset() {
    let gates = Qft::forward_gates(64, 4);
    for gate in &gates {
        for &q in &gate.qubits() {
            assert!((64..68).contains(&q), "Qubit {} out of offset range", q);
        }
    }
}

#[test]
fn test_shor_qft_and_measure_dual_register() {
    let n = 8;
    let gates = Qft::shor_qft_and_measure(n);
    let hadamards = gates.iter().filter(|g| matches!(g, QuantumGate::Hadamard { .. })).count();
    let measurements = gates.iter().filter(|g| matches!(g, QuantumGate::Measure { .. })).count();
    assert_eq!(hadamards, 2 * n);
    assert_eq!(measurements, 2 * n);
}

#[test]
fn test_measurement_gates_indices() {
    let gates = Qft::measurement_gates(10, 0, 4);
    assert_eq!(gates.len(), 4);
    for (i, gate) in gates.iter().enumerate() {
        match gate {
            QuantumGate::Measure { qubit, classical_bit } => {
                assert_eq!(*qubit, 10 + i);
                assert_eq!(*classical_bit, i);
            }
            _ => panic!("Expected Measure gate"),
        }
    }
}

#[test]
fn tests_test_mod_inverse_basic() {
    assert_eq!(mod_inverse(3, 11), Some(4));
    assert_eq!(mod_inverse(7, 11), Some(8));
    assert_eq!(mod_inverse(2, 4), None);
    assert_eq!(mod_inverse(1, 97), Some(1));
}

#[test]
fn test_mod_inverse_large() {
    let p = 65537u64;
    let a = 12345u64;
    let inv = mod_inverse(a, p).unwrap();
    assert_eq!((a as u128 * inv as u128) % p as u128, 1);
}

#[test]
fn test_recover_secret_direct_prime_order() {
    let order = 251u64;
    for k in [0, 1, 42, 100, 250] {
        let d = 100u64;
        let c = ((order as u128 - (k as u128 * d as u128) % order as u128) % order as u128) as u64;
        assert_eq!(recover_secret_direct(c, d, order), Some(k), "Failed to recover k={}", k);
    }
}

#[test]
fn test_recover_secret_various_d() {
    let order = 997u64;
    let k = 42u64;
    for d in [1, 2, 5, 13, 100, 500, 996] {
        let c = ((order as u128 - (k as u128 * d as u128) % order as u128) % order as u128) as u64;
        assert_eq!(recover_secret_direct(c, d, order), Some(k), "Failed for d={}", d);
    }
}

#[test]
fn test_recover_secret_multi_all_valid() {
    let order = 251u64;
    let k = 42u64;
    let pairs: Vec<(u64, u64)> = (1..=5u64)
        .map(|d| {
            let c = ((order as u128 - (k as u128 * d as u128) % order as u128) % order as u128) as u64;
            (c, d)
        })
        .collect();
    assert_eq!(recover_secret_multi(&pairs, order), Some(k));
}

#[test]
fn test_continued_fraction_7_over_3() {
    assert_eq!(continued_fraction_convergents(7, 3), vec![(2, 1), (7, 3)]);
}

#[test]
fn test_continued_fraction_355_over_113() {
    let convergents = continued_fraction_convergents(355, 113);
    assert_eq!(*convergents.last().unwrap(), (355, 113));
}

#[test]
fn test_continued_fraction_integer() {
    assert_eq!(continued_fraction_convergents(10, 1), vec![(10, 1)]);
}

#[test]
fn test_continued_fraction_fibonacci_ratio() {
    let convergents = continued_fraction_convergents(89, 55);
    assert_eq!(*convergents.last().unwrap(), (89, 55));
    assert!(convergents.len() >= 2);
}

#[test]
fn tests_test_gcd_basic() {
    assert_eq!(gcd(12, 8), 4);
    assert_eq!(gcd(17, 13), 1);
    assert_eq!(gcd(100, 25), 25);
    assert_eq!(gcd(0, 5), 5);
    assert_eq!(gcd(7, 0), 7);
    assert_eq!(gcd(1, 1), 1);
}

#[test]
fn test_quantum_gate_qasm_reversible() {
    let not_gate = QuantumGate::Reversible(Gate::Not { target: 0 });
    assert_eq!(not_gate.to_qasm(), "x q[0];");
    let cnot = QuantumGate::Reversible(Gate::Cnot { control: 0, target: 1 });
    assert_eq!(cnot.to_qasm(), "cx q[0], q[1];");
    let toffoli = QuantumGate::Reversible(Gate::Toffoli { control1: 0, control2: 1, target: 2 });
    assert_eq!(toffoli.to_qasm(), "ccx q[0], q[1], q[2];");
}

#[test]
fn test_quantum_gate_qasm_qft() {
    assert_eq!(QuantumGate::Hadamard { target: 5 }.to_qasm(), "h q[5];");
    let cr = QuantumGate::ControlledPhase { control: 1, target: 0, k: 3, sign: 1 };
    assert_eq!(cr.to_qasm(), "cp(2*pi/2**3) q[1], q[0];");
    let cr_inv = QuantumGate::ControlledPhase { control: 1, target: 0, k: 3, sign: -1 };
    assert_eq!(cr_inv.to_qasm(), "cp(-2*pi/2**3) q[1], q[0];");
    assert_eq!(QuantumGate::Swap { qubit_a: 0, qubit_b: 7 }.to_qasm(), "swap q[0], q[7];");
    assert_eq!(QuantumGate::Measure { qubit: 3, classical_bit: 3 }.to_qasm(), "c[3] = measure q[3];");
}

#[test]
fn test_quantum_gate_count() {
    let gates = Qft::shor_qft_and_measure(8);
    let counts = QuantumGateCount::from_gates(&gates);
    assert_eq!(counts.hadamard, 16);
    assert_eq!(counts.controlled_phase, 8 * 7);
    assert_eq!(counts.swap, 8);
    assert_eq!(counts.measurement, 16);
    assert_eq!(counts.toffoli, 0);
}

#[test]
fn test_quantum_gate_qubits() {
    assert_eq!(QuantumGate::Hadamard { target: 5 }.qubits(), vec![5]);
    let cr = QuantumGate::ControlledPhase { control: 3, target: 1, k: 2, sign: 1 };
    assert_eq!(cr.qubits(), vec![3, 1]);
    assert_eq!(QuantumGate::Swap { qubit_a: 0, qubit_b: 7 }.qubits(), vec![0, 7]);
}

/// y² = x³ + x + 3 over the Goldilocks field with an 8-bit circuit width.
fn test_curve_small() -> CurveParams {
    let a = GoldilocksField::new(1);
    let b = GoldilocksField::new(3);
    let gx = GoldilocksField::new(0);
    let gy_sq = gx * gx * gx + a * gx + b;
    let gy = gy_sq.sqrt().expect("y² = 3 should be a QR");
    CurveParams {
        a,
        b,
        order: GoldilocksField::P,
        generator: AffinePoint::Finite { x: gx, y: gy },
        field_bits: 8,
        prime_modulus: GoldilocksField::P,
    }
}

#[test]
fn test_shors_build_circuit() {
    let curve = test_curve_small();
    let shor = ShorsEcdlp::build(&curve, 4);
    assert!(!shor.qft_measurement_gates.is_empty());
    assert!(shor.gate_counts.hadamard > 0);
    assert!(shor.gate_counts.controlled_phase > 0);
    assert!(shor.gate_counts.swap > 0);
    assert!(shor.gate_counts.measurement > 0);
    assert!(shor.gate_counts.toffoli > 0);
    assert_eq!(shor.gate_counts.hadamard, 16);
    assert_eq!(shor.gate_counts.measurement, 16);
}

#[test]
fn test_shors_classical_verification() {
    let curve = test_curve_small();
    let k = 42u64;
    let target_q = scalar_mul(k, &curve.generator, &curve);
    let shor = ShorsEcdlp::build(&curve, 4);
    let result = shor.run_classical_verification(&target_q, k, 10);
    assert!(result.verified, "Shor's should recover and verify k");
    assert_eq!(result.recovered_k, Some(k));
    assert!(result.direct_recovery_count > 0);
    assert_eq!(result.num_trials, 10);
    assert_eq!(result.field_bits, 8);
}

#[test]
fn test_shors_various_secrets() {
    let curve = test_curve_small();
    for k in [1u64, 2, 7, 42, 100, 255] {
        let target_q = scalar_mul(k, &curve.generator, &curve);
        let shor = ShorsEcdlp::build(&curve, 4);
        let result = shor.run_classical_verification(&target_q, k, 5);
        assert!(result.verified, "Failed to verify for k={}. Recovered: {:?}", k, result.recovered_k);
        assert_eq!(result.recovered_k, Some(k), "Wrong k recovered for k={}", k);
    }
}

#[test]
fn test_shors_zero_secret() {
    let curve = test_curve_small();
    let k = 0u64;
    let target_q = AffinePoint::Infinity;
    let shor = ShorsEcdlp::build(&curve, 4);
    let result = shor.run_classical_verification(&target_q, k, 5);
    assert!(result.verified);
    assert_eq!(result.recovered_k, Some(0));
}

#[test]
fn test_shors_summary_format() {
    let curve = test_curve_small();
    let shor = ShorsEcdlp::build(&curve, 4);
    let summary = shor.summary();
    assert!(summary.contains("Stage 1"));
    assert!(summary.contains("Stage 2"));
    assert!(summary.contains("Stage 3"));
    assert!(summary.contains("Hadamard"));
    assert!(summary.contains("jacobian"));
}

#[test]
fn test_shors_gate_count_consistency() {
    let curve = test_curve_small();
    let shor = ShorsEcdlp::build(&curve, 4);
    let n = curve.field_bits;
    assert_eq!(shor.gate_counts.hadamard, 2 * n);
    assert_eq!(shor.gate_counts.controlled_phase, 2 * (n * (n - 1) / 2));
    assert_eq!(shor.gate_counts.swap, 2 * (n / 2));
    assert_eq!(shor.gate_counts.measurement, 2 * n);
}

#[test]
fn test_export_group_action_qasm() {
    let curve = test_curve_small();
    let circuit = build_group_action_circuit_jacobian(&curve, 4);
    let qasm = export_qasm(&circuit);
    assert!(qasm.starts_with("OPENQASM 3.0;"));
    assert!(qasm.contains("include \"stdgates.inc\""));
    assert!(qasm.contains("qubit["));
    assert!(qasm.contains("QFT gates:"));
}

#[test]
fn test_export_shor_qasm() {
    let curve = test_curve_small();
    let shor = ShorsEcdlp::build(&curve, 4);
    let qasm = export_shor_qasm(&shor);
    assert!(qasm.starts_with("OPENQASM 3.0;"));
    assert!(qasm.contains("Stage 1: Group-action map"));
    assert!(qasm.contains("Stage 2: Inverse QFT"));
    assert!(qasm.contains("Stage 3: Measurement"));
    assert!(qasm.contains("bit["));
    assert!(qasm.contains("h q["));
    assert!(qasm.contains("cp("));
    assert!(qasm.contains("swap q["));
    assert!(qasm.contains("measure q["));
}

#[test]
fn test_group_action_circuit_classical_correctness() {
    let curve = test_curve_small();
    let circuit = build_group_action_circuit_jacobian(&curve, 4);
    let k = 42u64;
    let target_q = scalar_mul(k, &curve.generator, &curve);
    let test_cases: Vec<(u64, u64)> = vec![(0, 0), (1, 0), (0, 1), (1, 1), (3, 5), (7, 11), (100, 200)];
    for (a, b) in test_cases {
        let circuit_result = circuit.execute_classical(a, b, &target_q);
        let reference = double_scalar_mul(a, &curve.generator, b, &target_q, &curve);
        assert_eq!(circuit_result, reference, "Mismatch for a={}, b={}", a, b);
    }
}

#[test]
fn test_group_action_linearity() {
    let curve = test_curve_small();
    let circuit = build_group_action_circuit_jacobian(&curve, 4);
    let k = 42u64;
    let target_q = scalar_mul(k, &curve.generator, &curve);
    for (a, b) in [(1u64, 1u64), (3, 5), (7, 11)] {
        let result = circuit.execute_classical(a, b, &target_q);
        let combined_scalar = ((a as u128 + b as u128 * k as u128) % curve.order as u128) as u64;
        let expected = scalar_mul(combined_scalar, &curve.generator, &curve);
        assert_eq!(result, expected, "Linearity failed: [{}]G + [{}]Q ≠ [{}]G", a, b, combined_scalar);
    }
}

#[test]
fn affine_and_v3_builders_label_their_coordinates() {
    let curve = test_curve_small();
    let affine = build_group_action_circuit(&curve, 4);
    assert_eq!(affine.coordinate_system, "affine");
    assert!(affine.cost_attribution.is_none());
    assert!(affine.resources.toffoli_count > 0);
    let v3 = build_group_action_circuit_jacobian_v3(&curve, 4);
    assert_eq!(v3.coordinate_system, "jacobian-v3");
    let attribution = v3.cost_attribution.unwrap();
    assert!(attribution.doubling_toffoli > 0);
    assert_eq!(attribution.swap_toffoli, 0);
}

#[test]
fn jacobian_attribution_sums_to_scalar_mul_share() {
    let curve = test_curve_small();
    let circuit = build_group_action_circuit_jacobian(&curve, 4);
    let a = circuit.cost_attribution.unwrap();
    let total = a.doubling_toffoli + a.qrom_toffoli + a.addition_toffoli + a.inversion_toffoli
        + a.affine_recovery_toffoli;
    assert_eq!(total, circuit.resources.toffoli_count);
}

#[test]
fn summary_reports_counter_values() {
    let curve = test_curve_small();
    let circuit: GroupActionCircuit = build_group_action_circuit_jacobian(&curve, 4);
    let s = circuit.summary();
    assert_eq!(s.toffoli_gates, circuit.toffoli_count());
    assert_eq!(s.cnot_gates, circuit.cnot_count());
    assert_eq!(s.circuit_depth, circuit.depth());
    assert_eq!(s.logical_qubits_peak, circuit.qubit_count());
    assert_eq!(s.field_inversions, 1);
    assert_eq!(s.point_additions, 4);
    assert_eq!(s.point_doublings, 16);
    assert_eq!(s.measurement_based_qubits, 23 * 8 + 2);
}

#[test]
fn precompute_table_holds_multiples() {
    let curve = test_curve_small();
    let table = PrecomputeTable::generate_for_generator(&curve, 3);
    assert_eq!(table.len(), 8);
    assert!(!table.is_empty());
    assert_eq!(table.label, "G");
    assert_eq!(*table.lookup(0), AffinePoint::Infinity);
    assert_eq!(*table.lookup(5), scalar_mul(5, &curve.generator, &curve));
}

#[test]
fn qft_inverse_is_the_adjoint_of_the_forward_transform() {
    for n in [1usize, 2, 4, 5] {
        let forward = Qft::forward_gates(3, n);
        let inverse = Qft::inverse_gates(3, n);
        let adjoint: Vec<QuantumGate> = forward
            .iter()
            .rev()
            .map(|g| match *g {
                QuantumGate::ControlledPhase { control, target, k, sign } => {
                    QuantumGate::ControlledPhase { control, target, k, sign: -sign }
                }
                other => other,
            })
            .collect();
        assert_eq!(inverse, adjoint);
    }
}

#[test]
fn gate_logs_hold_every_recorded_gate() {
    let curve = test_curve_small();
    for circuit in [
        build_group_action_circuit(&curve, 4),
        build_group_action_circuit_jacobian(&curve, 4),
        build_group_action_circuit_jacobian_v3(&curve, 4),
    ] {
        assert!(!circuit.gate_log.is_empty());
        assert_eq!(circuit.gate_log.len(), circuit.resources.total_gates());
        let toffoli = circuit.gate_log.iter().filter(|g| matches!(g, Gate::Toffoli { .. })).count();
        assert_eq!(toffoli, circuit.resources.toffoli_count);
    }
}

#[test]
fn jacobian_v3_summary_counts_one_inversion() {
    let curve = test_curve_small();
    let s = build_group_action_circuit_jacobian_v3(&curve, 4).summary();
    assert_eq!(s.coordinate_system, "jacobian-v3");
    assert_eq!(s.field_inversions, 1);
    assert_eq!(s.point_additions, 2 * (8 / 4));
    let affine = build_group_action_circuit(&curve, 4).summary();
    assert_eq!(affine.field_inversions, 2 * (8 / 4));
}

#[test]
fn build_shor_circuit_logs_its_multiplication() {
    let curve = test_curve_small();
    let c = build_shor_circuit(&curve, 4);
    assert_eq!(c.window_size, 4);
    assert!(!c.gate_log.is_empty());
    assert_eq!(c.gate_log.len(), c.resources.total_gates());
    assert_eq!(c.qft_resources.hadamard_count, 8);
    assert_eq!(c.qft_resources.controlled_rotation_count, 28);
    assert_eq!(c.qft_resources.swap_count, 4);
}

#[test]
fn qft_builders_accept_the_top_of_the_index_range() {
    let n = 4;
    let off = usize::MAX - n;
    assert_eq!(Qft::forward_gates(off, n).len(), n + n * (n - 1) / 2 + n / 2);
    assert_eq!(Qft::inverse_gates(off, n).len(), n + n * (n - 1) / 2 + n / 2);
}
