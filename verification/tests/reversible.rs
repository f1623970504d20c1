use oathbreaker::reversible::adder::{capture_adder, CuccaroAdder};
use oathbreaker::reversible::ec_add_affine::ReversibleEcAdd;
use oathbreaker::reversible::ec_add_jacobian::ReversibleJacobianMixedAdd;
use oathbreaker::reversible::gates::Gate;
use oathbreaker::reversible::inverter::FermatInverter;
use oathbreaker::reversible::montgomery::{
    from_montgomery_form, mod_inverse_u128, to_montgomery_form, MontgomeryMultiplier,
};
use oathbreaker::reversible::multiplier::{KaratsubaMultiplier, ReversibleMultiplier, ReversibleSquarer};
use oathbreaker::reversible::register::QuantumRegister;
use oathbreaker::reversible::resource_counter::ResourceCounter;
use oathbreaker::shor_circuit::qft::QuantumFourierTransform;

const GOLDILOCKS_P: u64 = 0xFFFF_FFFF_0000_0001;

// ---------------------------------------------------------------------------
// Montgomery arithmetic
// ---------------------------------------------------------------------------

#[test]
fn test_montgomery_form_roundtrip() {
    let p: u64 = 251;
    let n = 8;
    let r = 1u128 << n;
    let r_mod_p = (r % (p as u128)) as u64;
    let r_inv = mod_inverse_u128(r % (p as u128), p as u128) as u64;
    for a in 0..p {
        let a_mont = to_montgomery_form(a, r_mod_p, p);
        let a_back = from_montgomery_form(a_mont, r_inv, p);
        assert_eq!(
            a_back, a,
            "Montgomery roundtrip failed for a={}: mont={}, back={}",
            a, a_mont, a_back,
        );
    }
}

#[test]
fn test_montgomery_form_roundtrip_goldilocks() {
    let p = GOLDILOCKS_P;
    let r_mod_p = ((1u128 << 32) - 1) as u64;
    let r_inv = mod_inverse_u128((1u128 << 32) - 1, p as u128) as u64;
    for &a in &[0u64, 1, 2, 42, p - 1, p - 2, 0xDEAD_BEEF] {
        let a_mont = to_montgomery_form(a, r_mod_p, p);
        let a_back = from_montgomery_form(a_mont, r_inv, p);
        assert_eq!(
            a_back, a,
            "Montgomery roundtrip failed for a={}: mont={}, back={}",
            a, a_mont, a_back,
        );
    }
}

#[test]
fn test_montgomery_multiplier_resource_count() {
    let n = 8;
    let mut counter = ResourceCounter::new();
    let mul = MontgomeryMultiplier::new(n);
    let small_p_bits: Vec<bool> = {
        let p: u8 = 251;
        (0..8).map(|i| (p >> i) & 1 == 1).collect()
    };
    let gates = mul.forward_gates(0, n, 2 * n, 3 * n, &small_p_bits, &mut counter);
    assert!(!gates.is_empty(), "Montgomery multiplier should produce gates");
    assert!(counter.toffoli_count > 0, "Montgomery multiplier should use Toffoli gates");
    assert_eq!(
        counter.ancilla_allocated,
        MontgomeryMultiplier::workspace_size(n),
        "Workspace size mismatch",
    );
}

#[test]
fn test_montgomery_vs_karatsuba_toffoli() {
    let n = 16;
    let mut mont_counter = ResourceCounter::new();
    let mut kara_counter = ResourceCounter::new();
    let mont = MontgomeryMultiplier::new(n);
    let kara = KaratsubaMultiplier::new(n);
    let p_bits: Vec<bool> = {
        let p: u16 = 65521;
        (0..16).map(|i| (p >> i) & 1 == 1).collect()
    };
    let _ = mont.forward_gates(0, n, 2 * n, 3 * n, &p_bits, &mut mont_counter);
    let _ = kara.forward_gates(0, n, 2 * n, 3 * n, &mut kara_counter);
    assert!(mont_counter.toffoli_count > 0);
    assert!(kara_counter.toffoli_count > 0);
}

#[test]
fn montgomery_exact_values() {
    // 256 mod 251 = 5; 5 * 7 mod 251 = 35
    assert_eq!(to_montgomery_form(7, 5, 251), 35);
    assert_eq!(from_montgomery_form(35, mod_inverse_u128(5, 251) as u64, 251), 7);
    assert_eq!(mod_inverse_u128(5, 251), 201);
    assert_eq!(mod_inverse_u128(0, 251), 0);
    assert_eq!(mod_inverse_u128(3, 0), 1);
    assert_eq!(MontgomeryMultiplier::workspace_size(8), 27);
}

#[test]
fn montgomery_multiplier_cleans_workspace() {
    let n = 4;
    let mut counter = ResourceCounter::new();
    let mul = MontgomeryMultiplier::new(n);
    let p_bits = vec![true, false, true, true]; // 13
    let gates = mul.forward_gates(0, n, 2 * n, 3 * n, &p_bits, &mut counter);
    assert_eq!(counter.ancilla_allocated, counter.ancilla_freed);
    assert_eq!(counter.total_gates(), gates.len());
}

// ---------------------------------------------------------------------------
// gates, registers and the resource counter
// ---------------------------------------------------------------------------

#[test]
fn test_not_gate_is_self_inverse() {
    let mut bits = vec![false, true, false];
    let gate = Gate::Not { target: 1 };
    gate.apply(&mut bits);
    assert!(!bits[1]);
    gate.apply(&mut bits);
    assert!(bits[1]);
}

#[test]
fn test_cnot_gate() {
    let gate = Gate::Cnot { control: 0, target: 1 };
    let mut bits = vec![false, false];
    gate.apply(&mut bits);
    assert!(!bits[1]);
    let mut bits = vec![true, false];
    gate.apply(&mut bits);
    assert!(bits[1]);
    gate.apply(&mut bits);
    assert!(!bits[1]);
}

#[test]
fn test_toffoli_gate() {
    let gate = Gate::Toffoli { control1: 0, control2: 1, target: 2 };
    let mut bits = vec![true, true, false];
    gate.apply(&mut bits);
    assert!(bits[2]);
    let mut bits = vec![true, false, false];
    gate.apply(&mut bits);
    assert!(!bits[2]);
    let mut bits = vec![true, true, true];
    gate.apply(&mut bits);
    assert!(!bits[2]);
    gate.apply(&mut bits);
    assert!(bits[2]);
}

#[test]
fn test_register_load_read() {
    let mut reg = QuantumRegister::new("test", 64);
    let value = 0xDEAD_BEEF_CAFE_BABEu64;
    reg.load_u64(value);
    assert_eq!(reg.read_u64(), value);
}

#[test]
fn test_register_clean_check() {
    let reg = QuantumRegister::new("ancilla", 8);
    assert!(reg.is_clean());
    let mut reg2 = QuantumRegister::new("dirty", 8);
    reg2.load_u64(1);
    assert!(!reg2.is_clean());
}

#[test]
fn test_resource_counter() {
    let mut counter = ResourceCounter::new();
    counter.record_gate(&Gate::Toffoli { control1: 0, control2: 1, target: 2 });
    counter.record_gate(&Gate::Cnot { control: 0, target: 1 });
    counter.record_gate(&Gate::Not { target: 0 });
    assert_eq!(counter.toffoli_count, 1);
    assert_eq!(counter.cnot_count, 1);
    assert_eq!(counter.not_count, 1);
    assert_eq!(counter.total_gates(), 3);
}

#[test]
fn test_gate_inverse_is_self() {
    let gates = vec![
        Gate::Not { target: 0 },
        Gate::Cnot { control: 0, target: 1 },
        Gate::Toffoli { control1: 0, control2: 1, target: 2 },
    ];
    for gate in &gates {
        assert_eq!(gate.inverse(), *gate, "Gate should be self-inverse: {:?}", gate);
    }
}

#[test]
fn register_short_load_keeps_low_bits() {
    let mut reg = QuantumRegister::new("short", 8);
    reg.load_u64(0x1FF);
    assert_eq!(reg.read_u64(), 0xFF);
    assert_eq!(reg.len(), 8);
    assert!(!reg.is_empty());
    assert_eq!(reg.qubit_indices(2, 3), vec![2, 3, 4]);
}

#[test]
fn gate_qubits_lists_operands() {
    assert_eq!(Gate::Not { target: 4 }.qubits(), vec![4]);
    assert_eq!(Gate::Cnot { control: 1, target: 2 }.qubits(), vec![1, 2]);
    assert_eq!(Gate::Toffoli { control1: 3, control2: 5, target: 7 }.qubits(), vec![3, 5, 7]);
}

#[test]
fn resource_counter_ancilla_high_water() {
    let mut counter = ResourceCounter::new();
    counter.allocate_qubits(10);
    counter.allocate_ancilla(5);
    counter.free_ancilla(5);
    counter.allocate_ancilla(3);
    assert_eq!(counter.qubit_high_water, 15);
    assert_eq!(counter.current_qubits, 13);
    assert_eq!(counter.ancilla_allocated, 8);
    assert_eq!(counter.ancilla_freed, 5);
}

// ---------------------------------------------------------------------------
// QFT for the phase-estimation circuit
// ---------------------------------------------------------------------------

#[test]
fn test_qft_resource_count_64() {
    let qft = QuantumFourierTransform::new(64);
    let resources = qft.resource_count();
    assert_eq!(resources.hadamard_count, 64);
    assert_eq!(resources.controlled_rotation_count, 64 * 63 / 2);
    assert_eq!(resources.swap_count, 32);
}

#[test]
fn test_qft_gate_sequence_small() {
    let qft = QuantumFourierTransform::new(4);
    let gates = qft.gate_sequence(0);
    assert_eq!(gates.len(), 12);
}

#[test]
fn qft_total_gates_is_sum() {
    let r = QuantumFourierTransform::new(5).resource_count();
    assert_eq!(r.hadamard_count, 5);
    assert_eq!(r.controlled_rotation_count, 10);
    assert_eq!(r.swap_count, 2);
    assert_eq!(r.total_gates, 17);
}

// ---------------------------------------------------------------------------
// simulated arithmetic
// ---------------------------------------------------------------------------

fn run(gates: &[Gate], bits: &mut Vec<bool>) {
    for g in gates {
        g.apply(bits);
    }
}

fn load(bits: &mut [bool], offset: usize, n: usize, v: u64) {
    for i in 0..n {
        bits[offset + i] = (v >> i) & 1 == 1;
    }
}

fn read(bits: &[bool], offset: usize, n: usize) -> u64 {
    (0..n).fold(0u64, |acc, i| acc | ((bits[offset + i] as u64) << i))
}

#[test]
fn cuccaro_adder_adds_modulo_two_to_the_n() {
    let n = 4;
    for (x, y) in [(5u64, 9u64), (12, 7), (0, 0), (15, 15), (3, 13)] {
        let mut counter = ResourceCounter::new();
        let gates = CuccaroAdder::new(n).forward_gates(0, n, 2 * n, &mut counter);
        let mut bits = vec![false; 2 * n + 1];
        load(&mut bits, 0, n, x);
        load(&mut bits, n, n, y);
        run(&gates, &mut bits);
        assert_eq!(read(&bits, 0, n), x, "a is preserved");
        assert_eq!(read(&bits, n, n), (x + y) % 16, "b holds the sum");
        assert!(!bits[2 * n], "carry qubit restored");
    }
}

#[test]
fn capture_adder_reports_carry_out() {
    let n = 4;
    for (x, y) in [(5u64, 9u64), (12, 7), (8, 8), (1, 2)] {
        let mut counter = ResourceCounter::new();
        let gates = capture_adder(n, 0, n, 2 * n, 2 * n + 1, &mut counter);
        let mut bits = vec![false; 2 * n + 2];
        load(&mut bits, 0, n, x);
        load(&mut bits, n, n, y);
        run(&gates, &mut bits);
        assert_eq!(read(&bits, n, n), (x + y) % 16);
        assert_eq!(bits[2 * n + 1], x + y >= 16, "carry-out copied");
        assert!(!bits[2 * n]);
    }
}

#[test]
fn schoolbook_multiplier_restores_its_workspace() {
    let n = 4;
    let mut counter = ResourceCounter::new();
    let gates = ReversibleMultiplier::new(n).forward_gates(0, n, 2 * n, 3 * n, &mut counter);
    let mut bits = vec![false; 8 * n + 2];
    load(&mut bits, 0, n, 11);
    load(&mut bits, n, n, 6);
    run(&gates, &mut bits);
    assert_eq!(read(&bits, 0, n), 11);
    assert_eq!(read(&bits, n, n), 6);
    assert!(bits[3 * n..].iter().all(|b| !b), "workspace returned to zero");
}

#[test]
fn schoolbook_multiplier_computes_product_mod_p() {
    let p: u128 = GOLDILOCKS_P as u128;
    let n = 64;
    let ws = 3 * n;
    let cases: [(u64, u64); 5] = [
        (1 << 63, 2),
        (GOLDILOCKS_P - 1, GOLDILOCKS_P - 1),
        (123_456_789, 987_654_321),
        (0xFFFF_FFFF_FFFF_FFFF, 0xFFFF_FFFF_FFFF_FFFF),
        (0, 0xDEAD_BEEF),
    ];
    let mut counter = ResourceCounter::new();
    let gates = ReversibleMultiplier::new(n).forward_gates(0, n, 2 * n, ws, &mut counter);
    for (x, y) in cases {
        let mut bits = vec![false; ws + 5 * n + 2];
        load(&mut bits, 0, n, x);
        load(&mut bits, n, n, y);
        run(&gates, &mut bits);
        let expected = ((x as u128) * (y as u128) % p) as u64;
        assert_eq!(read(&bits, 2 * n, n), expected, "{} * {} mod p", x, y);
        assert_eq!(read(&bits, 0, n), x);
        assert_eq!(read(&bits, n, n), y);
        assert!(bits[ws..].iter().all(|b| !b), "workspace returned to zero");
    }
    assert_eq!(counter.ancilla_allocated, 5 * n + 2);
    assert_eq!(counter.ancilla_freed, 5 * n + 2);
}

#[test]
fn schoolbook_multiplier_example_from_its_documentation() {
    // a = 2^63, b = 2: a·b = 2^64 ≡ 2^32 − 1 (mod p)
    let n = 64;
    let mut counter = ResourceCounter::new();
    let gates = ReversibleMultiplier::new(n).forward_gates(0, 64, 128, 192, &mut counter);
    let mut bits = vec![false; 385 + 129];
    bits[63] = true;
    bits[65] = true;
    run(&gates, &mut bits);
    assert_eq!(read(&bits, 128, 64), 0xFFFF_FFFF);
    assert_eq!(read(&bits, 0, 64), 1 << 63);
    assert_eq!(read(&bits, 64, 64), 2);
    assert!(bits[192..].iter().all(|b| !b));
}

#[test]
fn schoolbook_squarer_computes_square_mod_p() {
    let p: u128 = GOLDILOCKS_P as u128;
    let n = 64;
    let mut counter = ResourceCounter::new();
    let gates = ReversibleSquarer::new(n).forward_gates(0, n, 2 * n, &mut counter);
    for x in [3u64, GOLDILOCKS_P - 1, 0x1234_5678_9ABC_DEF0] {
        let mut bits = vec![false; 2 * n + 5 * n + 2];
        load(&mut bits, 0, n, x);
        run(&gates, &mut bits);
        assert_eq!(read(&bits, n, n), ((x as u128) * (x as u128) % p) as u64);
        assert_eq!(read(&bits, 0, n), x);
        assert!(bits[2 * n..].iter().all(|b| !b));
    }
}

#[test]
fn schoolbook_row_adds_into_its_window() {
    // layout: a at 0, b at n, result at 2n, accumulator at 3n..5n,
    // carry at 5n, partial-product row at 5n+1..6n+1, reduced value at
    // 6n+1..7n+1, modular adder workspace at 7n+1..8n+2
    let n = 4;
    let row = 8 * n + 1;
    let mut counter = ResourceCounter::new();
    let gates = ReversibleMultiplier::new(n).forward_gates(0, n, 2 * n, 3 * n, &mut counter);
    let mut bits = vec![false; 8 * n + 2];
    load(&mut bits, 0, n, 11);
    load(&mut bits, n, n, 6);
    run(&gates[..row], &mut bits);
    assert_eq!(read(&bits, 3 * n, 2 * n), 6, "row 0 adds a[0]*b at column 0");
    run(&gates[row..2 * row], &mut bits);
    assert_eq!(read(&bits, 3 * n, 2 * n), 18, "row 1 adds a[1]*b at column 1");
    run(&gates[2 * row..4 * row], &mut bits);
    assert_eq!(read(&bits, 3 * n, 2 * n), 66, "all rows give the integer product");
    assert_eq!(read(&bits, 0, n), 11);
    assert_eq!(read(&bits, n, n), 6);
    assert!(bits[5 * n..].iter().all(|b| !b), "carry and partial products back to zero");

    // the carry out of each row lands above its window: 3*3 = 9 in 2 bits
    let n = 2;
    let row = 8 * n + 1;
    let mut counter = ResourceCounter::new();
    let gates = ReversibleMultiplier::new(n).forward_gates(0, n, 2 * n, 3 * n, &mut counter);
    let mut bits = vec![false; 8 * n + 2];
    load(&mut bits, 0, n, 3);
    load(&mut bits, n, n, 3);
    run(&gates[..2 * row], &mut bits);
    assert_eq!(read(&bits, 3 * n, 2 * n), 9);
}

#[test]
fn fermat_inverter_makes_125_multiplier_calls() {
    let n = 8;
    let w = KaratsubaMultiplier::workspace_size(n);
    let mut counter = ResourceCounter::new();
    let gates = FermatInverter::new(n).forward_gates(0, n, 2 * n, &mut counter);
    assert_eq!(counter.ancilla_freed, 125 * w);
    assert_eq!(counter.ancilla_allocated, 4 * n + 1 + 125 * w);
    assert_eq!(counter.total_gates(), gates.len());
}

#[test]
fn undo_steps_record_only_emitted_gates() {
    let n = 8;
    let mut counter = ResourceCounter::new();
    let gates = ReversibleJacobianMixedAdd::new(n).forward_gates(0, n, 2 * n, 3 * n, 4 * n, 5 * n, 6 * n, 7 * n, 8 * n, &mut counter);
    assert_eq!(counter.total_gates(), gates.len());
    let toffoli = gates.iter().filter(|g| matches!(g, Gate::Toffoli { .. })).count();
    assert_eq!(counter.toffoli_count, toffoli);
}

#[test]
fn affine_point_addition_releases_all_its_ancillae() {
    let n = 8;
    let mut counter = ResourceCounter::new();
    let _ = ReversibleEcAdd::new(n).forward_gates(0, n, 2 * n, 3 * n, 4 * n, 5 * n, 6 * n, &mut counter);
    assert_eq!(counter.current_qubits, 0);
    assert_eq!(counter.ancilla_freed, counter.ancilla_allocated);
    assert!(counter.ancilla_allocated > 0);
}

#[test]
fn modular_adder_adds_modulo_goldilocks() {
    let p: u128 = 0xFFFF_FFFF_0000_0001;
    let n = 64;
    let cases: [(u64, u64); 7] = [
        (0, 0),
        (5, 7),
        (0xFFFF_FFFF_0000_0000, 1),
        (0xFFFF_FFFF_0000_0000, 0xFFFF_FFFF_0000_0000),
        (0x8000_0000_0000_0000, 0x8000_0000_0000_0000),
        (0xFFFF_FFFF, 0xFFFF_FFFF_0000_0000),
        (123_456_789, 987_654_321),
    ];
    for (x, y) in cases {
        let mut counter = ResourceCounter::new();
        let gates = CuccaroAdder::new(n).modular_forward_gates(0, n, 2 * n, 2 * n + 1, &mut counter);
        let mut bits = vec![false; 3 * n + 2];
        load(&mut bits, 0, n, x);
        load(&mut bits, n, n, y);
        run(&gates, &mut bits);
        assert_eq!(read(&bits, 0, n), x, "a is preserved");
        assert_eq!(read(&bits, n, n) as u128, (x as u128 + y as u128) % p, "b holds the sum mod p");
        assert!(bits[2 * n..].iter().all(|b| !b), "carry and workspace restored");
        assert_eq!(counter.ancilla_allocated, n + 1);
        assert_eq!(counter.ancilla_freed, n + 1);
    }
}
