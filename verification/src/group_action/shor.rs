//! Shor's ECDLP algorithm end to end: the group-action circuit, the inverse
//! QFT and measurement, and the classical recovery of the secret from
//! simulated measurement outcomes.
use crate::ec::curve::{lemma_affine_view_eq, AffinePoint, CurveParams};
use crate::ec::ec_spec::ec_scalar_mul;
use crate::ec::point_ops::scalar_mul;
use crate::field::goldilocks::gp;
use crate::group_action::continued_fraction::{
    direct_usable, gcd, recover_secret_direct, recover_secret_multi, satisfies_relation, spec_gcd,
};
use crate::group_action::double_scalar::{
    build_group_action_circuit_jacobian, builder_dims_ok, dual_qft, jac_attribution, jac_effect, jac_layouts,
    jac_recorded, primary_counter, recovery_fits, GroupActionCircuit,
};
use crate::group_action::measurement::{measurement_c_spec, nonzero_mod_spec, sample_measurement_pairs};
use crate::group_action::qft::{shor_qft_measure, Qft};
use crate::group_action::quantum_gate::{count_gates, count_one, count_total, QuantumGate, QuantumGateCount};
use crate::group_action::window_effects::{effect_fits, effect_holds};
use crate::reversible::gates::{count_cnot, count_not, count_toffoli, lemma_counts_total, Gate};
use crate::reversible::resource_counter::{gate_room, gates_recorded, ResourceCounter};
use crate::group_action::double_scalar::{is_jacobian_label, measurement_peak};
use crate::group_action::qft_stub::qft_single_total;
use crate::text::decimal::{decimal, push_decimal};
use vstd::arithmetic::power2::pow2;
use vstd::prelude::*;
use vstd::string::StringExecFns;

verus! {

/// Complete Shor's ECDLP algorithm: circuit construction and classical
/// recovery.
#[derive(Clone, Debug)]
pub struct ShorsEcdlp {
    /// Curve parameters.
    pub curve: CurveParams,
    /// Window size for scalar multiplication.
    pub window_size: usize,
    /// The group-action circuit (stage 1).
    pub group_action_circuit: GroupActionCircuit,
    /// QFT and measurement gate sequence (stages 2 and 3).
    pub qft_measurement_gates: Vec<QuantumGate>,
    /// Gate count across all stages.
    pub gate_counts: QuantumGateCount,
}

/// Result of running Shor's classical verification pipeline.
#[derive(Clone, Debug)]
pub struct ShorResult {
    /// The recovered secret scalar k.
    pub recovered_k: Option<u64>,
    /// Whether [k]G == Q was verified.
    pub verified: bool,
    /// Number of measurement trials used.
    pub num_trials: usize,
    /// Number of trials where direct inversion succeeded.
    pub direct_recovery_count: usize,
    /// Field bits of the curve.
    pub field_bits: usize,
    /// Total quantum gate count (all stages).
    pub total_gates: QuantumGateCount,
    /// Toffoli gates of the group-action circuit.
    pub group_action_toffoli: usize,
    /// QFT gate count (both registers, measurements excluded).
    pub qft_gates: usize,
}

/// Componentwise sum of two count records.
pub open spec fn add_counts(a: QuantumGateCount, b: QuantumGateCount) -> QuantumGateCount {
    QuantumGateCount {
        toffoli: (a.toffoli + b.toffoli) as usize,
        cnot: (a.cnot + b.cnot) as usize,
        not: (a.not + b.not) as usize,
        hadamard: (a.hadamard + b.hadamard) as usize,
        controlled_phase: (a.controlled_phase + b.controlled_phase) as usize,
        swap: (a.swap + b.swap) as usize,
        measurement: (a.measurement + b.measurement) as usize,
    }
}

/// The reversible tallies of a counter as a count record.
pub open spec fn reversible_counts(c: ResourceCounter) -> QuantumGateCount {
    QuantumGateCount {
        toffoli: c.toffoli_count,
        cnot: c.cnot_count,
        not: c.not_count,
        hadamard: 0,
        controlled_phase: 0,
        swap: 0,
        measurement: 0,
    }
}

/// Number of measurement gates in a list.
pub open spec fn count_measure(gs: Seq<QuantumGate>) -> nat
    decreases gs.len(),
{
    if gs.len() == 0 {
        0
    } else {
        count_measure(gs.drop_last()) + if gs.last() is Measure {
            1nat
        } else {
            0nat
        }
    }
}

/// The simulated measurement pair of trial i (seed i + 1).
pub open spec fn trial_pair(k: u64, order: u64, i: int) -> (u64, u64) {
    let d = nonzero_mod_spec((i + 1) as u64, order);
    (measurement_c_spec(k, d, order), d)
}

/// Number of the first `t` trials whose d is a unit.
pub open spec fn direct_trials(k: u64, order: u64, t: int) -> nat
    decreases t,
{
    if t <= 0 {
        0
    } else {
        direct_trials(k, order, t - 1) + if direct_usable(trial_pair(k, order, t - 1), order) {
            1nat
        } else {
            0nat
        }
    }
}

/// The first of the first `t` trials whose d is a unit, if any.
pub open spec fn first_direct(k: u64, order: u64, t: int) -> Option<int>
    decreases t,
{
    if t <= 0 {
        None
    } else {
        match first_direct(k, order, t - 1) {
            Some(i) => Some(i),
            None => if direct_usable(trial_pair(k, order, t - 1), order) {
                Some(t - 1)
            } else {
                None
            },
        }
    }
}

/// Bounds the builder needs.
pub open spec fn shor_build_ok(curve: CurveParams, window_size: usize) -> bool {
    let n = curve.field_bits as int;
    &&& builder_dims_ok(curve, window_size)
    &&& recovery_fits(n)
    &&& jac_layouts(curve, window_size).0.fits(n)
    &&& jac_layouts(curve, window_size).1.fits(n)
    &&& gate_room(primary_counter(5 * n), jac_recorded(curve, window_size).len() as int)
    &&& effect_fits(primary_counter(5 * n), jac_effect(curve, window_size))
    &&& 3 * n + 1 <= usize::MAX
    &&& jac_recorded(curve, window_size).len() + shor_qft_measure(n).len() < usize::MAX
}

/// The reversible tallies of a counter that recorded `gs` since a fresh
/// start add up to at most the length of `gs`.
proof fn lemma_recorded_counts(c0: ResourceCounter, c1: ResourceCounter, gs: Seq<Gate>)
    requires
        gates_recorded(c0, c1, gs),
        c0.not_count == 0,
        c0.cnot_count == 0,
        c0.toffoli_count == 0,
    ensures
        count_total(reversible_counts(c1)) <= gs.len(),
{
    lemma_counts_total(gs);
}

impl ShorsEcdlp {
    /// Build the complete Shor's ECDLP circuit: the Jacobian group-action
    /// circuit, then the inverse QFT and measurement on both exponent
    /// registers; counts add the QFT and measurement gates to the
    /// group-action circuit's reversible tallies.
    #[verifier::rlimit(100)]
    #[verifier::spinoff_prover]
    pub fn build(curve: &CurveParams, window_size: usize) -> (r: Self)
        requires
            shor_build_ok(*curve, window_size),
        ensures
            r.curve == *curve,
            r.window_size == window_size,
            r.qft_measurement_gates@ == shor_qft_measure(curve.field_bits as int),
            r.gate_counts == add_counts(
                reversible_counts(r.group_action_circuit.resources),
                count_gates(shor_qft_measure(curve.field_bits as int)),
            ),
            r.group_action_circuit.curve == *curve,
            r.group_action_circuit.window_size == window_size,
            r.group_action_circuit.coordinate_system@ == "jacobian"@,
            r.group_action_circuit.gate_log@ == jac_recorded(*curve, window_size),
            r.group_action_circuit.qft_estimate == dual_qft(curve.field_bits as int),
            r.group_action_circuit.cost_attribution == Some(jac_attribution(*curve, window_size)),
            r.group_action_circuit.resources.pre_allocated_depth == 0,
            gates_recorded(
                primary_counter(5 * curve.field_bits),
                r.group_action_circuit.resources,
                jac_recorded(*curve, window_size),
            ),
            effect_holds(
                primary_counter(5 * curve.field_bits),
                r.group_action_circuit.resources,
                jac_effect(*curve, window_size),
            ),
    {
        let n = curve.field_bits;
        let group_action_circuit = build_group_action_circuit_jacobian(curve, window_size);
        let qft_measurement_gates = Qft::shor_qft_and_measure(n);
        let ghost res = group_action_circuit.resources;
        let ghost qs = qft_measurement_gates@;
        let mut gate_counts = QuantumGateCount {
            toffoli: group_action_circuit.resources.toffoli_count,
            cnot: group_action_circuit.resources.cnot_count,
            not: group_action_circuit.resources.not_count,
            hadamard: 0,
            controlled_phase: 0,
            swap: 0,
            measurement: 0,
        };
        proof {
            lemma_recorded_counts(primary_counter(5 * n), res, jac_recorded(*curve, window_size));
            assert(gate_counts == add_counts(reversible_counts(res), count_gates(qs.take(0))));
        }
        let mut i: usize = 0;
        while i < qft_measurement_gates.len()
            invariant
                i <= qs.len(),
                qs == qft_measurement_gates@,
                count_total(reversible_counts(res)) + qs.len() < usize::MAX,
                gate_counts == add_counts(reversible_counts(res), count_gates(qs.take(i as int))),
            decreases qs.len() - i,
        {
            proof {
                crate::group_action::quantum_gate::lemma_count_gates_total(qs.take(i as int));
                assert(qs.take(i + 1).drop_last() =~= qs.take(i as int));
                assert(qs.take(i + 1).last() == qs[i as int]);
            }
            gate_counts.record(&qft_measurement_gates[i]);
            i = i + 1;
        }
        proof {
            assert(qs.take(qs.len() as int) =~= qs);
        }
        ShorsEcdlp { curve: *curve, window_size, group_action_circuit, qft_measurement_gates, gate_counts }
    }
}

impl ShorsEcdlp {
    /// Run classical verification of Shor's algorithm: simulate
    /// `num_trials` measurement outcomes (c, d) with c + k·d ≡ 0 (mod r),
    /// recover k directly from the first pair whose d is a unit (else from
    /// several pairs), and check [k]G = Q.
    pub fn run_classical_verification(&self, target_q: &AffinePoint, k: u64, num_trials: usize) -> (r: ShorResult)
        requires
            self.curve.order > 0,
        ensures
            r.num_trials == num_trials,
            r.field_bits == self.curve.field_bits,
            r.total_gates == self.gate_counts,
            r.group_action_toffoli == self.group_action_circuit.resources.toffoli_count,
            r.qft_gates == self.qft_measurement_gates@.len() - count_measure(self.qft_measurement_gates@),
            r.direct_recovery_count == direct_trials(k, self.curve.order, num_trials as int),
            match first_direct(k, self.curve.order, num_trials as int) {
                Some(i) => r.recovered_k matches Some(rk) && rk < self.curve.order && satisfies_relation(
                    trial_pair(k, self.curve.order, i),
                    rk,
                    self.curve.order,
                ),
                None => r.recovered_k matches Some(rk) ==> rk < self.curve.order && exists|i: int|
                    0 <= i < num_trials && satisfies_relation(
                        #[trigger] trial_pair(k, self.curve.order, i),
                        rk,
                        self.curve.order,
                    ),
            },
            r.verified == (r.recovered_k matches Some(rk) && ec_scalar_mul(
                rk as nat,
                self.curve.generator@,
                self.curve.a@,
                gp(),
            ) == target_q@),
    {
        let order = self.curve.order;
        let n = self.curve.field_bits;
        let pairs = sample_measurement_pairs(k, order, num_trials);
        let mut direct_count: usize = 0;
        let mut recovered_k: Option<u64> = None;
        let mut i: usize = 0;
        while i < pairs.len()
            invariant
                order == self.curve.order,
                order > 0,
                i <= pairs@.len(),
                pairs@.len() == num_trials,
                forall|j: int| 0 <= j < num_trials ==> #[trigger] pairs@[j] == trial_pair(k, order, j),
                direct_count == direct_trials(k, order, i as int),
                direct_count <= i,
                recovered_k is None <==> first_direct(k, order, i as int) is None,
                first_direct(k, order, i as int) matches Some(f) ==> (0 <= f < i && (recovered_k matches Some(rk)
                    && rk < order && satisfies_relation(trial_pair(k, order, f), rk, order))),
            decreases pairs@.len() - i,
        {
            let (c, d) = pairs[i];
            proof {
                assert(pairs@[i as int] == trial_pair(k, order, i as int));
            }
            if gcd(d, order) == 1 {
                if let Some(candidate) = recover_secret_direct(c, d, order) {
                    direct_count = direct_count + 1;
                    if recovered_k.is_none() {
                        recovered_k = Some(candidate);
                    }
                }
            }
            i = i + 1;
        }
        if recovered_k.is_none() {
            recovered_k = recover_secret_multi(pairs.as_slice(), order);
            proof {
                if let Some(rk) = recovered_k {
                    let j = choose|j: int|
                        0 <= j < pairs@.len() && satisfies_relation(#[trigger] pairs@[j], rk, order);
                    assert(satisfies_relation(trial_pair(k, order, j), rk, order));
                }
            }
        }
        let verified = match recovered_k {
            Some(rk) => {
                let computed_q = scalar_mul(rk, &self.curve.generator, &self.curve);
                proof {
                    lemma_affine_view_eq(computed_q, *target_q);
                }
                computed_q == *target_q
            },
            None => false,
        };
        let ghost qs = self.qft_measurement_gates@;
        let mut measures: usize = 0;
        let mut j: usize = 0;
        while j < self.qft_measurement_gates.len()
            invariant
                j <= qs.len(),
                qs == self.qft_measurement_gates@,
                measures == count_measure(qs.take(j as int)),
                measures <= j,
            decreases qs.len() - j,
        {
            proof {
                assert(qs.take(j + 1).drop_last() =~= qs.take(j as int));
            }
            if let QuantumGate::Measure { .. } = self.qft_measurement_gates[j] {
                measures = measures + 1;
            }
            j = j + 1;
        }
        proof {
            assert(qs.take(qs.len() as int) =~= qs);
        }
        let qft_gate_count = self.qft_measurement_gates.len() - measures;
        ShorResult {
            recovered_k,
            verified,
            num_trials,
            direct_recovery_count: direct_count,
            field_bits: n,
            total_gates: self.gate_counts,
            group_action_toffoli: self.group_action_circuit.resources.toffoli_count,
            qft_gates: qft_gate_count,
        }
    }
}

/// The text of the Shor circuit summary.
pub open spec fn shor_summary_text(
    n: nat,
    w: nat,
    coords: Seq<char>,
    peak: nat,
    toffoli: nat,
    cnot: nat,
    not: nat,
    gc: QuantumGateCount,
    per_reg: nat,
) -> Seq<char> {
    "Shor's ECDLP Circuit (Oath-"@ + decimal(n) + ", w="@ + decimal(w) + "):\n\nStage 1 — Group-Action Map [a]G + [b]Q:\n├── Coordinate system:     "@
        + coords + "\n├── Logical qubits (peak): "@ + decimal(peak) + "\n├── Toffoli gates:         "@ + decimal(
        toffoli,
    ) + "\n├── CNOT gates:            "@ + decimal(cnot) + "\n└── NOT gates:             "@ + decimal(not)
        + "\n\nStage 2 — Inverse QFT (×2 registers):\n├── Hadamard gates:        "@ + decimal(gc.hadamard as nat)
        + "\n├── Controlled-Phase:      "@ + decimal(gc.controlled_phase as nat) + "\n├── SWAP gates:            "@
        + decimal(gc.swap as nat) + "\n└── Gates per register:    "@ + decimal(per_reg)
        + "\n\nStage 3 — Measurement:\n└── Measured qubits:       "@ + decimal(2 * n) + " (2 × "@ + decimal(n)
        + " registers)\n\nTotal Gates:               "@ + decimal(count_total(gc) as nat)
}

impl ShorsEcdlp {
    /// A human-readable summary of the complete Shor circuit: the
    /// group-action stage's coordinate system, peak qubits and reversible
    /// gate counts, the QFT gate counts, the measured qubits and the total.
    pub fn summary(&self) -> (s: String)
        requires
            self.group_action_circuit.window_size > 0,
            self.group_action_circuit.window_size < usize::BITS,
            23 * self.group_action_circuit.curve.field_bits + 2 <= usize::MAX,
            7 * self.group_action_circuit.curve.field_bits + pow2(self.group_action_circuit.window_size as nat)
                <= usize::MAX,
            (self.group_action_circuit.curve.field_bits / self.group_action_circuit.window_size) * (
            self.group_action_circuit.window_size + 1) * 2 * 11 <= usize::MAX,
            self.curve.field_bits >= 1,
            2 * self.curve.field_bits <= usize::MAX,
            self.group_action_circuit.resources.not_count + self.group_action_circuit.resources.cnot_count
                + self.group_action_circuit.resources.toffoli_count <= usize::MAX,
            self.curve.field_bits * (self.curve.field_bits - 1) <= usize::MAX,
            qft_single_total(self.curve.field_bits as int) <= usize::MAX,
            count_total(self.gate_counts) <= usize::MAX,
        ensures
            s@ == shor_summary_text(
                self.curve.field_bits as nat,
                self.window_size as nat,
                self.group_action_circuit.coordinate_system@,
                self.group_action_circuit.resources.qubit_high_water as nat,
                self.group_action_circuit.resources.toffoli_count as nat,
                self.group_action_circuit.resources.cnot_count as nat,
                self.group_action_circuit.resources.not_count as nat,
                self.gate_counts,
                qft_single_total(self.curve.field_bits as int) as nat,
            ),
    {
        let ga = self.group_action_circuit.summary();
        let n = self.curve.field_bits;
        proof {
            assert(n * (n - 1) >= 0) by (nonlinear_arith)
                requires
                    n >= 1,
            ;
        }
        let qft_per_reg = n + n * (n - 1) / 2 + n / 2;
        let mut s = String::new();
        s.append("Shor's ECDLP Circuit (Oath-");
        push_decimal(&mut s, n as u64);
        s.append(", w=");
        push_decimal(&mut s, self.window_size as u64);
        s.append("):\n\nStage 1 — Group-Action Map [a]G + [b]Q:\n├── Coordinate system:     ");
        s.append(ga.coordinate_system.as_str());
        s.append("\n├── Logical qubits (peak): ");
        push_decimal(&mut s, ga.logical_qubits_peak as u64);
        s.append("\n├── Toffoli gates:         ");
        push_decimal(&mut s, ga.toffoli_gates as u64);
        s.append("\n├── CNOT gates:            ");
        push_decimal(&mut s, ga.cnot_gates as u64);
        s.append("\n└── NOT gates:             ");
        push_decimal(&mut s, ga.not_gates as u64);
        s.append("\n\nStage 2 — Inverse QFT (×2 registers):\n├── Hadamard gates:        ");
        push_decimal(&mut s, self.gate_counts.hadamard as u64);
        s.append("\n├── Controlled-Phase:      ");
        push_decimal(&mut s, self.gate_counts.controlled_phase as u64);
        s.append("\n├── SWAP gates:            ");
        push_decimal(&mut s, self.gate_counts.swap as u64);
        s.append("\n└── Gates per register:    ");
        push_decimal(&mut s, qft_per_reg as u64);
        s.append("\n\nStage 3 — Measurement:\n└── Measured qubits:       ");
        push_decimal(&mut s, (2 * n) as u64);
        s.append(" (2 × ");
        push_decimal(&mut s, n as u64);
        s.append(" registers)\n\nTotal Gates:               ");
        push_decimal(&mut s, self.gate_counts.total() as u64);
        proof {
            assert(s@ =~= shor_summary_text(
                n as nat,
                self.window_size as nat,
                self.group_action_circuit.coordinate_system@,
                self.group_action_circuit.resources.qubit_high_water as nat,
                self.group_action_circuit.resources.toffoli_count as nat,
                self.group_action_circuit.resources.cnot_count as nat,
                self.group_action_circuit.resources.not_count as nat,
                self.gate_counts,
                qft_single_total(n as int) as nat,
            ));
        }
        s
    }
}

} // verus!
