//! The coherent double-scalar group-action circuit
//! |a⟩|b⟩|O⟩ → |a⟩|b⟩|[a]G + [b]Q⟩, in affine, Jacobian and modified
//! Jacobian coordinates.
use crate::ec::curve::{AffinePoint, CurveParams};
use crate::ec::ec_spec::{ec_add, ec_scalar_mul};
use crate::ec::point_ops::{point_add, scalar_mul};
use crate::field::goldilocks::gp;
use crate::group_action::qft_stub::{qft_single_total, QftResourceEstimate};
use crate::group_action::precompute::multiples;
use crate::group_action::scalar_mul::{SmLayout, WindowedScalarMul};
use crate::group_action::scalar_mul_jacobian::{JacLayout, WindowedScalarMulJacobian};
use crate::group_action::scalar_mul_jacobian_v3::{V3Layout, WindowedScalarMulJacobianV3};
use crate::reversible::blocks::concat_map;
use crate::group_action::window_effects::{
    effect_fits, effect_holds, effect_le, effect_wf, lemma_effect_step, lemma_fits_next, lemma_rounds_grow,
    then_effect,
};
use crate::reversible::ancilla::{flatten, AncillaPool, UncomputeStrategy};
use crate::reversible::gates::Gate;
use crate::reversible::inverter::{bgcd_gates, BinaryGcdInverter};
use crate::reversible::multiplier::{karatsuba_modmul_gates, karatsuba_total_ws, karatsuba_ws, KaratsubaMultiplier, KaratsubaSquarer};
use crate::reversible::resource_counter::{
    gate_room, gates_recorded, lemma_gates_recorded_concat, lemma_room_left, max_int, qubit_effect, zero_counter,
    ResourceCounter,
};
use crate::reversible::gates::count_toffoli;
use vstd::arithmetic::power2::pow2;
use vstd::prelude::*;
use vstd::string::StringExecFns;

verus! {

/// The coherent double-scalar group-action circuit, with its resource
/// counts.
#[derive(Clone, Debug)]
pub struct GroupActionCircuit {
    /// Curve parameters.
    pub curve: CurveParams,
    /// Window size for scalar multiplication.
    pub window_size: usize,
    /// Coordinate system: "affine", "jacobian" or "jacobian-v3".
    pub coordinate_system: String,
    /// Ordered log of all reversible gates (Toffoli/CNOT/NOT).
    pub gate_log: Vec<Gate>,
    /// QFT resource estimate.
    pub qft_estimate: QftResourceEstimate,
    /// Overall resource summary.
    pub resources: ResourceCounter,
    /// Per-subsystem Toffoli breakdown (Jacobian circuits only).
    pub cost_attribution: Option<CostAttribution>,
}

/// Summary of the circuit's resource usage, suitable for publication.
#[derive(Clone, Debug)]
pub struct CircuitSummary {
    pub field_bits: usize,
    pub window_size: usize,
    /// Coordinate system: "affine" or "jacobian".
    pub coordinate_system: String,
    pub logical_qubits_peak: usize,
    pub toffoli_gates: usize,
    pub cnot_gates: usize,
    pub not_gates: usize,
    pub total_reversible_gates: usize,
    pub circuit_depth: usize,
    pub ancilla_high_water: usize,
    /// QFT Hadamard gates (estimated from the resource model).
    pub qft_hadamards_estimated: usize,
    /// QFT controlled-rotation gates (estimated from the resource model).
    pub qft_rotations_estimated: usize,
    pub point_additions: usize,
    pub point_doublings: usize,
    pub field_inversions: usize,
    pub field_multiplications: usize,
    /// Per-subsystem Toffoli breakdown (for Jacobian circuits).
    pub cost_attribution: Option<CostAttribution>,
    /// Estimated logical qubits with measurement-based uncomputation: the
    /// primary registers plus the workspace of the most expensive single
    /// operation.
    pub measurement_based_qubits: usize,
}

/// Per-subsystem Toffoli cost breakdown.
#[derive(Clone, Copy, Debug, Default)]
pub struct CostAttribution {
    /// Toffoli from point doublings.
    pub doubling_toffoli: usize,
    /// Toffoli from table lookups and their uncomputation.
    pub qrom_toffoli: usize,
    /// Toffoli from point additions.
    pub addition_toffoli: usize,
    /// Toffoli from register swaps/copies between EC operations.
    pub swap_toffoli: usize,
    /// Toffoli from the final inversion.
    pub inversion_toffoli: usize,
    /// Toffoli from affine recovery (Z⁻², Z⁻³, X·Z⁻², Y·Z⁻³).
    pub affine_recovery_toffoli: usize,
}

/// The peak logical qubits with measurement-based uncomputation: the largest
/// of Jacobian doubling (22n + 2), mixed addition (23n + 2), the one-hot
/// lookup (7n + 2^w) and the final inversion (11n + 3).
pub open spec fn measurement_peak(n: int, w: nat) -> int {
    max_int(max_int(22 * n + 2, 23 * n + 2), max_int(7 * n + pow2(w), 11 * n + 3))
}

/// Whether the coordinate-system label names a Jacobian circuit: "jacobian"
/// or "jacobian-v3", both of which invert once at the end.
pub open spec fn is_jacobian_label(s: Seq<char>) -> bool {
    s == "jacobian"@ || s == "jacobian-v3"@
}

impl GroupActionCircuit {
    /// Estimate logical qubits with measurement-based uncomputation.
    pub fn estimate_measurement_based_qubits(n: usize, w: usize) -> (r: usize)
        requires
            23 * n + 2 <= usize::MAX,
            w < usize::BITS,
            7 * n + pow2(w as nat) <= usize::MAX,
        ensures
            r == measurement_peak(n as int, w as nat),
    {
        proof {
            vstd::bits::lemma_usize_pow2_no_overflow(w as nat);
            vstd::bits::lemma_usize_shl_is_mul(1, w);
        }
        let doubling_peak = 22 * n + 2;
        let addition_peak = 23 * n + 2;
        let qrom_peak = 7 * n + (1usize << w);
        let inversion_peak = 11 * n + 3;
        let m1 = if doubling_peak >= addition_peak {
            doubling_peak
        } else {
            addition_peak
        };
        let m2 = if qrom_peak >= inversion_peak {
            qrom_peak
        } else {
            inversion_peak
        };
        if m1 >= m2 {
            m1
        } else {
            m2
        }
    }

    /// Get a publishable summary of circuit resources.
    pub fn summary(&self) -> (r: CircuitSummary)
        requires
            self.window_size > 0,
            self.window_size < usize::BITS,
            23 * self.curve.field_bits + 2 <= usize::MAX,
            7 * self.curve.field_bits + pow2(self.window_size as nat) <= usize::MAX,
            (self.curve.field_bits / self.window_size) * (self.window_size + 1) * 2 * 11 <= usize::MAX,
            self.resources.not_count + self.resources.cnot_count + self.resources.toffoli_count <= usize::MAX,
        ensures
            ({
                let n = self.curve.field_bits as int;
                let w = self.window_size as int;
                let nw = n / w;
                let ops = nw * (w + 1) * 2;
                &&& r.field_bits == self.curve.field_bits
                &&& r.window_size == self.window_size
                &&& r.coordinate_system@ == self.coordinate_system@
                &&& r.logical_qubits_peak == self.resources.qubit_high_water
                &&& r.toffoli_gates == self.resources.toffoli_count
                &&& r.cnot_gates == self.resources.cnot_count
                &&& r.not_gates == self.resources.not_count
                &&& r.total_reversible_gates == self.resources.not_count + self.resources.cnot_count
                    + self.resources.toffoli_count
                &&& r.circuit_depth == self.resources.depth
                &&& r.ancilla_high_water == self.resources.ancilla_allocated
                &&& r.qft_hadamards_estimated == self.qft_estimate.hadamard_count
                &&& r.qft_rotations_estimated == self.qft_estimate.controlled_rotation_count
                &&& r.point_additions == nw * 2
                &&& r.point_doublings == nw * w * 2
                &&& r.field_inversions == if is_jacobian_label(self.coordinate_system@) {
                    1
                } else {
                    nw * 2
                }
                &&& r.field_multiplications == ops * if is_jacobian_label(self.coordinate_system@) {
                    11int
                } else {
                    6int
                }
                &&& r.cost_attribution == self.cost_attribution
                &&& r.measurement_based_qubits == measurement_peak(n, w as nat)
            }),
    {
        let n = self.curve.field_bits;
        let num_windows = n / self.window_size;
        let w = self.window_size;
        proof {
            assert(num_windows * (w + 1) * 2 * 6 <= num_windows * (w + 1) * 2 * 11) by (nonlinear_arith)
                requires
                    num_windows >= 0,
                    w >= 0,
            ;
            assert(num_windows * 2 <= num_windows * (w + 1) * 2 * 11) by (nonlinear_arith)
                requires
                    num_windows >= 0,
                    w >= 0,
            ;
            assert(num_windows * w * 2 <= num_windows * (w + 1) * 2 * 11) by (nonlinear_arith)
                requires
                    num_windows >= 0,
                    w >= 0,
            ;
            assert(num_windows * (w + 1) * 2 <= num_windows * (w + 1) * 2 * 11) by (nonlinear_arith)
                requires
                    num_windows >= 0,
                    w >= 0,
            ;
        }
        let total_ec_ops = num_windows * (w + 1) * 2;
        let jacobian = String::from_str("jacobian");
        let jacobian_v3 = String::from_str("jacobian-v3");
        proof {
            reveal_strlit("jacobian");
            reveal_strlit("jacobian-v3");
        }
        let is_jac = self.coordinate_system == jacobian || self.coordinate_system == jacobian_v3;
        let field_inversions = if is_jac {
            1
        } else {
            num_windows * 2
        };
        let field_multiplications = total_ec_ops * if is_jac {
            11
        } else {
            6
        };
        CircuitSummary {
            field_bits: self.curve.field_bits,
            window_size: self.window_size,
            coordinate_system: self.coordinate_system.clone(),
            logical_qubits_peak: self.resources.qubit_high_water,
            toffoli_gates: self.resources.toffoli_count,
            cnot_gates: self.resources.cnot_count,
            not_gates: self.resources.not_count,
            total_reversible_gates: self.resources.total_gates(),
            circuit_depth: self.resources.depth,
            ancilla_high_water: self.resources.ancilla_allocated,
            qft_hadamards_estimated: self.qft_estimate.hadamard_count,
            qft_rotations_estimated: self.qft_estimate.controlled_rotation_count,
            point_additions: num_windows * 2,
            point_doublings: num_windows * w * 2,
            field_inversions,
            field_multiplications,
            cost_attribution: self.cost_attribution,
            measurement_based_qubits: Self::estimate_measurement_based_qubits(n, w),
        }
    }

    /// Execute the circuit classically on basis-state inputs: [a]G + [b]Q by
    /// the classical reference.
    pub fn execute_classical(&self, a: u64, b: u64, target_q: &AffinePoint) -> (r: AffinePoint)
        ensures
            r@ == ec_add(
                ec_scalar_mul(a as nat, self.curve.generator@, self.curve.a@, gp()),
                ec_scalar_mul(b as nat, target_q@, self.curve.a@, gp()),
                self.curve.a@,
                gp(),
            ),
    {
        let ag = scalar_mul(a, &self.curve.generator, &self.curve);
        let bq = scalar_mul(b, target_q, &self.curve);
        point_add(&ag, &bq, &self.curve)
    }

    /// Total qubit count including ancillae (the peak).
    pub fn qubit_count(&self) -> (r: usize)
        ensures
            r == self.resources.qubit_high_water,
    {
        self.resources.qubit_high_water
    }

    /// Total Toffoli gate count.
    pub fn toffoli_count(&self) -> (r: usize)
        ensures
            r == self.resources.toffoli_count,
    {
        self.resources.toffoli_count
    }

    /// Total CNOT gate count.
    pub fn cnot_count(&self) -> (r: usize)
        ensures
            r == self.resources.cnot_count,
    {
        self.resources.cnot_count
    }

    /// Circuit depth.
    pub fn depth(&self) -> (r: usize)
        ensures
            r == self.resources.depth,
    {
        self.resources.depth
    }
}

/// A fresh counter after `k` primary qubits are allocated.
pub open spec fn primary_counter(k: int) -> ResourceCounter {
    ResourceCounter { current_qubits: k as usize, qubit_high_water: k as usize, ..zero_counter() }
}

/// The QFT estimate for the two exponent registers of n qubits.
pub open spec fn dual_qft(n: int) -> QftResourceEstimate {
    QftResourceEstimate {
        num_qubits: n as usize,
        num_registers: 2,
        hadamard_count: (2 * n) as usize,
        controlled_rotation_count: (2 * (n * (n - 1) / 2)) as usize,
        swap_count: (2 * (n / 2)) as usize,
        total_gates: (2 * qft_single_total(n)) as usize,
    }
}

/// Shared requirements on the field width and window size of the builders.
pub open spec fn builder_dims_ok(curve: CurveParams, window_size: usize) -> bool {
    let n = curve.field_bits;
    &&& window_size > 0
    &&& window_size < usize::BITS
    &&& 1 <= n <= 64
    &&& n % window_size == 0
    &&& n * (n - 1) <= usize::MAX
    &&& 2 * qft_single_total(n as int) <= usize::MAX
}

/// The affine layouts of the multiplications by a (scalar register at 0)
/// and by b (scalar register at n), with the accumulator at (2n, 3n).
pub open spec fn affine_layouts(curve: CurveParams, window_size: usize) -> (SmLayout, SmLayout) {
    let m = WindowedScalarMul { window_size, scalar_bits: curve.field_bits };
    let n = curve.field_bits as int;
    (m.layout(0, 2 * n, 3 * n, 0, curve), m.layout(n, 2 * n, 3 * n, 16 * n + 2, curve))
}

/// The gates the affine circuit records: both multiplications.
pub open spec fn affine_recorded(curve: CurveParams, window_size: usize) -> Seq<Gate> {
    let (la, lb) = affine_layouts(curve, window_size);
    let tv = multiples(curve.generator@, curve.a@, pow2(window_size as nat));
    let num = (curve.field_bits / window_size) as int;
    la.gates(tv, Seq::empty(), num) + lb.gates(tv, Seq::empty(), num)
}

/// The ancilla effect of the affine circuit.
pub open spec fn affine_effect(curve: CurveParams, window_size: usize) -> (int, int, int, int) {
    let (la, lb) = affine_layouts(curve, window_size);
    let num = (curve.field_bits / window_size) as int;
    then_effect(la.effect(num), lb.effect(num))
}

/// Build the coherent double-scalar group-action circuit in affine
/// coordinates: 4n primary qubits (exponent registers a and b, accumulator
/// x and y), windowed multiplication by a (table of G) then by b into the
/// same accumulator, and the QFT estimate for both registers.
/// Its gate log holds every gate emitted, in order, as the counter records them.
#[verifier::rlimit(60)]
#[verifier::spinoff_prover]
pub fn build_group_action_circuit(curve: &CurveParams, window_size: usize) -> (r: GroupActionCircuit)
    requires
        builder_dims_ok(*curve, window_size),
        affine_layouts(*curve, window_size).0.fits(curve.field_bits as int),
        affine_layouts(*curve, window_size).1.fits(curve.field_bits as int),
        gate_room(primary_counter(4 * curve.field_bits), affine_recorded(*curve, window_size).len() as int),
        effect_fits(primary_counter(4 * curve.field_bits), affine_effect(*curve, window_size)),
    ensures
        r.curve == *curve,
        r.window_size == window_size,
        r.coordinate_system@ == "affine"@,
        r.gate_log@ == affine_recorded(*curve, window_size),
        r.qft_estimate == dual_qft(curve.field_bits as int),
        r.cost_attribution is None,
        r.resources.pre_allocated_depth == 0,
        gates_recorded(primary_counter(4 * curve.field_bits), r.resources, affine_recorded(*curve, window_size)),
        effect_holds(primary_counter(4 * curve.field_bits), r.resources, affine_effect(*curve, window_size)),
{
    let n = curve.field_bits;
    let ghost (la, lb) = affine_layouts(*curve, window_size);
    let ghost tv = multiples(curve.generator@, curve.a@, pow2(window_size as nat));
    let ghost num = (n / window_size) as int;
    let mut counter = ResourceCounter::new();
    let mut ancilla_pool = AncillaPool::new(UncomputeStrategy::Eager);
    counter.allocate_qubits(4 * n);
    let ghost c1 = counter;
    proof {
        assert(c1 == primary_counter(4 * n));
        assert(flatten(Seq::<Seq<Gate>>::empty()) =~= Seq::<Gate>::empty());
        lemma_room_left(c1, c1, Seq::empty(), affine_recorded(*curve, window_size).len() as int, la.gates(tv, Seq::empty(), num).len() as int);
        crate::group_action::scalar_mul::lemma_ws_effect_wf(la.dbl_ctx(), la.dbl_ops(), 10 * la.n + 3);
        crate::group_action::scalar_mul::lemma_ws_effect_wf(la.add_ctx(), la.add_ops(), 9 * la.n + 2);
        crate::group_action::scalar_mul::lemma_ws_effect_wf(lb.dbl_ctx(), lb.dbl_ops(), 10 * lb.n + 3);
        crate::group_action::scalar_mul::lemma_ws_effect_wf(lb.add_ctx(), lb.add_ops(), 9 * lb.n + 2);
        lemma_rounds_grow(
            crate::group_action::scalar_mul::alloc_effect(la.allocated()),
            la.dbl_effect(),
            seq![la.add_effect()],
            window_size as nat,
            0,
            num as nat,
        );
        lemma_rounds_grow(
            crate::group_action::scalar_mul::alloc_effect(lb.allocated()),
            lb.dbl_effect(),
            seq![lb.add_effect()],
            window_size as nat,
            0,
            num as nat,
        );
        crate::group_action::window_effects::lemma_then_grows(la.effect(num), lb.effect(num));
        assert(effect_fits(c1, la.effect(num)));
    }
    let scalar_mul_a = WindowedScalarMul::new(window_size, n);
    let mut gate_log = scalar_mul_a.forward_gates(0, 2 * n, 3 * n, &mut ancilla_pool, &mut counter, curve);
    let ghost c2 = counter;
    proof {
        assert(flatten(ancilla_pool.deferred()) =~= Seq::<Gate>::empty());
        lemma_room_left(
            c1,
            c2,
            la.gates(tv, Seq::empty(), num),
            affine_recorded(*curve, window_size).len() as int,
            lb.gates(tv, Seq::empty(), num).len() as int,
        );
        lemma_fits_next(c1, c2, la.effect(num), lb.effect(num), affine_effect(*curve, window_size));
    }
    let scalar_mul_b = WindowedScalarMul::new(window_size, n);
    let mut gates_b = scalar_mul_b.forward_gates(n, 2 * n, 3 * n, &mut ancilla_pool, &mut counter, curve);
    gate_log.append(&mut gates_b);
    proof {
        assert(gate_log@ =~= affine_recorded(*curve, window_size));
        lemma_gates_recorded_concat(
            c1,
            c2,
            counter,
            la.gates(tv, Seq::empty(), num),
            lb.gates(tv, Seq::empty(), num),
        );
        lemma_effect_step(c1, c2, counter, la.effect(num), lb.effect(num));
    }
    let qft_estimate = QftResourceEstimate::for_dual_register(n);
    let coordinate_system = String::from_str("affine");
    GroupActionCircuit {
        curve: *curve,
        window_size,
        coordinate_system,
        gate_log,
        qft_estimate,
        resources: counter,
        cost_attribution: None,
    }
}

/// The final inversion and affine recovery: Z⁻¹ by binary GCD into the
/// register after its workspace, then Z⁻², Z⁻³, x = X·Z⁻², y = Y·Z⁻³ (the
/// accumulator X, Y, Z at 2n, 3n, 4n; workspace at 0).
pub open spec fn inversion_gates(n: int) -> Seq<Gate> {
    bgcd_gates(n, 4 * n, 5 * n + 3, 0)
}

pub open spec fn recovery_gates(n: int) -> Seq<Gate> {
    karatsuba_modmul_gates(n, 5 * n + 3, 5 * n + 3, 6 * n + 3, 0, true) + karatsuba_modmul_gates(
        n,
        6 * n + 3,
        5 * n + 3,
        7 * n + 3,
        0,
        false,
    ) + karatsuba_modmul_gates(n, 2 * n, 6 * n + 3, 2 * n, 0, false) + karatsuba_modmul_gates(
        n,
        3 * n,
        7 * n + 3,
        3 * n,
        0,
        false,
    )
}

/// The ancilla effect of the final stage: 8n + 3 qubits taken from the pool
/// and kept, the inversion's and the four multiplications' workspace
/// counted inside pre-allocated scopes.
pub open spec fn recovery_effect(n: int) -> (int, int, int, int) {
    let k = karatsuba_total_ws(n);
    (13 * n + 6 + 4 * k, 5 * n + 3 + 4 * k, 8 * n + 3, 8 * n + 3)
}

/// The reset of a pool that had handed out `k` qubits.
pub open spec fn reset_effect(k: int) -> (int, int, int, int) {
    (0, k, -k, 0)
}

/// The bounds the final stage needs.
pub open spec fn recovery_fits(n: int) -> bool {
    &&& n >= 1
    &&& 8 * n + 3 + karatsuba_total_ws(n) <= usize::MAX
    &&& 8 * n + 3 <= usize::MAX
    &&& karatsuba_total_ws(n) <= usize::MAX
}

/// Runs the final inversion and affine recovery; returns the Toffoli counts
/// of the inversion and of the recovery.
#[verifier::rlimit(60)]
fn invert_and_recover(pool: &mut AncillaPool, counter: &mut ResourceCounter, n: usize) -> (r: (usize, usize, Vec<Gate>))
    requires
        recovery_fits(n as int),
        old(pool).wf(),
        old(pool).next() == 0,
        old(counter).pre_allocated_depth == 0,
        old(counter).qubit_high_water >= old(counter).current_qubits,
        gate_room(*old(counter), (inversion_gates(n as int) + recovery_gates(n as int)).len() as int),
        effect_fits(*old(counter), recovery_effect(n as int)),
    ensures
        gates_recorded(*old(counter), *final(counter), inversion_gates(n as int) + recovery_gates(n as int)),
        effect_holds(*old(counter), *final(counter), recovery_effect(n as int)),
        final(counter).pre_allocated_depth == 0,
        r.0 == count_toffoli(inversion_gates(n as int)),
        r.1 == count_toffoli(recovery_gates(n as int)),
        r.2@ == inversion_gates(n as int) + recovery_gates(n as int),
        final(pool).wf(),
{
    let ghost c0 = *counter;
    let ghost k = karatsuba_total_ws(n as int);
    let ghost g1 = inversion_gates(n as int);
    let ghost q1 = karatsuba_modmul_gates(n as int, 5 * n + 3, 5 * n + 3, 6 * n + 3, 0, true);
    let ghost q2 = karatsuba_modmul_gates(n as int, 6 * n + 3, 5 * n + 3, 7 * n + 3, 0, false);
    let ghost q3 = karatsuba_modmul_gates(n as int, 2 * n, 6 * n + 3, 2 * n, 0, false);
    let ghost q4 = karatsuba_modmul_gates(n as int, 3 * n, 7 * n + 3, 3 * n, 0, false);
    let ghost total = g1 + recovery_gates(n as int);
    proof {
        crate::reversible::multiplier::lemma_karatsuba_ws_pos(n as int);
        assert(recovery_gates(n as int) == q1 + q2 + q3 + q4);
        lemma_room_left(c0, c0, Seq::empty(), total.len() as int, g1.len() as int);
    }
    let t_before_inv = counter.toffoli_count;
    let bgcd_ws_size = BinaryGcdInverter::workspace_size(n);
    let inv_workspace = pool.allocate("final_inv_workspace", bgcd_ws_size, counter);
    let z_inv_reg = pool.allocate("z_inv", n, counter);
    let inverter = BinaryGcdInverter::new(n);
    let ghost ca = *counter;
    counter.enter_pre_allocated();
    let mut log = inverter.forward_gates(4 * n, z_inv_reg.offset, inv_workspace.offset, counter);
    counter.exit_pre_allocated();
    let t_after_inv = counter.toffoli_count;
    let ghost cb = *counter;
    proof {
        lemma_room_left(c0, cb, g1, total.len() as int, q1.len() as int);
    }
    let z_inv2_reg = pool.allocate("z_inv2", n, counter);
    let z_inv3_reg = pool.allocate("z_inv3", n, counter);
    let mul = KaratsubaMultiplier::new(n);
    let sq = KaratsubaSquarer::new(n);
    counter.enter_pre_allocated();
    let ghost cc = *counter;
    let mut sq_gates = sq.forward_gates(z_inv_reg.offset, z_inv2_reg.offset, inv_workspace.offset, counter);
    log.append(&mut sq_gates);
    let ghost cd = *counter;
    proof {
        lemma_gates_recorded_concat(cb, cc, cd, Seq::empty(), q1);
        assert(Seq::<Gate>::empty() + q1 =~= q1);
        lemma_gates_recorded_concat(c0, cb, cd, g1, q1);
        lemma_room_left(c0, cd, g1 + q1, total.len() as int, q2.len() as int);
    }
    let mut mul_gates = mul.forward_gates(z_inv2_reg.offset, z_inv_reg.offset, z_inv3_reg.offset, inv_workspace.offset, counter);
    log.append(&mut mul_gates);
    let ghost ce = *counter;
    proof {
        lemma_gates_recorded_concat(cc, cd, ce, q1, q2);
        lemma_gates_recorded_concat(c0, cd, ce, g1 + q1, q2);
        lemma_room_left(c0, ce, g1 + q1 + q2, total.len() as int, q3.len() as int);
    }
    let mut mul_x = mul.forward_gates(2 * n, z_inv2_reg.offset, 2 * n, inv_workspace.offset, counter);
    log.append(&mut mul_x);
    let ghost cf = *counter;
    proof {
        lemma_gates_recorded_concat(cc, ce, cf, q1 + q2, q3);
        lemma_gates_recorded_concat(c0, ce, cf, g1 + q1 + q2, q3);
        lemma_room_left(c0, cf, g1 + q1 + q2 + q3, total.len() as int, q4.len() as int);
    }
    let mut mul_y = mul.forward_gates(3 * n, z_inv3_reg.offset, 3 * n, inv_workspace.offset, counter);
    log.append(&mut mul_y);
    let ghost cg = *counter;
    counter.exit_pre_allocated();
    let t_after_affine = counter.toffoli_count;
    proof {
        lemma_gates_recorded_concat(c0, cf, cg, g1 + q1 + q2 + q3, q4);
        lemma_gates_recorded_concat(cc, cf, cg, q1 + q2 + q3, q4);
        assert(g1 + q1 + q2 + q3 + q4 =~= total);
        assert(gates_recorded(cb, cg, q1 + q2 + q3 + q4));
        assert(log@ =~= total);
    }
    (t_after_inv - t_before_inv, t_after_affine - t_after_inv, log)
}

/// The Jacobian layouts of the multiplications by a (scalar register at 0)
/// and by b (scalar register at n), with the accumulator at (2n, 3n, 4n);
/// the pool is reset before each, so both hand out registers from 0.
pub open spec fn jac_layouts(curve: CurveParams, window_size: usize) -> (JacLayout, JacLayout) {
    let m = WindowedScalarMulJacobian { window_size, scalar_bits: curve.field_bits };
    let n = curve.field_bits as int;
    (m.layout(0, 2 * n, 3 * n, 4 * n, 0, curve), m.layout(n, 2 * n, 3 * n, 4 * n, 0, curve))
}

/// The gates the Jacobian circuit records: both multiplications, the final
/// inversion and the affine recovery.
pub open spec fn jac_recorded(curve: CurveParams, window_size: usize) -> Seq<Gate> {
    let (la, lb) = jac_layouts(curve, window_size);
    let tv = multiples(curve.generator@, curve.a@, pow2(window_size as nat));
    let num = (curve.field_bits / window_size) as int;
    let n = curve.field_bits as int;
    la.gates(tv, Seq::empty(), num) + lb.gates(tv, Seq::empty(), num) + inversion_gates(n)
        + recovery_gates(n)
}

/// The ancilla effect of the Jacobian circuit: the first multiplication,
/// the pool reset, the second multiplication, the reset, the final stage.
pub open spec fn jac_effect(curve: CurveParams, window_size: usize) -> (int, int, int, int) {
    let (la, lb) = jac_layouts(curve, window_size);
    let num = (curve.field_bits / window_size) as int;
    let n = curve.field_bits as int;
    then_effect(
        then_effect(then_effect(then_effect(la.effect(num), reset_effect(la.allocated())), lb.effect(num)), reset_effect(lb.allocated())),
        recovery_effect(n),
    )
}

/// The per-subsystem Toffoli breakdown of the Jacobian circuit.
pub open spec fn jac_attribution(curve: CurveParams, window_size: usize) -> CostAttribution {
    let (la, lb) = jac_layouts(curve, window_size);
    let tv = multiples(curve.generator@, curve.a@, pow2(window_size as nat));
    let num = (curve.field_bits / window_size) as int;
    let n = curve.field_bits as int;
    let pre = Seq::<Gate>::empty();
    CostAttribution {
        doubling_toffoli: (count_toffoli(concat_map(|i: int| la.dbl_part(), 0, num)) + count_toffoli(
            concat_map(|i: int| lb.dbl_part(), 0, num),
        )) as usize,
        qrom_toffoli: (count_toffoli(concat_map(|i: int| la.qrom_part(tv, pre, i), 0, num)) + count_toffoli(
            concat_map(|i: int| lb.qrom_part(tv, pre, i), 0, num),
        )) as usize,
        addition_toffoli: (count_toffoli(concat_map(|i: int| la.add_block(), 0, num)) + count_toffoli(
            concat_map(|i: int| lb.add_block(), 0, num),
        )) as usize,
        swap_toffoli: 0,
        inversion_toffoli: count_toffoli(inversion_gates(n)) as usize,
        affine_recovery_toffoli: count_toffoli(recovery_gates(n)) as usize,
    }
}

/// A pool reset between counters with no more live qubits than the high
/// water: the released qubits leave the live count.
proof fn lemma_reset_effect(c0: ResourceCounter, c1: ResourceCounter, k: int)
    requires
        c0.pre_allocated_depth == 0,
        c0.current_qubits >= k >= 0,
        c0.qubit_high_water >= c0.current_qubits,
        c1.ancilla_freed == c0.ancilla_freed + k,
        c1.current_qubits == c0.current_qubits - k,
        c1.qubit_high_water == c0.qubit_high_water,
        c1.ancilla_allocated == c0.ancilla_allocated,
        c1.pre_allocated_depth == c0.pre_allocated_depth,
    ensures
        effect_holds(c0, c1, reset_effect(k)),
{
}

/// Build the double-scalar group-action circuit in Jacobian coordinates:
/// 5n primary qubits (exponent registers a and b, accumulator X, Y, Z);
/// windowed Jacobian multiplication by a, pool reset, multiplication by b
/// into the same accumulator, pool reset; one binary-GCD inversion of Z
/// and the affine recovery x = X·Z⁻², y = Y·Z⁻³; the QFT estimate; and the
/// per-subsystem Toffoli breakdown.  Its log of gates holds every gate
/// emitted, in order, as the counter records them.
#[verifier::rlimit(100)]
#[verifier::spinoff_prover]
pub fn build_group_action_circuit_jacobian(curve: &CurveParams, window_size: usize) -> (r: GroupActionCircuit)
    requires
        builder_dims_ok(*curve, window_size),
        recovery_fits(curve.field_bits as int),
        jac_layouts(*curve, window_size).0.fits(curve.field_bits as int),
        jac_layouts(*curve, window_size).1.fits(curve.field_bits as int),
        gate_room(primary_counter(5 * curve.field_bits), jac_recorded(*curve, window_size).len() as int),
        effect_fits(primary_counter(5 * curve.field_bits), jac_effect(*curve, window_size)),
    ensures
        r.curve == *curve,
        r.window_size == window_size,
        r.coordinate_system@ == "jacobian"@,
        r.gate_log@ == jac_recorded(*curve, window_size),
        r.qft_estimate == dual_qft(curve.field_bits as int),
        r.cost_attribution == Some(jac_attribution(*curve, window_size)),
        r.resources.pre_allocated_depth == 0,
        gates_recorded(primary_counter(5 * curve.field_bits), r.resources, jac_recorded(*curve, window_size)),
        effect_holds(primary_counter(5 * curve.field_bits), r.resources, jac_effect(*curve, window_size)),
{
    let n = curve.field_bits;
    let ghost (la, lb) = jac_layouts(*curve, window_size);
    let ghost tv = multiples(curve.generator@, curve.a@, pow2(window_size as nat));
    let ghost num = (n / window_size) as int;
    let ghost ga = la.gates(tv, Seq::empty(), num);
    let ghost gb = lb.gates(tv, Seq::empty(), num);
    let ghost gi = inversion_gates(n as int);
    let ghost gr = recovery_gates(n as int);
    let ghost total = jac_recorded(*curve, window_size);
    let ghost ea = la.effect(num);
    let ghost eb = lb.effect(num);
    let ghost ka = la.allocated();
    let ghost etot = jac_effect(*curve, window_size);
    let mut counter = ResourceCounter::new();
    let mut ancilla_pool = AncillaPool::new(UncomputeStrategy::Eager);
    counter.allocate_qubits(5 * n);
    let ghost c1 = counter;
    proof {
        assert(c1 == primary_counter(5 * n));
        assert(total == ga + gb + gi + gr);
        assert(flatten(Seq::<Seq<Gate>>::empty()) =~= Seq::<Gate>::empty());
        lemma_room_left(c1, c1, Seq::empty(), total.len() as int, ga.len() as int);
        crate::group_action::scalar_mul::lemma_ws_effect_wf(la.dbl_ctx(), la.dbl_ops(), 14 * la.n + 2);
        crate::group_action::scalar_mul::lemma_ws_effect_wf(la.add_ctx(), la.add_ops(), 13 * la.n + 2);
        crate::group_action::scalar_mul::lemma_ws_effect_wf(lb.dbl_ctx(), lb.dbl_ops(), 14 * lb.n + 2);
        crate::group_action::scalar_mul::lemma_ws_effect_wf(lb.add_ctx(), lb.add_ops(), 13 * lb.n + 2);
        lemma_rounds_grow(
            crate::group_action::scalar_mul::alloc_effect(la.allocated()),
            la.dbl_effect(),
            seq![la.add_effect()],
            window_size as nat,
            0,
            num as nat,
        );
        lemma_rounds_grow(
            crate::group_action::scalar_mul::alloc_effect(lb.allocated()),
            lb.dbl_effect(),
            seq![lb.add_effect()],
            window_size as nat,
            0,
            num as nat,
        );
        crate::reversible::multiplier::lemma_karatsuba_ws_pos(n as int);
        assert(la.allocated() == lb.allocated());
        assert(effect_fits(c1, ea));
    }
    let scalar_mul_a = WindowedScalarMulJacobian::new(window_size, n);
    let (mut gate_log, (dbl_a, qrom_a, add_a)) = scalar_mul_a.forward_gates(
        0,
        2 * n,
        3 * n,
        4 * n,
        &mut ancilla_pool,
        &mut counter,
        curve,
    );
    let ghost c2 = counter;
    proof {
        assert(c2.current_qubits >= ka);
    }
    ancilla_pool.reset_for_reuse(&mut counter);
    let ghost c3 = counter;
    proof {
        lemma_reset_effect(c2, c3, ka);
        crate::reversible::resource_counter::lemma_effect_then_effect(
            c1, c2, c3, ea.0, ea.1, ea.2, ea.3, 0, ka, -ka, 0,
        );
        assert(flatten(ancilla_pool.deferred()) =~= Seq::<Gate>::empty());
        lemma_gates_recorded_concat(c1, c2, c3, ga, Seq::empty());
        assert(ga + Seq::<Gate>::empty() =~= ga);
        lemma_room_left(c1, c3, ga, total.len() as int, gb.len() as int);
        assert(effect_fits(c3, eb));
    }
    let scalar_mul_b = WindowedScalarMulJacobian::new(window_size, n);
    let (mut gates_b, (dbl_b, qrom_b, add_b)) = scalar_mul_b.forward_gates(
        n,
        2 * n,
        3 * n,
        4 * n,
        &mut ancilla_pool,
        &mut counter,
        curve,
    );
    let ghost c4 = counter;
    proof {
        let p = then_effect(ea, reset_effect(ka));
        lemma_effect_step(c1, c3, c4, p, eb);
        lemma_gates_recorded_concat(c1, c3, c4, ga, gb);
        assert(c4.current_qubits >= ka);
    }
    gate_log.append(&mut gates_b);
    let scalar_mul_doubling = dbl_a + dbl_b;
    let scalar_mul_qrom = qrom_a + qrom_b;
    let scalar_mul_addition = add_a + add_b;
    ancilla_pool.reset_for_reuse(&mut counter);
    let ghost c5 = counter;
    proof {
        let p = then_effect(then_effect(ea, reset_effect(ka)), eb);
        lemma_reset_effect(c4, c5, ka);
        crate::reversible::resource_counter::lemma_effect_then_effect(
            c1, c4, c5, p.0, p.1, p.2, p.3, 0, ka, -ka, 0,
        );
        lemma_gates_recorded_concat(c1, c4, c5, ga + gb, Seq::empty());
        assert(ga + gb + Seq::<Gate>::empty() =~= ga + gb);
        lemma_room_left(c1, c5, ga + gb, total.len() as int, (gi + gr).len() as int);
        assert(effect_fits(c5, recovery_effect(n as int)));
    }
    let (inversion_toffoli, affine_recovery_toffoli, mut final_gates) = invert_and_recover(&mut ancilla_pool, &mut counter, n);
    gate_log.append(&mut final_gates);
    proof {
        let p = then_effect(then_effect(then_effect(ea, reset_effect(ka)), eb), reset_effect(ka));
        crate::reversible::resource_counter::lemma_effect_then_effect(
            c1,
            c5,
            counter,
            p.0,
            p.1,
            p.2,
            p.3,
            recovery_effect(n as int).0,
            recovery_effect(n as int).1,
            recovery_effect(n as int).2,
            recovery_effect(n as int).3,
        );
        lemma_gates_recorded_concat(c1, c5, counter, ga + gb, gi + gr);
        assert(ga + gb + (gi + gr) =~= total);
        assert(gate_log@ =~= total);
    }
    let attribution = CostAttribution {
        doubling_toffoli: scalar_mul_doubling,
        qrom_toffoli: scalar_mul_qrom,
        addition_toffoli: scalar_mul_addition,
        swap_toffoli: 0,
        inversion_toffoli,
        affine_recovery_toffoli,
    };
    let qft_estimate = QftResourceEstimate::for_dual_register(n);
    let coordinate_system = String::from_str("jacobian");
    GroupActionCircuit {
        curve: *curve,
        window_size,
        coordinate_system,
        gate_log,
        qft_estimate,
        resources: counter,
        cost_attribution: Some(attribution),
    }
}

/// The V3 layouts of the multiplications by a (scalar register at 0) and
/// by b (scalar register at n), with the accumulator at (2n, 3n, 4n, 5n);
/// the pool is reset before each, so both hand out registers from 0.
pub open spec fn v3_layouts(curve: CurveParams, window_size: usize) -> (V3Layout, V3Layout) {
    let m = WindowedScalarMulJacobianV3 { window_size, scalar_bits: curve.field_bits };
    let n = curve.field_bits as int;
    (m.layout(0, 2 * n, 3 * n, 4 * n, 5 * n, 0, curve), m.layout(n, 2 * n, 3 * n, 4 * n, 5 * n, 0, curve))
}

/// The gates the V3 circuit records: both multiplications, the final
/// inversion and the affine recovery.
pub open spec fn v3_recorded(curve: CurveParams, window_size: usize) -> Seq<Gate> {
    let (la, lb) = v3_layouts(curve, window_size);
    let tv = multiples(curve.generator@, curve.a@, pow2(window_size as nat));
    let num = (curve.field_bits / window_size) as int;
    let n = curve.field_bits as int;
    la.gates(tv, Seq::empty(), num) + lb.gates(tv, Seq::empty(), num) + inversion_gates(n)
        + recovery_gates(n)
}

/// The ancilla effect of the V3 circuit: the first multiplication,
/// the pool reset, the second multiplication, the reset, the final stage.
pub open spec fn v3_effect(curve: CurveParams, window_size: usize) -> (int, int, int, int) {
    let (la, lb) = v3_layouts(curve, window_size);
    let num = (curve.field_bits / window_size) as int;
    let n = curve.field_bits as int;
    then_effect(
        then_effect(then_effect(then_effect(la.effect(num), reset_effect(la.allocated())), lb.effect(num)), reset_effect(lb.allocated())),
        recovery_effect(n),
    )
}

/// The per-subsystem Toffoli breakdown of the V3 circuit.
pub open spec fn v3_attribution(curve: CurveParams, window_size: usize) -> CostAttribution {
    let (la, lb) = v3_layouts(curve, window_size);
    let tv = multiples(curve.generator@, curve.a@, pow2(window_size as nat));
    let num = (curve.field_bits / window_size) as int;
    let n = curve.field_bits as int;
    let pre = Seq::<Gate>::empty();
    CostAttribution {
        doubling_toffoli: (count_toffoli(concat_map(|i: int| la.dbl_part(), 0, num)) + count_toffoli(
            concat_map(|i: int| lb.dbl_part(), 0, num),
        )) as usize,
        qrom_toffoli: (count_toffoli(concat_map(|i: int| la.qrom_part(tv, pre, i), 0, num)) + count_toffoli(
            concat_map(|i: int| lb.qrom_part(tv, pre, i), 0, num),
        )) as usize,
        addition_toffoli: (count_toffoli(concat_map(|i: int| la.add_block(), 0, num)) + count_toffoli(
            concat_map(|i: int| lb.add_block(), 0, num),
        )) as usize,
        swap_toffoli: 0,
        inversion_toffoli: count_toffoli(inversion_gates(n)) as usize,
        affine_recovery_toffoli: count_toffoli(recovery_gates(n)) as usize,
    }
}

/// The facts about the V3 layouts' effects that the V3 builder needs.
proof fn lemma_v3_setup(curve: CurveParams, window_size: usize)
    requires
        builder_dims_ok(curve, window_size),
        v3_layouts(curve, window_size).0.fits(curve.field_bits as int),
        v3_layouts(curve, window_size).1.fits(curve.field_bits as int),
        effect_fits(primary_counter(6 * curve.field_bits), v3_effect(curve, window_size)),
    ensures
        ({
            let (la, lb) = v3_layouts(curve, window_size);
            let num = (curve.field_bits / window_size) as int;
            &&& effect_wf(la.effect(num))
            &&& effect_wf(lb.effect(num))
            &&& la.allocated() == lb.allocated()
            &&& la.allocated() >= 0
            &&& effect_fits(primary_counter(6 * curve.field_bits), la.effect(num))
            &&& karatsuba_ws(curve.field_bits as int) >= curve.field_bits + 1
        }),
{
    let (la, lb) = v3_layouts(curve, window_size);
    let num = (curve.field_bits / window_size) as int;
    let n = curve.field_bits;
        crate::group_action::scalar_mul::lemma_ws_effect_wf(la.dbl_ctx(), la.dbl_ops(), 12 * la.n + 2);
        crate::group_action::scalar_mul::lemma_ws_effect_wf(la.add_ctx(), la.add_ops(), 13 * la.n + 2);
        crate::group_action::scalar_mul::lemma_ws_effect_wf(lb.dbl_ctx(), lb.dbl_ops(), 12 * lb.n + 2);
        crate::group_action::scalar_mul::lemma_ws_effect_wf(lb.add_ctx(), lb.add_ops(), 13 * lb.n + 2);
        crate::reversible::multiplier::lemma_karatsuba_ws_pos(n as int);
        let tail_a = seq![la.add_effect(), la.sq_effect(), la.sq_effect()];
        let tail_b = seq![lb.add_effect(), lb.sq_effect(), lb.sq_effect()];
        assert forall|k: int| 0 <= k < tail_a.len() implies effect_wf(#[trigger] tail_a[k]) by {}
        assert forall|k: int| 0 <= k < tail_b.len() implies effect_wf(#[trigger] tail_b[k]) by {}
        lemma_rounds_grow((0, 0, 0, 0), la.dbl_effect(), tail_a, window_size as nat, 0, num as nat);
        lemma_rounds_grow((0, 0, 0, 0), lb.dbl_effect(), tail_b, window_size as nat, 0, num as nat);
        vstd::arithmetic::power2::lemma_pow2_pos(window_size as nat);
        assert(la.allocated() == lb.allocated());
        assert(effect_fits(primary_counter(6 * n), la.effect(num)));
}

/// Build the V3 double-scalar group-action circuit in modified Jacobian
/// coordinates: 6n primary qubits (exponent registers a and b, accumulator
/// X, Y, Z, aZ⁴); V3 multiplication by a, pool reset, multiplication by b
/// into the same accumulator, pool reset; one binary-GCD inversion of Z
/// and the affine recovery x = X·Z⁻², y = Y·Z⁻³; the QFT estimate; and the
/// per-subsystem Toffoli breakdown.  Its log of gates holds every gate
/// emitted, in order, as the counter records them.
#[verifier::rlimit(100)]
#[verifier::spinoff_prover]
pub fn build_group_action_circuit_jacobian_v3(curve: &CurveParams, window_size: usize) -> (r: GroupActionCircuit)
    requires
        builder_dims_ok(*curve, window_size),
        recovery_fits(curve.field_bits as int),
        v3_layouts(*curve, window_size).0.fits(curve.field_bits as int),
        v3_layouts(*curve, window_size).1.fits(curve.field_bits as int),
        gate_room(primary_counter(6 * curve.field_bits), v3_recorded(*curve, window_size).len() as int),
        effect_fits(primary_counter(6 * curve.field_bits), v3_effect(*curve, window_size)),
    ensures
        r.curve == *curve,
        r.window_size == window_size,
        r.coordinate_system@ == "jacobian-v3"@,
        r.gate_log@ == v3_recorded(*curve, window_size),
        r.qft_estimate == dual_qft(curve.field_bits as int),
        r.cost_attribution == Some(v3_attribution(*curve, window_size)),
        r.resources.pre_allocated_depth == 0,
        gates_recorded(primary_counter(6 * curve.field_bits), r.resources, v3_recorded(*curve, window_size)),
        effect_holds(primary_counter(6 * curve.field_bits), r.resources, v3_effect(*curve, window_size)),
{
    let n = curve.field_bits;
    let ghost (la, lb) = v3_layouts(*curve, window_size);
    let ghost tv = multiples(curve.generator@, curve.a@, pow2(window_size as nat));
    let ghost num = (n / window_size) as int;
    let ghost ga = la.gates(tv, Seq::empty(), num);
    let ghost gb = lb.gates(tv, Seq::empty(), num);
    let ghost gi = inversion_gates(n as int);
    let ghost gr = recovery_gates(n as int);
    let ghost total = v3_recorded(*curve, window_size);
    let ghost ea = la.effect(num);
    let ghost eb = lb.effect(num);
    let ghost ka = la.allocated();
    let ghost etot = v3_effect(*curve, window_size);
    let mut counter = ResourceCounter::new();
    let mut ancilla_pool = AncillaPool::new(UncomputeStrategy::Eager);
    counter.allocate_qubits(6 * n);
    let ghost c1 = counter;
    proof {
        assert(c1 == primary_counter(6 * n));
        assert(total == ga + gb + gi + gr);
        assert(flatten(Seq::<Seq<Gate>>::empty()) =~= Seq::<Gate>::empty());
        lemma_room_left(c1, c1, Seq::empty(), total.len() as int, ga.len() as int);
        lemma_v3_setup(*curve, window_size);
        assert(effect_fits(c1, ea));
    }
    let scalar_mul_a = WindowedScalarMulJacobianV3::new(window_size, n);
    let (mut gate_log, (dbl_a, qrom_a, add_a)) = scalar_mul_a.forward_gates(
        0,
        2 * n,
        3 * n,
        4 * n,
        5 * n,
        &mut ancilla_pool,
        &mut counter,
        curve,
    );
    let ghost c2 = counter;
    assert(gate_log@ == ga);
    proof {
        assert(c2.current_qubits >= ka);
    }
    ancilla_pool.reset_for_reuse(&mut counter);
    let ghost c3 = counter;
    proof {
        lemma_reset_effect(c2, c3, ka);
        crate::reversible::resource_counter::lemma_effect_then_effect(
            c1, c2, c3, ea.0, ea.1, ea.2, ea.3, 0, ka, -ka, 0,
        );
        assert(flatten(ancilla_pool.deferred()) =~= Seq::<Gate>::empty());
        lemma_gates_recorded_concat(c1, c2, c3, ga, Seq::empty());
        assert(ga + Seq::<Gate>::empty() =~= ga);
        lemma_room_left(c1, c3, ga, total.len() as int, gb.len() as int);
        assert(effect_fits(c3, eb));
    }
    let scalar_mul_b = WindowedScalarMulJacobianV3::new(window_size, n);
    let (mut gates_b, (dbl_b, qrom_b, add_b)) = scalar_mul_b.forward_gates(
        n,
        2 * n,
        3 * n,
        4 * n,
        5 * n,
        &mut ancilla_pool,
        &mut counter,
        curve,
    );
    let ghost c4 = counter;
    proof {
        let p = then_effect(ea, reset_effect(ka));
        lemma_effect_step(c1, c3, c4, p, eb);
        lemma_gates_recorded_concat(c1, c3, c4, ga, gb);
        assert(c4.current_qubits >= ka);
    }
    gate_log.append(&mut gates_b);
    assert(gate_log@ == ga + gb);
    let scalar_mul_doubling = dbl_a + dbl_b;
    let scalar_mul_qrom = qrom_a + qrom_b;
    let scalar_mul_addition = add_a + add_b;
    ancilla_pool.reset_for_reuse(&mut counter);
    let ghost c5 = counter;
    proof {
        let p = then_effect(then_effect(ea, reset_effect(ka)), eb);
        lemma_reset_effect(c4, c5, ka);
        crate::reversible::resource_counter::lemma_effect_then_effect(
            c1, c4, c5, p.0, p.1, p.2, p.3, 0, ka, -ka, 0,
        );
        lemma_gates_recorded_concat(c1, c4, c5, ga + gb, Seq::empty());
        assert(ga + gb + Seq::<Gate>::empty() =~= ga + gb);
        lemma_room_left(c1, c5, ga + gb, total.len() as int, (gi + gr).len() as int);
        assert(effect_fits(c5, recovery_effect(n as int)));
    }
    let (inversion_toffoli, affine_recovery_toffoli, mut final_gates) = invert_and_recover(&mut ancilla_pool, &mut counter, n);
    gate_log.append(&mut final_gates);
    assert(gate_log@ == ga + gb + (gi + gr));
    proof {
        let p = then_effect(then_effect(then_effect(ea, reset_effect(ka)), eb), reset_effect(ka));
        crate::reversible::resource_counter::lemma_effect_then_effect(
            c1,
            c5,
            counter,
            p.0,
            p.1,
            p.2,
            p.3,
            recovery_effect(n as int).0,
            recovery_effect(n as int).1,
            recovery_effect(n as int).2,
            recovery_effect(n as int).3,
        );
        lemma_gates_recorded_concat(c1, c5, counter, ga + gb, gi + gr);
        assert(ga + gb + (gi + gr) =~= total);
        assert(gate_log@ =~= total);
    }
    let attribution = CostAttribution {
        doubling_toffoli: scalar_mul_doubling,
        qrom_toffoli: scalar_mul_qrom,
        addition_toffoli: scalar_mul_addition,
        swap_toffoli: 0,
        inversion_toffoli,
        affine_recovery_toffoli,
    };
    let qft_estimate = QftResourceEstimate::for_dual_register(n);
    let coordinate_system = String::from_str("jacobian-v3");
    GroupActionCircuit {
        curve: *curve,
        window_size,
        coordinate_system,
        gate_log,
        qft_estimate,
        resources: counter,
        cost_attribution: Some(attribution),
    }
}

} // verus!
