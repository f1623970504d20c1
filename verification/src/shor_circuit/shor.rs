//! The single-scalar Shor circuit record and its summary.
use crate::ec::curve::{AffinePoint, CurveParams};
use crate::ec::ec_spec::ec_scalar_mul;
use crate::ec::point_ops::scalar_mul;
use crate::field::goldilocks::gp;
use crate::reversible::gates::Gate;
use crate::reversible::resource_counter::ResourceCounter;
use crate::group_action::double_scalar::primary_counter;
use crate::group_action::precompute::multiples;
use crate::group_action::scalar_mul::{SmLayout, WindowedScalarMul};
use crate::group_action::window_effects::{effect_fits, effect_holds};
use crate::reversible::ancilla::{flatten, AncillaPool, UncomputeStrategy};
use crate::reversible::resource_counter::{gate_room, gates_recorded};
use crate::shor_circuit::phase_estimation::PhaseEstimation;
use crate::shor_circuit::qft::{QftResources, QuantumFourierTransform};
use vstd::arithmetic::power2::pow2;
use vstd::prelude::*;

verus! {

/// The Shor circuit for ECDLP over the Goldilocks field.
#[derive(Clone, Debug)]
pub struct ShorCircuit {
    /// Curve parameters.
    pub curve: CurveParams,
    /// Window size for scalar multiplication.
    pub window_size: usize,
    /// Ordered log of all reversible gates (Toffoli/CNOT/NOT).
    pub gate_log: Vec<Gate>,
    /// QFT resources (tracked separately from Toffoli-based gates).
    pub qft_resources: QftResources,
    /// Overall resource summary.
    pub resources: ResourceCounter,
}

/// Summary of the circuit's resource usage, suitable for publication.
#[derive(Clone, Copy, Debug)]
pub struct CircuitSummary {
    pub field_bits: usize,
    pub window_size: usize,
    pub logical_qubits_peak: usize,
    pub toffoli_gates: usize,
    pub cnot_gates: usize,
    pub not_gates: usize,
    pub total_reversible_gates: usize,
    pub circuit_depth: usize,
    pub ancilla_high_water: usize,
    pub qft_hadamards: usize,
    pub qft_rotations: usize,
    pub point_additions: usize,
    pub point_doublings: usize,
    pub field_inversions: usize,
    pub field_multiplications: usize,
}

impl ShorCircuit {
    /// A publishable summary of the circuit's resources; the EC operation
    /// tallies are not tracked by this circuit and read zero.
    pub fn summary(&self) -> (r: CircuitSummary)
        requires
            self.resources.not_count + self.resources.cnot_count + self.resources.toffoli_count <= usize::MAX,
        ensures
            r == (CircuitSummary {
                field_bits: self.curve.field_bits,
                window_size: self.window_size,
                logical_qubits_peak: self.resources.qubit_high_water,
                toffoli_gates: self.resources.toffoli_count,
                cnot_gates: self.resources.cnot_count,
                not_gates: self.resources.not_count,
                total_reversible_gates: (self.resources.not_count + self.resources.cnot_count
                    + self.resources.toffoli_count) as usize,
                circuit_depth: self.resources.depth,
                ancilla_high_water: self.resources.ancilla_allocated,
                qft_hadamards: self.qft_resources.hadamard_count,
                qft_rotations: self.qft_resources.controlled_rotation_count,
                point_additions: 0,
                point_doublings: 0,
                field_inversions: 0,
                field_multiplications: 0,
            }),
    {
        CircuitSummary {
            field_bits: self.curve.field_bits,
            window_size: self.window_size,
            logical_qubits_peak: self.resources.qubit_high_water,
            toffoli_gates: self.resources.toffoli_count,
            cnot_gates: self.resources.cnot_count,
            not_gates: self.resources.not_count,
            total_reversible_gates: self.resources.total_gates(),
            circuit_depth: self.resources.depth,
            ancilla_high_water: self.resources.ancilla_allocated,
            qft_hadamards: self.qft_resources.hadamard_count,
            qft_rotations: self.qft_resources.controlled_rotation_count,
            point_additions: 0,
            point_doublings: 0,
            field_inversions: 0,
            field_multiplications: 0,
        }
    }

    /// Execute the circuit classically on a scalar: [k]G by the reference
    /// scalar multiplication.
    pub fn execute_classical(&self, k: u64) -> (r: AffinePoint)
        ensures
            r@ == ec_scalar_mul(k as nat, self.curve.generator@, self.curve.a@, gp()),
    {
        scalar_mul(k, &self.curve.generator, &self.curve)
    }

    /// Total qubit count including ancillae (the peak).
    pub fn qubit_count(&self) -> (r: usize)
        ensures
            r == self.resources.qubit_high_water,
    {
        self.resources.qubit_high_water
    }

    /// Total Toffoli gate count.
    pub fn toffoli_count(&self) -> (r: usize)
        ensures
            r == self.resources.toffoli_count,
    {
        self.resources.toffoli_count
    }

    /// Total CNOT gate count.
    pub fn cnot_count(&self) -> (r: usize)
        ensures
            r == self.resources.cnot_count,
    {
        self.resources.cnot_count
    }

    /// Circuit depth.
    pub fn depth(&self) -> (r: usize)
        ensures
            r == self.resources.depth,
    {
        self.resources.depth
    }
}

/// The layout of the single-scalar circuit's windowed multiplication: the
/// scalar register at 0, the point at (n, 2n), ancillae from 3n on.
pub open spec fn shor_layout(curve: CurveParams, window_size: usize) -> SmLayout {
    let n = curve.field_bits as int;
    WindowedScalarMul { window_size, scalar_bits: curve.field_bits }.layout(0, n, 2 * n, 3 * n, curve)
}

/// The gates of the single-scalar circuit: the windowed multiplication by
/// the scalar with the table of G.
pub open spec fn shor_gates(curve: CurveParams, window_size: usize) -> Seq<Gate> {
    shor_layout(curve, window_size).gates(
        multiples(curve.generator@, curve.a@, pow2(window_size as nat)),
        Seq::empty(),
        (curve.field_bits / window_size) as int,
    )
}

/// Build the complete Shor circuit for the ECDLP: the three primary
/// registers (scalar, point x, point y; 3n qubits), the windowed reversible
/// multiplication of the point register by the scalar (ancillae after the
/// primary registers), and the QFT resources of the scalar register.  Its
/// log of gates holds every reversible gate emitted, in order, as the counter
/// records them.
pub fn build_shor_circuit(curve: &CurveParams, window_size: usize) -> (r: ShorCircuit)
    requires
        window_size > 0,
        window_size < usize::BITS,
        1 <= curve.field_bits <= 64,
        curve.field_bits % window_size == 0,
        shor_layout(*curve, window_size).fits(curve.field_bits as int),
        gate_room(primary_counter(3 * curve.field_bits), shor_gates(*curve, window_size).len() as int),
        effect_fits(
            primary_counter(3 * curve.field_bits),
            shor_layout(*curve, window_size).effect((curve.field_bits / window_size) as int),
        ),
    ensures
        r.curve == *curve,
        r.window_size == window_size,
        r.gate_log@ == shor_gates(*curve, window_size),
        gates_recorded(primary_counter(3 * curve.field_bits), r.resources, r.gate_log@),
        effect_holds(
            primary_counter(3 * curve.field_bits),
            r.resources,
            shor_layout(*curve, window_size).effect((curve.field_bits / window_size) as int),
        ),
        r.qft_resources.hadamard_count == curve.field_bits,
        r.qft_resources.controlled_rotation_count == curve.field_bits * (curve.field_bits - 1) / 2,
        r.qft_resources.swap_count == curve.field_bits / 2,
        r.qft_resources.total_gates == curve.field_bits + curve.field_bits * (curve.field_bits - 1) / 2
            + curve.field_bits / 2,
{
    let n = curve.field_bits;
    let mut counter = ResourceCounter::new();
    let mut ancilla_pool = AncillaPool::new_with_base_offset(3 * n, UncomputeStrategy::Eager);
    let _phase_est = PhaseEstimation::new(n, &mut counter);
    proof {
        assert(counter == primary_counter(3 * n));
        assert(flatten(Seq::<Seq<Gate>>::empty()) =~= Seq::<Gate>::empty());
    }
    let scalar_mul = WindowedScalarMul::new(window_size, n);
    let gate_log = scalar_mul.forward_gates(0, n, 2 * n, &mut ancilla_pool, &mut counter, curve);
    let qft = QuantumFourierTransform::new(n);
    proof {
        assert(n * (n - 1) <= 64 * 63) by (nonlinear_arith)
            requires
                1 <= n <= 64,
        ;
    }
    let qft_resources = qft.resource_count();
    ShorCircuit { curve: *curve, window_size, gate_log, qft_resources, resources: counter }
}

} // verus!
