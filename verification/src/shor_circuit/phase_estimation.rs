//! The primary registers of the single-scalar Shor circuit.
use crate::reversible::register::{bit_of, QuantumRegister};
use crate::reversible::resource_counter::{gates_unchanged, max_int, ResourceCounter};
use vstd::prelude::*;

verus! {

/// Phase estimation register management: the scalar register and the point
/// register (x and y), n qubits each.
pub struct PhaseEstimation {
    /// Number of bits in the scalar / field elements.
    pub num_bits: usize,
    /// The scalar register (phase estimation input).
    pub scalar_register: QuantumRegister,
    /// The point x-coordinate register.
    pub point_x_register: QuantumRegister,
    /// The point y-coordinate register.
    pub point_y_register: QuantumRegister,
}

/// A primary register of `n` zero qubits with the given label.
pub open spec fn fresh_register(r: QuantumRegister, label: Seq<char>, n: nat) -> bool {
    &&& r.bits@ == Seq::new(n, |i: int| false)
    &&& r.label@ == label
    &&& !r.is_ancilla
    &&& r.offset == 0
}

/// The register holds the low 64 bits of `v` (its bits beyond the 64th
/// unchanged from `old`).
pub open spec fn loaded(r: QuantumRegister, old: QuantumRegister, v: u64) -> bool {
    &&& r.bits@.len() == old.bits@.len()
    &&& forall|i: int|
        0 <= i < old.bits@.len() ==> #[trigger] r.bits@[i] == if i < 64 {
            bit_of(v as nat, i as nat)
        } else {
            old.bits@[i]
        }
    &&& r.label == old.label
    &&& r.is_ancilla == old.is_ancilla
    &&& r.offset == old.offset
}

impl PhaseEstimation {
    /// Allocate the three primary registers and count their 3n qubits.
    pub fn new(num_bits: usize, counter: &mut ResourceCounter) -> (r: Self)
        requires
            3 * num_bits <= usize::MAX,
            old(counter).current_qubits + 3 * num_bits <= usize::MAX,
        ensures
            r.num_bits == num_bits,
            fresh_register(r.scalar_register, "scalar"@, num_bits as nat),
            fresh_register(r.point_x_register, "point_x"@, num_bits as nat),
            fresh_register(r.point_y_register, "point_y"@, num_bits as nat),
            final(counter).current_qubits == old(counter).current_qubits + 3 * num_bits,
            final(counter).qubit_high_water == max_int(
                old(counter).qubit_high_water as int,
                old(counter).current_qubits + 3 * num_bits,
            ),
            gates_unchanged(*old(counter), *final(counter)),
            final(counter).ancilla_allocated == old(counter).ancilla_allocated,
            final(counter).ancilla_freed == old(counter).ancilla_freed,
            final(counter).pre_allocated_depth == old(counter).pre_allocated_depth,
    {
        let scalar = QuantumRegister::new("scalar", num_bits);
        let point_x = QuantumRegister::new("point_x", num_bits);
        let point_y = QuantumRegister::new("point_y", num_bits);
        counter.allocate_qubits(3 * num_bits);
        Self { num_bits, scalar_register: scalar, point_x_register: point_x, point_y_register: point_y }
    }

    /// Total primary (non-ancilla) qubits.
    pub fn primary_qubits(&self) -> (r: usize)
        requires
            3 * self.num_bits <= usize::MAX,
        ensures
            r == 3 * self.num_bits,
    {
        3 * self.num_bits
    }

    /// Load the generator's coordinates into the point register.
    pub fn load_generator(&mut self, gx: u64, gy: u64)
        ensures
            loaded(final(self).point_x_register, old(self).point_x_register, gx),
            loaded(final(self).point_y_register, old(self).point_y_register, gy),
            final(self).scalar_register == old(self).scalar_register,
            final(self).num_bits == old(self).num_bits,
    {
        self.point_x_register.load_u64(gx);
        self.point_y_register.load_u64(gy);
    }

    /// For classical simulation: load a scalar value.
    pub fn load_scalar(&mut self, k: u64)
        ensures
            loaded(final(self).scalar_register, old(self).scalar_register, k),
            final(self).point_x_register == old(self).point_x_register,
            final(self).point_y_register == old(self).point_y_register,
            final(self).num_bits == old(self).num_bits,
    {
        self.scalar_register.load_u64(k);
    }
}

} // verus!
