use vstd::prelude::*;

verus! {

/// A reversible gate operating on qubit indices within the circuit.
/// Every gate of this set is its own inverse.
#[derive(Clone, Copy, Debug, PartialEq, Eq, Structural)]
pub enum Gate {
    /// Pauli-X (NOT) gate: flips the target qubit.
    Not { target: usize },
    /// Controlled-NOT: flips target if control is |1⟩.
    Cnot { control: usize, target: usize },
    /// Toffoli (CCNOT): flips target if both controls are |1⟩.
    Toffoli { control1: usize, control2: usize, target: usize },
}

/// The qubits a gate touches, in the order control(s), target.
pub open spec fn gate_qubits(g: Gate) -> Seq<usize> {
    match g {
        Gate::Not { target } => seq![target],
        Gate::Cnot { control, target } => seq![control, target],
        Gate::Toffoli { control1, control2, target } => seq![control1, control2, target],
    }
}

/// Every qubit touched by the operation is below `len`.
pub open spec fn gate_in_range(g: Gate, len: int) -> bool {
    match g {
        Gate::Not { target } => target < len,
        Gate::Cnot { control, target } => control < len && target < len,
        Gate::Toffoli { control1, control2, target } => control1 < len && control2 < len && target
            < len,
    }
}

/// The classical effect of a gate on a bit vector.
pub open spec fn apply_gate(g: Gate, bits: Seq<bool>) -> Seq<bool> {
    match g {
        Gate::Not { target } => bits.update(target as int, !bits[target as int]),
        Gate::Cnot { control, target } => if bits[control as int] {
            bits.update(target as int, !bits[target as int])
        } else {
            bits
        },
        Gate::Toffoli { control1, control2, target } => if bits[control1 as int]
            && bits[control2 as int] {
            bits.update(target as int, !bits[target as int])
        } else {
            bits
        },
    }
}

/// Applying a gate sequence in order.
pub open spec fn apply_gates(gs: Seq<Gate>, bits: Seq<bool>) -> Seq<bool>
    decreases gs.len(),
{
    if gs.len() == 0 {
        bits
    } else {
        apply_gate(gs.last(), apply_gates(gs.drop_last(), bits))
    }
}

/// A gate whose target differs from its controls; such gates undo themselves.
pub open spec fn gate_well_formed(g: Gate) -> bool {
    match g {
        Gate::Not { .. } => true,
        Gate::Cnot { control, target } => control != target,
        Gate::Toffoli { control1, control2, target } => control1 != target && control2 != target,
    }
}

impl Gate {
    /// Return the inverse of this gate (every gate here is self-inverse).
    pub fn inverse(&self) -> (r: Self)
        ensures
            r == *self,
    {
        *self
    }

    /// Return the qubit indices this gate operates on.
    pub fn qubits(&self) -> (r: Vec<usize>)
        ensures
            r@ == gate_qubits(*self),
    {
        match self {
            Gate::Not { target } => vec![*target],
            Gate::Cnot { control, target } => vec![*control, *target],
            Gate::Toffoli { control1, control2, target } => vec![*control1, *control2, *target],
        }
    }

    /// Apply this gate to a classical bit vector (simulation).
    pub fn apply(&self, bits: &mut [bool])
        requires
            gate_in_range(*self, old(bits)@.len() as int),
        ensures
            final(bits)@ == apply_gate(*self, old(bits)@),
    {
        match self {
            Gate::Not { target } => {
                let v = bits[*target];
                bits[*target] = !v;
            },
            Gate::Cnot { control, target } => {
                if bits[*control] {
                    let v = bits[*target];
                    bits[*target] = !v;
                }
            },
            Gate::Toffoli { control1, control2, target } => {
                if bits[*control1] && bits[*control2] {
                    let v = bits[*target];
                    bits[*target] = !v;
                }
            },
        }
    }
}

/// A well-formed gate applied twice restores the bit vector.
pub proof fn lemma_gate_self_inverse(g: Gate, bits: Seq<bool>)
    requires
        gate_in_range(g, bits.len() as int),
        gate_well_formed(g),
    ensures
        apply_gate(g, apply_gate(g, bits)) =~= bits,
{
}

/// All gates of a sequence touch only qubits below `len`.
pub open spec fn gates_in_range(gs: Seq<Gate>, len: int) -> bool {
    forall|i: int| 0 <= i < gs.len() ==> gate_in_range(#[trigger] gs[i], len)
}

/// All gates of a sequence have targets distinct from their controls.
pub open spec fn gates_well_formed(gs: Seq<Gate>) -> bool {
    forall|i: int| 0 <= i < gs.len() ==> gate_well_formed(#[trigger] gs[i])
}

/// Running a sequence of well-formed gates and then the same gates in reverse
/// order restores the bit vector (the basis of Bennett uncomputation).
pub proof fn lemma_reverse_undoes(gs: Seq<Gate>, bits: Seq<bool>)
    requires
        gates_in_range(gs, bits.len() as int),
        gates_well_formed(gs),
    ensures
        apply_gates(gs.reverse(), apply_gates(gs, bits)) =~= bits,
    decreases gs.len(),
{
    if gs.len() > 0 {
        let g = gs.last();
        let front = gs.drop_last();
        let mid = apply_gates(front, bits);
        let x = apply_gates(gs, bits);
        assert(gate_in_range(gs[gs.len() - 1], bits.len() as int));
        assert(gate_well_formed(gs[gs.len() - 1]));
        assert(gates_in_range(front, bits.len() as int)) by {
            assert forall|i: int| 0 <= i < front.len() implies gate_in_range(
                #[trigger] front[i],
                bits.len() as int,
            ) by {
                assert(front[i] == gs[i]);
            }
        }
        assert(gates_well_formed(front)) by {
            assert forall|i: int| 0 <= i < front.len() implies gate_well_formed(
                #[trigger] front[i],
            ) by {
                assert(front[i] == gs[i]);
            }
        }
        lemma_apply_preserves_len(front, bits);
        lemma_gate_self_inverse(g, mid);
        assert(x == apply_gate(g, mid));
        assert(gs.reverse() =~= seq![g] + front.reverse());
        lemma_apply_gates_concat(seq![g], front.reverse(), x);
        let one = seq![g];
        assert(one.drop_last() =~= Seq::<Gate>::empty());
        assert(one.last() == g);
        assert(apply_gates(one.drop_last(), x) == x);
        assert(apply_gates(one, x) == apply_gate(g, x));
        lemma_reverse_undoes(front, bits);
    }
}

/// Applying an in-range gate never changes the length of the bit vector.
pub proof fn lemma_apply_gate_len(g: Gate, bits: Seq<bool>)
    requires
        gate_in_range(g, bits.len() as int),
    ensures
        apply_gate(g, bits).len() == bits.len(),
{
}

/// Applying in-range gates never changes the length of the bit vector.
pub proof fn lemma_apply_preserves_len(gs: Seq<Gate>, bits: Seq<bool>)
    requires
        gates_in_range(gs, bits.len() as int),
    ensures
        apply_gates(gs, bits).len() == bits.len(),
    decreases gs.len(),
{
    if gs.len() > 0 {
        let front = gs.drop_last();
        assert(gates_in_range(front, bits.len() as int)) by {
            assert forall|i: int| 0 <= i < front.len() implies gate_in_range(
                #[trigger] front[i],
                bits.len() as int,
            ) by {
                assert(front[i] == gs[i]);
            }
        }
        assert(gate_in_range(gs[gs.len() - 1], bits.len() as int));
        lemma_apply_preserves_len(front, bits);
        lemma_apply_gate_len(gs.last(), apply_gates(front, bits));
    }
}

/// Applying a concatenation applies the parts one after the other.
pub proof fn lemma_apply_gates_concat(a: Seq<Gate>, b: Seq<Gate>, bits: Seq<bool>)
    ensures
        apply_gates(a + b, bits) == apply_gates(b, apply_gates(a, bits)),
    decreases b.len(),
{
    if b.len() == 0 {
        assert(a + b =~= a);
    } else {
        assert((a + b).drop_last() =~= a + b.drop_last());
        lemma_apply_gates_concat(a, b.drop_last(), bits);
    }
}

/// Number of NOT gates in a sequence.
pub open spec fn count_not(gs: Seq<Gate>) -> nat
    decreases gs.len(),
{
    if gs.len() == 0 {
        0
    } else {
        count_not(gs.drop_last()) + if gs.last() is Not {
            1nat
        } else {
            0nat
        }
    }
}

/// Number of CNOT gates in a sequence.
pub open spec fn count_cnot(gs: Seq<Gate>) -> nat
    decreases gs.len(),
{
    if gs.len() == 0 {
        0
    } else {
        count_cnot(gs.drop_last()) + if gs.last() is Cnot {
            1nat
        } else {
            0nat
        }
    }
}

/// Number of Toffoli gates in a sequence.
pub open spec fn count_toffoli(gs: Seq<Gate>) -> nat
    decreases gs.len(),
{
    if gs.len() == 0 {
        0
    } else {
        count_toffoli(gs.drop_last()) + if gs.last() is Toffoli {
            1nat
        } else {
            0nat
        }
    }
}

/// Appending one gate adds it to exactly one tally.
pub proof fn lemma_counts_push(gs: Seq<Gate>, g: Gate)
    ensures
        count_not(gs.push(g)) == count_not(gs) + if g is Not {
            1nat
        } else {
            0nat
        },
        count_cnot(gs.push(g)) == count_cnot(gs) + if g is Cnot {
            1nat
        } else {
            0nat
        },
        count_toffoli(gs.push(g)) == count_toffoli(gs) + if g is Toffoli {
            1nat
        } else {
            0nat
        },
{
    assert(gs.push(g).drop_last() =~= gs);
}

/// The tallies of a concatenation are the sums of the tallies.
pub proof fn lemma_counts_concat(a: Seq<Gate>, b: Seq<Gate>)
    ensures
        count_not(a + b) == count_not(a) + count_not(b),
        count_cnot(a + b) == count_cnot(a) + count_cnot(b),
        count_toffoli(a + b) == count_toffoli(a) + count_toffoli(b),
    decreases b.len(),
{
    if b.len() == 0 {
        assert(a + b =~= a);
    } else {
        assert((a + b).drop_last() =~= a + b.drop_last());
        lemma_counts_concat(a, b.drop_last());
    }
}

/// Every gate is counted in exactly one tally.
pub proof fn lemma_counts_total(gs: Seq<Gate>)
    ensures
        count_not(gs) + count_cnot(gs) + count_toffoli(gs) == gs.len(),
    decreases gs.len(),
{
    if gs.len() > 0 {
        lemma_counts_total(gs.drop_last());
    }
}

/// Reversing a sequence keeps every tally.
pub proof fn lemma_counts_reverse(gs: Seq<Gate>)
    ensures
        count_not(gs.reverse()) == count_not(gs),
        count_cnot(gs.reverse()) == count_cnot(gs),
        count_toffoli(gs.reverse()) == count_toffoli(gs),
    decreases gs.len(),
{
    if gs.len() > 0 {
        let g = gs.last();
        let front = gs.drop_last();
        assert(gs.reverse() =~= seq![g] + front.reverse());
        lemma_counts_concat(seq![g], front.reverse());
        lemma_counts_reverse(front);
        assert(seq![g] =~= Seq::<Gate>::empty().push(g));
        lemma_counts_push(Seq::<Gate>::empty(), g);
    }
}

} // verus!
