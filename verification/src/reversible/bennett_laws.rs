//! Bennett's compute–copy–uncompute construction restores its workspace.
use crate::reversible::gates::{
    apply_gate, apply_gates, gate_qubits, gates_in_range, gates_well_formed, lemma_apply_gates_concat,
    lemma_reverse_undoes, Gate,
};
use crate::reversible::multiplier::bennett;
use vstd::prelude::*;

verus! {

/// No qubit of r is read or written by g.
pub open spec fn gate_avoids(g: Gate, r: Set<int>) -> bool {
    forall|k: int| 0 <= k < gate_qubits(g).len() ==> !r.contains(#[trigger] gate_qubits(g)[k] as int)
}

/// No gate of the sequence reads or writes a qubit of r.
pub open spec fn gates_avoid(gs: Seq<Gate>, r: Set<int>) -> bool {
    forall|i: int| 0 <= i < gs.len() ==> gate_avoids(#[trigger] gs[i], r)
}

/// The qubit a gate flips.
pub open spec fn gate_target(g: Gate) -> int {
    match g {
        Gate::Not { target } => target as int,
        Gate::Cnot { target, .. } => target as int,
        Gate::Toffoli { target, .. } => target as int,
    }
}

/// Every gate of the sequence flips a qubit of r.
pub open spec fn gates_write_within(gs: Seq<Gate>, r: Set<int>) -> bool {
    forall|i: int| 0 <= i < gs.len() ==> r.contains(gate_target(#[trigger] gs[i]))
}

/// Two bit vectors of one length that agree outside r.
pub open spec fn agree_outside(s1: Seq<bool>, s2: Seq<bool>, r: Set<int>) -> bool {
    &&& s1.len() == s2.len()
    &&& forall|t: int| 0 <= t < s1.len() && !r.contains(t) ==> #[trigger] s1[t] == s2[t]
}

proof fn lemma_front<T>(gs: Seq<T>, i: int)
    requires
        0 <= i < gs.len() - 1,
    ensures
        gs.drop_last()[i] == gs[i],
{
}

/// Gates that avoid r keep r's bits and map vectors that agree outside r to
/// vectors that agree outside r.
proof fn lemma_avoiding_frame(gs: Seq<Gate>, s1: Seq<bool>, s2: Seq<bool>, r: Set<int>)
    requires
        gates_avoid(gs, r),
        gates_in_range(gs, s1.len() as int),
        agree_outside(s1, s2, r),
    ensures
        agree_outside(apply_gates(gs, s1), apply_gates(gs, s2), r),
        forall|t: int| 0 <= t < s1.len() && r.contains(t) ==> #[trigger] apply_gates(gs, s1)[t] == s1[t],
    decreases gs.len(),
{
    if gs.len() > 0 {
        let front = gs.drop_last();
        let g = gs.last();
        assert(gates_avoid(front, r)) by {
            assert forall|i: int| 0 <= i < front.len() implies gate_avoids(#[trigger] front[i], r) by {
                lemma_front(gs, i);
            }
        }
        assert(gates_in_range(front, s1.len() as int)) by {
            assert forall|i: int| 0 <= i < front.len() implies crate::reversible::gates::gate_in_range(
                #[trigger] front[i],
                s1.len() as int,
            ) by {
                lemma_front(gs, i);
            }
        }
        lemma_avoiding_frame(front, s1, s2, r);
        let m1 = apply_gates(front, s1);
        let m2 = apply_gates(front, s2);
        crate::reversible::gates::lemma_apply_preserves_len(front, s1);
        crate::reversible::gates::lemma_apply_preserves_len(front, s2);
        assert(gate_avoids(gs[gs.len() - 1], r));
        assert(crate::reversible::gates::gate_in_range(gs[gs.len() - 1], s1.len() as int));
        match g {
            Gate::Not { target } => {
                assert(gate_qubits(g)[0] == target);
            },
            Gate::Cnot { control, target } => {
                assert(gate_qubits(g)[0] == control);
                assert(gate_qubits(g)[1] == target);
            },
            Gate::Toffoli { control1, control2, target } => {
                assert(gate_qubits(g)[0] == control1);
                assert(gate_qubits(g)[1] == control2);
                assert(gate_qubits(g)[2] == target);
            },
        }
        assert(apply_gates(gs, s1) == apply_gate(g, m1));
        assert(apply_gates(gs, s2) == apply_gate(g, m2));
    }
}

/// Gates that flip only qubits of r leave every other bit alone.
proof fn lemma_writes_within(gs: Seq<Gate>, s: Seq<bool>, r: Set<int>)
    requires
        gates_write_within(gs, r),
        gates_in_range(gs, s.len() as int),
    ensures
        agree_outside(apply_gates(gs, s), s, r),
    decreases gs.len(),
{
    if gs.len() > 0 {
        let front = gs.drop_last();
        let g = gs.last();
        assert(gates_write_within(front, r)) by {
            assert forall|i: int| 0 <= i < front.len() implies r.contains(gate_target(#[trigger] front[i])) by {
                lemma_front(gs, i);
            }
        }
        assert(gates_in_range(front, s.len() as int)) by {
            assert forall|i: int| 0 <= i < front.len() implies crate::reversible::gates::gate_in_range(
                #[trigger] front[i],
                s.len() as int,
            ) by {
                lemma_front(gs, i);
            }
        }
        lemma_writes_within(front, s, r);
        crate::reversible::gates::lemma_apply_preserves_len(front, s);
        assert(r.contains(gate_target(gs[gs.len() - 1])));
        assert(crate::reversible::gates::gate_in_range(gs[gs.len() - 1], s.len() as int));
    }
}

/// Bennett's construction: when the forward gates avoid the result
/// register r and the copy gates flip only qubits of r, running forward,
/// copy and the forward gates reversed restores every qubit outside r and
/// leaves in r what the copy put there after the forward pass.
pub proof fn lemma_bennett_restores(fwd: Seq<Gate>, copy: Seq<Gate>, bits: Seq<bool>, r: Set<int>)
    requires
        gates_in_range(fwd, bits.len() as int),
        gates_in_range(copy, bits.len() as int),
        gates_well_formed(fwd),
        gates_avoid(fwd, r),
        gates_write_within(copy, r),
    ensures
        ({
            let out = apply_gates(bennett(fwd, copy), bits);
            let copied = apply_gates(copy, apply_gates(fwd, bits));
            &&& out.len() == bits.len()
            &&& forall|t: int| 0 <= t < bits.len() && !r.contains(t) ==> #[trigger] out[t] == bits[t]
            &&& forall|t: int| 0 <= t < bits.len() && r.contains(t) ==> #[trigger] out[t] == copied[t]
        }),
{
    let mid = apply_gates(fwd, bits);
    let copied = apply_gates(copy, mid);
    let rev = fwd.reverse();
    lemma_apply_gates_concat(fwd + copy, rev, bits);
    lemma_apply_gates_concat(fwd, copy, bits);
    crate::reversible::gates::lemma_apply_preserves_len(fwd, bits);
    crate::reversible::gates::lemma_apply_preserves_len(copy, mid);
    assert(gates_avoid(rev, r)) by {
        assert forall|i: int| 0 <= i < rev.len() implies gate_avoids(#[trigger] rev[i], r) by {
            assert(rev[i] == fwd[fwd.len() - 1 - i]);
        }
    }
    assert(gates_in_range(rev, bits.len() as int)) by {
        assert forall|i: int| 0 <= i < rev.len() implies crate::reversible::gates::gate_in_range(
            #[trigger] rev[i],
            bits.len() as int,
        ) by {
            assert(rev[i] == fwd[fwd.len() - 1 - i]);
        }
    }
    lemma_writes_within(copy, mid, r);
    lemma_avoiding_frame(rev, copied, mid, r);
    lemma_reverse_undoes(fwd, bits);
    crate::reversible::gates::lemma_apply_preserves_len(rev, copied);
}

} // verus!
