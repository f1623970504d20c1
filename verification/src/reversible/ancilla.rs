//! Ancilla qubit allocation and deferred uncomputation.
use crate::reversible::gates::{lemma_counts_total, Gate};
use crate::reversible::register::QuantumRegister;
use crate::reversible::resource_counter::{
    emit, gate_room, gates_recorded, lemma_gates_recorded_concat, qubits_unchanged, raised_high_water,
    ResourceCounter,
};
use vstd::prelude::*;

verus! {

/// Strategy for ancilla uncomputation.
#[derive(Clone, Copy, Debug, PartialEq, Eq, Structural)]
pub enum UncomputeStrategy {
    /// Uncompute intermediate values as soon as they're no longer needed.
    /// Saves qubits, costs gates.
    Eager,
    /// Defer uncomputation using Bennett's pebble game strategy.
    /// Saves gates, costs qubits.
    Deferred,
}

/// Manages ancilla qubit allocation and uncomputation.
///
/// Registers are handed out at consecutive qubit indices starting at a base
/// offset; forward gate sequences can be recorded and later replayed in
/// reverse (last computed, first uncomputed).
pub struct AncillaPool {
    /// All allocated ancilla registers.
    registers: Vec<QuantumRegister>,
    /// The global qubit index at which ancilla allocation begins.
    base_offset: usize,
    /// Next available qubit index (>= base_offset).
    next_qubit: usize,
    /// Strategy for uncomputation.
    pub strategy: UncomputeStrategy,
    /// Deferred uncomputation: gates to reverse later.
    deferred_gates: Vec<Vec<Gate>>,
}

/// The concatenation of a sequence of gate lists.
pub open spec fn flatten(ds: Seq<Seq<Gate>>) -> Seq<Gate>
    decreases ds.len(),
{
    if ds.len() == 0 {
        Seq::empty()
    } else {
        flatten(ds.drop_last()) + ds.last()
    }
}

/// Reversing a concatenation concatenates the reversed parts in swapped order.
pub proof fn lemma_reverse_concat(a: Seq<Gate>, b: Seq<Gate>)
    ensures
        (a + b).reverse() =~= b.reverse() + a.reverse(),
{
    assert forall|i: int| 0 <= i < (a + b).len() implies #[trigger] (a + b).reverse()[i] == (
    b.reverse() + a.reverse())[i] by {
        if i < b.len() {
        } else {
        }
    }
}

impl AncillaPool {
    /// The first qubit index of the pool.
    pub closed spec fn base(&self) -> nat {
        self.base_offset as nat
    }

    /// The next qubit index to be handed out.
    pub closed spec fn next(&self) -> nat {
        self.next_qubit as nat
    }

    /// The recorded forward gate lists, oldest first.
    pub closed spec fn deferred(&self) -> Seq<Seq<Gate>> {
        self.deferred_gates@.map_values(|v: Vec<Gate>| v@)
    }

    /// Number of registers handed out.
    pub closed spec fn num_registers(&self) -> nat {
        self.registers@.len()
    }

    /// The uncomputation strategy.
    pub closed spec fn strat(&self) -> UncomputeStrategy {
        self.strategy
    }

    /// The pool never hands out indices below its base.
    pub closed spec fn wf(&self) -> bool {
        self.base_offset <= self.next_qubit
    }

    pub fn new(strategy: UncomputeStrategy) -> (r: Self)
        ensures
            r.wf(),
            r.base() == 0,
            r.next() == 0,
            r.deferred() == Seq::<Seq<Gate>>::empty(),
            r.num_registers() == 0,
            r.strat() == strategy,
    {
        let r = AncillaPool {
            registers: Vec::new(),
            base_offset: 0,
            next_qubit: 0,
            strategy,
            deferred_gates: Vec::new(),
        };
        assert(r.deferred() =~= Seq::<Seq<Gate>>::empty());
        r
    }

    /// Create a new pool whose qubit indices start at `base_offset`,
    /// avoiding collisions with already-allocated primary registers.
    pub fn new_with_base_offset(base_offset: usize, strategy: UncomputeStrategy) -> (r: Self)
        ensures
            r.wf(),
            r.base() == base_offset,
            r.next() == base_offset,
            r.deferred() == Seq::<Seq<Gate>>::empty(),
            r.num_registers() == 0,
            r.strat() == strategy,
    {
        let r = AncillaPool {
            registers: Vec::new(),
            base_offset,
            next_qubit: base_offset,
            strategy,
            deferred_gates: Vec::new(),
        };
        assert(r.deferred() =~= Seq::<Seq<Gate>>::empty());
        r
    }

    /// Allocate a new ancilla register of `num_bits` zero qubits at the next
    /// free index, and record the allocation in the counter.
    pub fn allocate(&mut self, label: &str, num_bits: usize, counter: &mut ResourceCounter) -> (reg:
        QuantumRegister)
        requires
            old(self).wf(),
            old(self).next() + num_bits <= usize::MAX,
            old(counter).ancilla_allocated + num_bits <= usize::MAX,
            old(counter).pre_allocated_depth == 0 ==> old(counter).current_qubits + num_bits
                <= usize::MAX,
        ensures
            final(self).wf(),
            reg.offset == old(self).next(),
            reg.bits@ == Seq::new(num_bits as nat, |i: int| false),
            reg.label@ == label@,
            reg.is_ancilla,
            final(self).next() == old(self).next() + num_bits,
            final(self).base() == old(self).base(),
            final(self).deferred() == old(self).deferred(),
            final(self).num_registers() == old(self).num_registers() + 1,
            final(self).strat() == old(self).strat(),
            final(counter).ancilla_allocated == old(counter).ancilla_allocated + num_bits,
            final(counter).current_qubits == if old(counter).pre_allocated_depth == 0 {
                old(counter).current_qubits + num_bits
            } else {
                old(counter).current_qubits as int
            },
            final(counter).qubit_high_water == raised_high_water(*old(counter), num_bits as int),
            final(counter).ancilla_freed == old(counter).ancilla_freed,
            final(counter).pre_allocated_depth == old(counter).pre_allocated_depth,
            gates_recorded(*old(counter), *final(counter), Seq::empty()),
    {
        let mut reg = QuantumRegister::new_ancilla(label, num_bits);
        reg.offset = self.next_qubit;
        self.next_qubit = self.next_qubit + num_bits;
        counter.allocate_ancilla(num_bits);
        let mut kept = QuantumRegister::new_ancilla(label, num_bits);
        kept.offset = reg.offset;
        self.registers.push(kept);
        reg
    }

    /// Record gates that will need to be reversed for uncomputation.
    pub fn record_for_uncompute(&mut self, gates: Vec<Gate>)
        ensures
            final(self).deferred() == old(self).deferred().push(gates@),
            final(self).wf() == old(self).wf(),
            final(self).base() == old(self).base(),
            final(self).next() == old(self).next(),
            final(self).num_registers() == old(self).num_registers(),
            final(self).strat() == old(self).strat(),
    {
        self.deferred_gates.push(gates);
        assert(self.deferred() =~= old(self).deferred().push(gates@));
    }

    /// Generate uncomputation gates for all deferred computations: the
    /// recorded gates in reverse order (last computed, first uncomputed).
    /// Every emitted gate is recorded in the counter.
    pub fn flush_uncompute(&mut self, counter: &mut ResourceCounter) -> (r: Vec<Gate>)
        requires
            gate_room(*old(counter), flatten(old(self).deferred()).len() as int),
        ensures
            r@ == flatten(old(self).deferred()).reverse(),
            final(self).deferred() == Seq::<Seq<Gate>>::empty(),
            gates_recorded(*old(counter), *final(counter), r@),
            qubits_unchanged(*old(counter), *final(counter)),
            final(self).wf() == old(self).wf(),
            final(self).base() == old(self).base(),
            final(self).next() == old(self).next(),
            final(self).num_registers() == old(self).num_registers(),
            final(self).strat() == old(self).strat(),
    {
        let ghost total = flatten(old(self).deferred());
        let ghost c0 = *counter;
        let mut out: Vec<Gate> = Vec::new();
        let ghost mut done: Seq<Gate> = Seq::empty();
        proof {
            assert(total =~= flatten(self.deferred()) + done);
        }
        while self.deferred_gates.len() > 0
            invariant
                total == flatten(self.deferred()) + done,
                out@ == done.reverse(),
                gates_recorded(c0, *counter, out@),
                qubits_unchanged(c0, *counter),
                gate_room(c0, total.len() as int),
                self.base_offset == old(self).base_offset,
                self.next_qubit == old(self).next_qubit,
                self.registers@.len() == old(self).registers@.len(),
                self.strategy == old(self).strategy,
            decreases self.deferred_gates@.len(),
        {
            let ghost before = self.deferred();
            let list = self.deferred_gates.pop().unwrap();
            proof {
                assert(self.deferred() =~= before.drop_last());
                assert(before.last() == list@);
            }
            let ghost out0 = out@;
            let mut j: usize = list.len();
            while j > 0
                invariant
                    j <= list@.len(),
                    out@ == out0 + list@.subrange(j as int, list@.len() as int).reverse(),
                    out0 == done.reverse(),
                    total == flatten(before.drop_last()) + list@ + done,
                    gates_recorded(c0, *counter, out@),
                    qubits_unchanged(c0, *counter),
                    gate_room(c0, total.len() as int),
                decreases j,
            {
                let g = list[j - 1];
                proof {
                    lemma_counts_total(out@);
                    assert(out@.len() < total.len());
                }
                let ghost c1 = *counter;
                let ghost o1 = out@;
                emit(&mut out, counter, g.inverse());
                proof {
                    lemma_gates_recorded_concat(c0, c1, *counter, o1, seq![g]);
                    assert(o1 + seq![g] =~= o1.push(g));
                    let l = list@;
                    assert(l.subrange(j - 1, l.len() as int) =~= seq![g] + l.subrange(
                        j as int,
                        l.len() as int,
                    ));
                    lemma_reverse_concat(seq![g], l.subrange(j as int, l.len() as int));
                    assert(seq![g].reverse() =~= seq![g]);
                }
                j = j - 1;
            }
            proof {
                assert(list@.subrange(0, list@.len() as int) =~= list@);
                lemma_reverse_concat(list@, done);
                assert(flatten(before.drop_last()) + list@ + done =~= flatten(before.drop_last())
                    + (list@ + done));
                done = list@ + done;
            }
        }
        proof {
            assert(self.deferred() =~= Seq::<Seq<Gate>>::empty());
            assert(flatten(self.deferred()) =~= Seq::<Gate>::empty());
            assert(total =~= done);
        }
        out
    }

    /// Total ancilla qubits handed out (excludes the base offset).
    pub fn total_allocated(&self) -> (r: usize)
        requires
            self.wf(),
        ensures
            r == self.next() - self.base(),
    {
        self.next_qubit - self.base_offset
    }

    /// Make every qubit handed out so far available again: the next register
    /// starts at the base offset once more, and the counter records the
    /// pool's qubits as released.
    pub fn reset_for_reuse(&mut self, counter: &mut ResourceCounter)
        requires
            old(self).wf(),
            old(counter).ancilla_freed + (old(self).next() - old(self).base()) <= usize::MAX,
        ensures
            final(self).wf(),
            final(self).next() == old(self).base(),
            final(self).base() == old(self).base(),
            final(self).num_registers() == 0,
            final(self).deferred() == old(self).deferred(),
            final(self).strat() == old(self).strat(),
            final(counter).ancilla_freed == old(counter).ancilla_freed + (old(self).next()
                - old(self).base()),
            final(counter).current_qubits == if old(counter).pre_allocated_depth == 0 {
                if old(counter).current_qubits >= old(self).next() - old(self).base() {
                    old(counter).current_qubits - (old(self).next() - old(self).base())
                } else {
                    0
                }
            } else {
                old(counter).current_qubits as int
            },
            final(counter).qubit_high_water == old(counter).qubit_high_water,
            final(counter).ancilla_allocated == old(counter).ancilla_allocated,
            final(counter).pre_allocated_depth == old(counter).pre_allocated_depth,
            gates_recorded(*old(counter), *final(counter), Seq::empty()),
    {
        let used = self.next_qubit - self.base_offset;
        counter.free_ancilla(used);
        self.registers.clear();
        self.next_qubit = self.base_offset;
    }
}

} // verus!
