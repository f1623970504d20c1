//! Bookkeeping of circuit resources: gate tallies, depth and qubit usage.
use crate::reversible::gates::{count_cnot, count_not, count_toffoli, lemma_counts_push, Gate};
use crate::text::decimal::{decimal, push_decimal};
use vstd::prelude::*;
use vstd::string::StringExecFns;

verus! {

/// Tracks circuit resource usage: qubits, gates, and depth.
#[derive(Clone, Copy, Debug)]
pub struct ResourceCounter {
    /// Total number of NOT gates.
    pub not_count: usize,
    /// Total number of CNOT gates.
    pub cnot_count: usize,
    /// Total number of Toffoli gates.
    pub toffoli_count: usize,
    /// Peak number of simultaneously active qubits.
    pub qubit_high_water: usize,
    /// Current number of active qubits.
    pub current_qubits: usize,
    /// Circuit depth (critical path length; every gate counts one step).
    pub depth: usize,
    /// Number of ancilla qubits allocated.
    pub ancilla_allocated: usize,
    /// Number of ancilla qubits successfully uncomputed.
    pub ancilla_freed: usize,
    /// Nesting depth of pre-allocated workspace scopes.  While it is
    /// positive, ancilla allocation and release leave the qubit counts alone
    /// (the workspace is already counted by the outer scope).
    pub pre_allocated_depth: usize,
}

/// A counter with every field zero.
pub open spec fn zero_counter() -> ResourceCounter {
    ResourceCounter {
        not_count: 0,
        cnot_count: 0,
        toffoli_count: 0,
        qubit_high_water: 0,
        current_qubits: 0,
        depth: 0,
        ancilla_allocated: 0,
        ancilla_freed: 0,
        pre_allocated_depth: 0,
    }
}

/// Tallies and depth of `c1` are those of `c0` plus the gates `gs`.
pub open spec fn gates_recorded(c0: ResourceCounter, c1: ResourceCounter, gs: Seq<Gate>) -> bool {
    &&& c1.not_count == c0.not_count + count_not(gs)
    &&& c1.cnot_count == c0.cnot_count + count_cnot(gs)
    &&& c1.toffoli_count == c0.toffoli_count + count_toffoli(gs)
    &&& c1.depth == c0.depth + gs.len()
}

/// The qubit bookkeeping fields are unchanged.
pub open spec fn qubits_unchanged(c0: ResourceCounter, c1: ResourceCounter) -> bool {
    &&& c1.qubit_high_water == c0.qubit_high_water
    &&& c1.current_qubits == c0.current_qubits
    &&& c1.ancilla_allocated == c0.ancilla_allocated
    &&& c1.ancilla_freed == c0.ancilla_freed
    &&& c1.pre_allocated_depth == c0.pre_allocated_depth
}

/// Tallies are unchanged.
pub open spec fn gates_unchanged(c0: ResourceCounter, c1: ResourceCounter) -> bool {
    gates_recorded(c0, c1, Seq::empty())
}

/// The larger of two integers.
pub open spec fn max_int(a: int, b: int) -> int {
    if a >= b {
        a
    } else {
        b
    }
}

/// The high-water mark after some allocation reached `peak` qubits above the
/// current level.
pub open spec fn raised_high_water(c0: ResourceCounter, peak: int) -> int {
    if c0.pre_allocated_depth == 0 {
        max_int(c0.qubit_high_water as int, c0.current_qubits + peak)
    } else {
        c0.qubit_high_water as int
    }
}

/// Between `c0` and `c1` ancilla workspace was allocated (at least once) and
/// released again: `total` qubits in all, at most `peak` of them at the same
/// time.
pub open spec fn ancilla_scope(c0: ResourceCounter, c1: ResourceCounter, total: int, peak: int) -> bool {
    &&& c1.ancilla_allocated == c0.ancilla_allocated + total
    &&& c1.ancilla_freed == c0.ancilla_freed + total
    &&& c1.current_qubits == c0.current_qubits
    &&& c1.pre_allocated_depth == c0.pre_allocated_depth
    &&& c1.qubit_high_water == raised_high_water(c0, peak)
}

/// The counter can take `k` more gates of any kind without overflow.
pub open spec fn gate_room(c: ResourceCounter, k: int) -> bool {
    &&& c.not_count + k <= usize::MAX
    &&& c.cnot_count + k <= usize::MAX
    &&& c.toffoli_count + k <= usize::MAX
    &&& c.depth + k <= usize::MAX
}

/// The counter can take an ancilla scope of `total` qubits with `peak`
/// simultaneously live without overflow.
pub open spec fn ancilla_room(c: ResourceCounter, total: int, peak: int) -> bool {
    &&& c.ancilla_allocated + total <= usize::MAX
    &&& c.ancilla_freed + total <= usize::MAX
    &&& (c.pre_allocated_depth == 0 ==> c.current_qubits + peak <= usize::MAX)
}

/// Recording gates one after another composes.
pub proof fn lemma_gates_recorded_concat(
    c0: ResourceCounter,
    c1: ResourceCounter,
    c2: ResourceCounter,
    a: Seq<Gate>,
    b: Seq<Gate>,
)
    requires
        gates_recorded(c0, c1, a),
        gates_recorded(c1, c2, b),
    ensures
        gates_recorded(c0, c2, a + b),
{
    crate::reversible::gates::lemma_counts_concat(a, b);
}

/// Two ancilla scopes in a row form one scope; the peak is the larger one.
pub proof fn lemma_scope_then_scope(
    c0: ResourceCounter,
    c1: ResourceCounter,
    c2: ResourceCounter,
    t1: int,
    p1: int,
    t2: int,
    p2: int,
)
    requires
        ancilla_scope(c0, c1, t1, p1),
        ancilla_scope(c1, c2, t2, p2),
    ensures
        ancilla_scope(c0, c2, t1 + t2, max_int(p1, p2)),
{
}

/// An ancilla scope followed by a stretch without allocation is still a scope.
pub proof fn lemma_scope_then_unchanged(c0: ResourceCounter, c1: ResourceCounter, c2: ResourceCounter, t: int, p: int)
    requires
        ancilla_scope(c0, c1, t, p),
        qubits_unchanged(c1, c2),
    ensures
        ancilla_scope(c0, c2, t, p),
{
}

impl Default for ResourceCounter {
    fn default() -> (r: Self)
        ensures
            r == zero_counter(),
    {
        ResourceCounter {
            not_count: 0,
            cnot_count: 0,
            toffoli_count: 0,
            qubit_high_water: 0,
            current_qubits: 0,
            depth: 0,
            ancilla_allocated: 0,
            ancilla_freed: 0,
            pre_allocated_depth: 0,
        }
    }
}

impl ResourceCounter {
    /// A counter with nothing recorded.
    pub fn new() -> (r: Self)
        ensures
            r == zero_counter(),
    {
        Self::default()
    }

    /// Record a gate application.
    pub fn record_gate(&mut self, gate: &Gate)
        requires
            gate_room(*old(self), 1),
        ensures
            gates_recorded(*old(self), *final(self), seq![*gate]),
            qubits_unchanged(*old(self), *final(self)),
    {
        proof {
            lemma_counts_push(Seq::<Gate>::empty(), *gate);
            assert(Seq::<Gate>::empty().push(*gate) =~= seq![*gate]);
        }
        match gate {
            Gate::Not { .. } => self.not_count = self.not_count + 1,
            Gate::Cnot { .. } => self.cnot_count = self.cnot_count + 1,
            Gate::Toffoli { .. } => self.toffoli_count = self.toffoli_count + 1,
        }
        self.depth = self.depth + 1;
    }

    /// Record allocation of qubits.
    pub fn allocate_qubits(&mut self, count: usize)
        requires
            old(self).current_qubits + count <= usize::MAX,
        ensures
            final(self).current_qubits == old(self).current_qubits + count,
            final(self).qubit_high_water == max_int(
                old(self).qubit_high_water as int,
                old(self).current_qubits + count,
            ),
            gates_unchanged(*old(self), *final(self)),
            final(self).ancilla_allocated == old(self).ancilla_allocated,
            final(self).ancilla_freed == old(self).ancilla_freed,
            final(self).pre_allocated_depth == old(self).pre_allocated_depth,
    {
        self.current_qubits = self.current_qubits + count;
        if self.current_qubits > self.qubit_high_water {
            self.qubit_high_water = self.current_qubits;
        }
    }

    /// Record allocation of ancilla qubits.  Inside a pre-allocated
    /// workspace scope only the ancilla tally changes.
    pub fn allocate_ancilla(&mut self, count: usize)
        requires
            old(self).ancilla_allocated + count <= usize::MAX,
            old(self).pre_allocated_depth == 0 ==> old(self).current_qubits + count <= usize::MAX,
        ensures
            final(self).ancilla_allocated == old(self).ancilla_allocated + count,
            final(self).current_qubits == if old(self).pre_allocated_depth == 0 {
                old(self).current_qubits + count
            } else {
                old(self).current_qubits as int
            },
            final(self).qubit_high_water == raised_high_water(*old(self), count as int),
            final(self).ancilla_freed == old(self).ancilla_freed,
            final(self).pre_allocated_depth == old(self).pre_allocated_depth,
            gates_unchanged(*old(self), *final(self)),
    {
        self.ancilla_allocated = self.ancilla_allocated + count;
        if self.pre_allocated_depth == 0 {
            self.allocate_qubits(count);
        }
    }

    /// Record freeing of ancilla qubits (after uncomputation).  Inside a
    /// pre-allocated workspace scope only the freed tally changes.
    pub fn free_ancilla(&mut self, count: usize)
        requires
            old(self).ancilla_freed + count <= usize::MAX,
        ensures
            final(self).ancilla_freed == old(self).ancilla_freed + count,
            final(self).current_qubits == if old(self).pre_allocated_depth == 0 {
                if old(self).current_qubits >= count {
                    old(self).current_qubits - count
                } else {
                    0
                }
            } else {
                old(self).current_qubits as int
            },
            final(self).qubit_high_water == old(self).qubit_high_water,
            final(self).ancilla_allocated == old(self).ancilla_allocated,
            final(self).pre_allocated_depth == old(self).pre_allocated_depth,
            gates_unchanged(*old(self), *final(self)),
    {
        self.ancilla_freed = self.ancilla_freed + count;
        if self.pre_allocated_depth == 0 {
            self.current_qubits = self.current_qubits.saturating_sub(count);
        }
    }

    /// Enter a pre-allocated workspace scope (scopes nest).
    pub fn enter_pre_allocated(&mut self)
        requires
            old(self).pre_allocated_depth < usize::MAX,
        ensures
            *final(self) == (ResourceCounter {
                pre_allocated_depth: (old(self).pre_allocated_depth + 1) as usize,
                ..*old(self)
            }),
    {
        self.pre_allocated_depth = self.pre_allocated_depth + 1;
    }

    /// Exit a pre-allocated workspace scope (never below zero).
    pub fn exit_pre_allocated(&mut self)
        ensures
            *final(self) == (ResourceCounter {
                pre_allocated_depth: if old(self).pre_allocated_depth > 0 {
                    (old(self).pre_allocated_depth - 1) as usize
                } else {
                    0
                },
                ..*old(self)
            }),
    {
        self.pre_allocated_depth = self.pre_allocated_depth.saturating_sub(1);
    }

    /// Total gate count.
    pub fn total_gates(&self) -> (r: usize)
        requires
            self.not_count + self.cnot_count + self.toffoli_count <= usize::MAX,
        ensures
            r == self.not_count + self.cnot_count + self.toffoli_count,
    {
        self.not_count + self.cnot_count + self.toffoli_count
    }

    /// A summary table of the resources.
    pub fn summary(&self) -> (s: String)
        requires
            self.not_count + self.cnot_count + self.toffoli_count <= usize::MAX,
        ensures
            s@ == counter_summary(*self),
    {
        let mut s = String::new();
        s.append("Circuit Resources:\n├── Logical qubits (peak): ");
        push_decimal(&mut s, self.qubit_high_water as u64);
        s.append("\n├── Toffoli gates:         ");
        push_decimal(&mut s, self.toffoli_count as u64);
        s.append("\n├── CNOT gates:            ");
        push_decimal(&mut s, self.cnot_count as u64);
        s.append("\n├── NOT gates:             ");
        push_decimal(&mut s, self.not_count as u64);
        s.append("\n├── Total gates:           ");
        push_decimal(&mut s, self.total_gates() as u64);
        s.append("\n├── Circuit depth:         ");
        push_decimal(&mut s, self.depth as u64);
        s.append("\n├── Ancilla allocated:     ");
        push_decimal(&mut s, self.ancilla_allocated as u64);
        s.append("\n└── Ancilla freed:         ");
        push_decimal(&mut s, self.ancilla_freed as u64);
        s
    }
}

/// The text of the summary table.
pub open spec fn counter_summary(c: ResourceCounter) -> Seq<char> {
    "Circuit Resources:\n├── Logical qubits (peak): "@ + decimal(c.qubit_high_water as nat)
        + "\n├── Toffoli gates:         "@ + decimal(c.toffoli_count as nat)
        + "\n├── CNOT gates:            "@ + decimal(c.cnot_count as nat)
        + "\n├── NOT gates:             "@ + decimal(c.not_count as nat)
        + "\n├── Total gates:           "@ + decimal(
        (c.not_count + c.cnot_count + c.toffoli_count) as nat,
    ) + "\n├── Circuit depth:         "@ + decimal(c.depth as nat)
        + "\n├── Ancilla allocated:     "@ + decimal(c.ancilla_allocated as nat)
        + "\n└── Ancilla freed:         "@ + decimal(c.ancilla_freed as nat)
}

/// Appends one gate to `gates` and records it in `counter`.
pub fn emit(gates: &mut Vec<Gate>, counter: &mut ResourceCounter, g: Gate)
    requires
        gate_room(*old(counter), 1),
    ensures
        final(gates)@ == old(gates)@.push(g),
        gates_recorded(*old(counter), *final(counter), seq![g]),
        qubits_unchanged(*old(counter), *final(counter)),
{
    counter.record_gate(&g);
    gates.push(g);
}

/// Room left in a budget: a counter that has recorded `gs` since `c0`, with
/// `c0` having room for `budget` gates, has room for `k` more when
/// `gs.len() + k <= budget`.
pub proof fn lemma_room_left(c0: ResourceCounter, c: ResourceCounter, gs: Seq<Gate>, budget: int, k: int)
    requires
        gates_recorded(c0, c, gs),
        gate_room(c0, budget),
        gs.len() + k <= budget,
    ensures
        gate_room(c, k),
{
    crate::reversible::gates::lemma_counts_total(gs);
}

/// Between `c0` and `c1` ancilla qubits were allocated (at least once) and
/// released: `alloc` in all, `freed` released, `net` of them still live at
/// the end, at most `peak` live at once.  Inside a pre-allocated scope only
/// the tallies change.
pub open spec fn qubit_effect(
    c0: ResourceCounter,
    c1: ResourceCounter,
    alloc: int,
    freed: int,
    net: int,
    peak: int,
) -> bool {
    &&& c1.ancilla_allocated == c0.ancilla_allocated + alloc
    &&& c1.ancilla_freed == c0.ancilla_freed + freed
    &&& c1.pre_allocated_depth == c0.pre_allocated_depth
    &&& c1.current_qubits == if c0.pre_allocated_depth == 0 {
        c0.current_qubits + net
    } else {
        c0.current_qubits as int
    }
    &&& c1.qubit_high_water == raised_high_water(c0, peak)
}

/// An ancilla scope is an effect with nothing left live.
pub proof fn lemma_scope_is_effect(c0: ResourceCounter, c1: ResourceCounter, t: int, p: int)
    requires
        ancilla_scope(c0, c1, t, p),
    ensures
        qubit_effect(c0, c1, t, t, 0, p),
{
}

/// Effects compose: tallies and live qubits add up; the second peak sits
/// on top of what the first left live.
pub proof fn lemma_effect_then_effect(
    c0: ResourceCounter,
    c1: ResourceCounter,
    c2: ResourceCounter,
    a1: int,
    f1: int,
    n1: int,
    p1: int,
    a2: int,
    f2: int,
    n2: int,
    p2: int,
)
    requires
        qubit_effect(c0, c1, a1, f1, n1, p1),
        qubit_effect(c1, c2, a2, f2, n2, p2),
        c0.pre_allocated_depth == 0 ==> c0.current_qubits + n1 >= 0,
    ensures
        qubit_effect(c0, c2, a1 + a2, f1 + f2, n1 + n2, max_int(p1, n1 + p2)),
{
}

/// An effect followed by a stretch without allocation is the same effect.
pub proof fn lemma_effect_then_unchanged(
    c0: ResourceCounter,
    c1: ResourceCounter,
    c2: ResourceCounter,
    a: int,
    f: int,
    n: int,
    p: int,
)
    requires
        qubit_effect(c0, c1, a, f, n, p),
        qubits_unchanged(c1, c2),
    ensures
        qubit_effect(c0, c2, a, f, n, p),
{
}

/// A stretch without allocation followed by an effect is that effect.
pub proof fn lemma_unchanged_then_effect(
    c0: ResourceCounter,
    c1: ResourceCounter,
    c2: ResourceCounter,
    a: int,
    f: int,
    n: int,
    p: int,
)
    requires
        qubits_unchanged(c0, c1),
        qubit_effect(c1, c2, a, f, n, p),
    ensures
        qubit_effect(c0, c2, a, f, n, p),
{
}

} // verus!
