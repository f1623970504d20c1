//! Straight-line arithmetic circuits described as lists of register-level
//! operations, and the interpreter that emits and records their gates.
use crate::reversible::adder::{cnot, cuccaro_gates, cuccaro_len, lemma_cuccaro_len, not_gate, CuccaroAdder};
use crate::reversible::blocks::{
    append_copy, append_fan, append_recorded, append_reversed, append_with_record, concat_map, copy_gates,
    lemma_block_lens, lemma_concat_map_uniform_len, not_step,
};
use crate::reversible::gates::Gate;
use crate::reversible::inverter::{fermat_gates, fermat_ops, lemma_fermat_ops_bound, FermatInverter};
use crate::reversible::multiplier::{
    cuccaro_subtract, karatsuba_modmul_gates, karatsuba_total_ws, lemma_karatsuba_ws_pos, schoolbook_modmul_gates,
    KaratsubaMultiplier, KaratsubaSquarer, ReversibleMultiplier, ReversibleSquarer,
};
use crate::reversible::resource_counter::{
    ancilla_room, ancilla_scope, emit, gate_room, gates_recorded, lemma_effect_then_effect,
    lemma_effect_then_unchanged, lemma_gates_recorded_concat, lemma_unchanged_then_effect, lemma_room_left, lemma_scope_is_effect, max_int,
    qubit_effect, qubits_unchanged, raised_high_water, zero_counter, ResourceCounter,
};
use vstd::prelude::*;

verus! {

/// The shared layout of a circuit: field width, the adders' carry qubit
/// and the multipliers' workspace.
#[derive(Clone, Copy, Debug)]
pub struct OpCtx {
    pub n: usize,
    pub carry: usize,
    pub mw: usize,
}

/// One register-level step of an arithmetic circuit.
pub enum CircOp {
    /// dst ^= src, bit 0 first.
    Copy { src: usize, dst: usize },
    /// dst ^= src, top bit first.
    CopyDesc { src: usize, dst: usize },
    /// b += a (Cuccaro).
    Add { a: usize, b: usize },
    /// b −= a (Cuccaro reversed).
    Sub { a: usize, b: usize },
    /// Undo a subtraction: the subtraction is generated again and emitted
    /// reversed; only the emitted gates are recorded.
    UnSub { a: usize, b: usize },
    /// r ^= a·b mod p (Karatsuba).
    KMul { a: usize, b: usize, r: usize },
    /// r ^= a² mod p (Karatsuba).
    KSq { a: usize, r: usize },
    /// Undo a Karatsuba product: the product is generated again and emitted
    /// reversed, in the multipliers' workspace, which is allocated and
    /// released around it; only the emitted gates are recorded.
    UnKMul { a: usize, b: usize, r: usize },
    /// r ^= a·b mod p (schoolbook).
    SMul { a: usize, b: usize, r: usize },
    /// r ^= a² mod p (schoolbook).
    SSq { a: usize, r: usize },
    /// r ^= a^(p−2) mod p (Fermat), workspace at the multipliers' workspace.
    Fermat { input: usize, res: usize },
    /// NOT every qubit of a register.
    NotAll { d: usize },
    /// NOT one qubit.
    NotOne { t: usize },
    /// The gates of another step in reverse order (recorded once).
    Rev { op: Box<CircOp> },
}

/// dst+i ^= src+i for i = n−1−j.
pub open spec fn copy_desc_step(src: int, dst: int, n: int) -> spec_fn(int) -> Seq<Gate> {
    |j: int| seq![cnot(src + (n - 1 - j), dst + (n - 1 - j))]
}

/// The gates a step emits.
pub open spec fn op_gates(ctx: OpCtx, op: CircOp) -> Seq<Gate>
    decreases op,
{
    let n = ctx.n as int;
    let carry = ctx.carry as int;
    let mw = ctx.mw as int;
    match op {
        CircOp::Copy { src, dst } => copy_gates(src as int, dst as int, n),
        CircOp::CopyDesc { src, dst } => concat_map(copy_desc_step(src as int, dst as int, n), 0, n),
        CircOp::Add { a, b } => cuccaro_gates(n, a as int, b as int, carry),
        CircOp::Sub { a, b } => cuccaro_gates(n, a as int, b as int, carry).reverse(),
        CircOp::UnSub { a, b } => cuccaro_gates(n, a as int, b as int, carry),
        CircOp::KMul { a, b, r } => karatsuba_modmul_gates(n, a as int, b as int, r as int, mw, false),
        CircOp::KSq { a, r } => karatsuba_modmul_gates(n, a as int, a as int, r as int, mw, true),
        CircOp::UnKMul { a, b, r } => karatsuba_modmul_gates(n, a as int, b as int, r as int, mw, false).reverse(),
        CircOp::SMul { a, b, r } => schoolbook_modmul_gates(n, a as int, b as int, r as int, mw),
        CircOp::SSq { a, r } => schoolbook_modmul_gates(n, a as int, a as int, r as int, mw),
        CircOp::Fermat { input, res } => fermat_gates(n, input as int, res as int, mw),
        CircOp::NotAll { d } => concat_map(not_step(d as int), 0, n),
        CircOp::NotOne { t } => seq![not_gate(t as int)],
        CircOp::Rev { op } => op_gates(ctx, *op).reverse(),
    }
}

/// Whether a step allocates ancilla workspace in the counter.
pub open spec fn op_allocates(op: CircOp) -> bool {
    match op {
        CircOp::KMul { .. } | CircOp::KSq { .. } | CircOp::UnKMul { .. } | CircOp::SMul { .. }
        | CircOp::SSq { .. } | CircOp::Fermat { .. } => true,
        _ => false,
    }
}

/// A step's ancilla effect: (allocated, freed, left live, peak).
pub open spec fn op_effect(ctx: OpCtx, op: CircOp) -> (int, int, int, int) {
    let n = ctx.n as int;
    let ktw = karatsuba_total_ws(n);
    match op {
        CircOp::KMul { .. } | CircOp::KSq { .. } | CircOp::UnKMul { .. } => (ktw, ktw, 0, ktw),
        CircOp::SMul { .. } | CircOp::SSq { .. } => (5 * n + 2, 5 * n + 2, 0, 5 * n + 2),
        CircOp::Fermat { .. } => (4 * n + 1 + fermat_ops(64) * ktw, fermat_ops(64) * ktw, 4 * n + 1, 4 * n + 1 + ktw),
        _ => (0, 0, 0, 0),
    }
}

/// The steps' registers fit in the index range.
pub open spec fn op_ok(ctx: OpCtx, op: CircOp) -> bool
    decreases op,
{
    let n = ctx.n as int;
    let mw = ctx.mw as int;
    let ktw = karatsuba_total_ws(n);
    let fits = |x: usize| x + n <= usize::MAX;
    &&& mw + 4 * n + 1 <= usize::MAX
    &&& mw + 2 * n + ktw <= usize::MAX
    &&& 4 * n + 1 + fermat_ops(64) * ktw <= usize::MAX
    &&& match op {
        CircOp::Copy { src, dst } => fits(src) && fits(dst),
        CircOp::CopyDesc { src, dst } => fits(src) && fits(dst),
        CircOp::Add { a, b } => fits(a) && fits(b),
        CircOp::Sub { a, b } => fits(a) && fits(b),
        CircOp::UnSub { a, b } => fits(a) && fits(b) && cuccaro_len(n) <= usize::MAX,
        CircOp::KMul { a, b, r } => fits(a) && fits(b) && fits(r),
        CircOp::KSq { a, r } => fits(a) && fits(r),
        CircOp::UnKMul { a, b, r } => fits(a) && fits(b) && fits(r),
        CircOp::SMul { a, b, r } => 1 <= n <= 64 && fits(a) && fits(b) && fits(r),
        CircOp::SSq { a, r } => 1 <= n <= 64 && fits(a) && fits(r),
        CircOp::Fermat { input, res } => fits(input) && fits(res),
        CircOp::NotAll { d } => fits(d),
        CircOp::NotOne { t } => true,
        CircOp::Rev { op } => {
            &&& !(*op is Rev) && !(*op is UnSub) && !(*op is UnKMul)
            &&& op_ok(ctx, *op)
        },
    }
}

/// The ancilla effect of a step holds between two counters.
pub open spec fn op_effect_holds(ctx: OpCtx, op: CircOp, c0: ResourceCounter, c1: ResourceCounter) -> bool {
    if op_allocates(op) {
        qubit_effect(c0, c1, op_effect(ctx, op).0, op_effect(ctx, op).1, op_effect(ctx, op).2, op_effect(ctx, op).3)
    } else {
        qubits_unchanged(c0, c1)
    }
}

/// The counter has room for a step's ancilla effect.
pub open spec fn op_qubit_room(ctx: OpCtx, op: CircOp, c: ResourceCounter) -> bool {
    &&& c.ancilla_allocated + op_effect(ctx, op).0 <= usize::MAX
    &&& c.ancilla_freed + op_effect(ctx, op).1 <= usize::MAX
    &&& (c.pre_allocated_depth == 0 ==> c.current_qubits + op_effect(ctx, op).3 <= usize::MAX)
}

/// Emits dst ^= src from the top bit down.
fn append_copy_desc(gates: &mut Vec<Gate>, counter: &mut ResourceCounter, src: usize, dst: usize, n: usize)
    requires
        src + n <= usize::MAX,
        dst + n <= usize::MAX,
        gate_room(*old(counter), n as int),
    ensures
        final(gates)@ == old(gates)@ + concat_map(copy_desc_step(src as int, dst as int, n as int), 0, n as int),
        gates_recorded(
            *old(counter),
            *final(counter),
            concat_map(copy_desc_step(src as int, dst as int, n as int), 0, n as int),
        ),
        qubits_unchanged(*old(counter), *final(counter)),
{
    let ghost c0 = *counter;
    let ghost g0 = gates@;
    let ghost f = copy_desc_step(src as int, dst as int, n as int);
    let mut j: usize = 0;
    while j < n
        invariant
            j <= n,
            src + n <= usize::MAX,
            dst + n <= usize::MAX,
            f == copy_desc_step(src as int, dst as int, n as int),
            gate_room(c0, n as int),
            gates@ == g0 + concat_map(f, 0, j as int),
            gates_recorded(c0, *counter, concat_map(f, 0, j as int)),
            qubits_unchanged(c0, *counter),
        decreases n - j,
    {
        proof {
            lemma_concat_map_uniform_len(f, 0, j as int, 1);
            lemma_room_left(c0, *counter, concat_map(f, 0, j as int), n as int, 1);
        }
        let i = n - 1 - j;
        let ghost c1 = *counter;
        emit(gates, counter, Gate::Cnot { control: src + i, target: dst + i });
        proof {
            assert(f(j as int) == seq![cnot(src + i, dst + i)]);
            lemma_gates_recorded_concat(c0, c1, *counter, concat_map(f, 0, j as int), f(j as int));
            assert(gates@ =~= g0 + concat_map(f, 0, j + 1));
        }
        j = j + 1;
    }
}

/// Emits one step other than a reversal, with the given counter.
#[verifier::rlimit(60)]
fn run_base_op(ctx: &OpCtx, op: &CircOp, counter: &mut ResourceCounter) -> (r: Vec<Gate>)
    requires
        !(*op is Rev),
        op_ok(*ctx, *op),
        gate_room(*old(counter), op_gates(*ctx, *op).len() as int),
        op_qubit_room(*ctx, *op, *old(counter)),
    ensures
        r@ == op_gates(*ctx, *op),
        gates_recorded(*old(counter), *final(counter), op_gates(*ctx, *op)),
        op_effect_holds(*ctx, *op, *old(counter), *final(counter)),
{
    let n = ctx.n;
    let carry = ctx.carry;
    let mw = ctx.mw;
    let ghost c0 = *counter;
    proof {
        lemma_karatsuba_ws_pos(n as int);
        lemma_fermat_ops_bound(64);
    }
    match op {
        CircOp::Copy { src, dst } => {
            let mut g: Vec<Gate> = Vec::new();
            proof {
                lemma_block_lens(*src as int, *dst as int, 0, n as int);
            }
            append_copy(&mut g, counter, *src, *dst, n);
            proof {
                assert(g@ =~= copy_gates(*src as int, *dst as int, n as int));
            }
            g
        },
        CircOp::CopyDesc { src, dst } => {
            let mut g: Vec<Gate> = Vec::new();
            proof {
                lemma_concat_map_uniform_len(copy_desc_step(*src as int, *dst as int, n as int), 0, n as int, 1);
            }
            append_copy_desc(&mut g, counter, *src, *dst, n);
            proof {
                assert(g@ =~= op_gates(*ctx, *op));
            }
            g
        },
        CircOp::Add { a, b } => {
            proof {
                lemma_cuccaro_len(n as int, *a as int, *b as int, carry as int);
            }
            let adder = CuccaroAdder::new(n);
            adder.forward_gates(*a, *b, carry, counter)
        },
        CircOp::Sub { a, b } => {
            proof {
                lemma_cuccaro_len(n as int, *a as int, *b as int, carry as int);
            }
            cuccaro_subtract(n, *a, *b, carry, counter)
        },
        CircOp::UnSub { a, b } => {
            proof {
                lemma_cuccaro_len(n as int, *a as int, *b as int, carry as int);
            }
            let mut tmp = ResourceCounter::new();
            let fwd = cuccaro_subtract(n, *a, *b, carry, &mut tmp);
            let mut g: Vec<Gate> = Vec::new();
            append_reversed(&mut g, counter, &fwd);
            proof {
                assert(fwd@.reverse() =~= cuccaro_gates(n as int, *a as int, *b as int, carry as int));
                assert(g@ =~= op_gates(*ctx, *op));
            }
            g
        },
        CircOp::KMul { a, b, r } => {
            let mul = KaratsubaMultiplier::new(n);
            let g = mul.forward_gates(*a, *b, *r, mw, counter);
            proof {
                lemma_scope_is_effect(c0, *counter, karatsuba_total_ws(n as int), karatsuba_total_ws(n as int));
            }
            g
        },
        CircOp::KSq { a, r } => {
            let sq = KaratsubaSquarer::new(n);
            let g = sq.forward_gates(*a, *r, mw, counter);
            proof {
                lemma_scope_is_effect(c0, *counter, karatsuba_total_ws(n as int), karatsuba_total_ws(n as int));
            }
            g
        },
        CircOp::UnKMul { a, b, r } => {
            let ghost k = karatsuba_modmul_gates(n as int, *a as int, *b as int, *r as int, mw as int, false);
            let ktw = KaratsubaMultiplier::workspace_size(n);
            let mut tmp = ResourceCounter::new();
            let mul = KaratsubaMultiplier::new(n);
            let fwd = mul.forward_gates(*a, *b, *r, mw, &mut tmp);
            proof {
                assert(k.reverse().len() == k.len());
            }
            counter.allocate_ancilla(ktw);
            let ghost c1 = *counter;
            let mut g: Vec<Gate> = Vec::new();
            append_reversed(&mut g, counter, &fwd);
            let ghost c2 = *counter;
            counter.free_ancilla(ktw);
            proof {
                lemma_gates_recorded_concat(c0, c1, c2, Seq::empty(), fwd@.reverse());
                lemma_gates_recorded_concat(c0, c2, *counter, fwd@.reverse(), Seq::empty());
                assert(Seq::<Gate>::empty() + fwd@.reverse() =~= fwd@.reverse());
                assert(fwd@.reverse() + Seq::<Gate>::empty() =~= fwd@.reverse());
                assert(g@ =~= op_gates(*ctx, *op));
            }
            g
        },
        CircOp::SMul { a, b, r } => {
            proof {
                crate::reversible::multiplier::lemma_karatsuba_ws_pos(n as int);
            }
            let mul = ReversibleMultiplier::new(n);
            let g = mul.forward_gates(*a, *b, *r, mw, counter);
            proof {
                lemma_scope_is_effect(c0, *counter, 5 * n + 2, 5 * n + 2);
            }
            g
        },
        CircOp::SSq { a, r } => {
            proof {
                crate::reversible::multiplier::lemma_karatsuba_ws_pos(n as int);
            }
            let sq = ReversibleSquarer::new(n);
            let g = sq.forward_gates(*a, *r, mw, counter);
            proof {
                lemma_scope_is_effect(c0, *counter, 5 * n + 2, 5 * n + 2);
            }
            g
        },
        CircOp::Fermat { input, res } => {
            let inv = FermatInverter::new(n);
            inv.forward_gates(*input, *res, mw, counter)
        },
        CircOp::NotAll { d } => {
            let mut g: Vec<Gate> = Vec::new();
            proof {
                lemma_concat_map_uniform_len(not_step(*d as int), 0, n as int, 1);
            }
            append_fan(&mut g, counter, 0, 0, *d, 0, n);
            proof {
                assert(g@ =~= op_gates(*ctx, *op));
            }
            g
        },
        CircOp::NotOne { t } => {
            let mut g: Vec<Gate> = Vec::new();
            emit(&mut g, counter, Gate::Not { target: *t });
            proof {
                assert(g@ =~= op_gates(*ctx, *op));
            }
            g
        },
        CircOp::Rev { .. } => {
            Vec::new()
        },
    }
}

/// Emits one step.
fn run_op(ctx: &OpCtx, op: &CircOp, counter: &mut ResourceCounter) -> (r: Vec<Gate>)
    requires
        op_ok(*ctx, *op),
        gate_room(*old(counter), op_gates(*ctx, *op).len() as int),
        op_qubit_room(*ctx, *op, *old(counter)),
    ensures
        r@ == op_gates(*ctx, *op),
        gates_recorded(*old(counter), *final(counter), op_gates(*ctx, *op)),
        op_effect_holds(*ctx, *op, *old(counter), *final(counter)),
{
    match op {
        CircOp::Rev { op: inner } => {
            let mut tmp = ResourceCounter::new();
            proof {
                assert(op_gates(*ctx, **inner) == op_gates(*ctx, **inner));
                lemma_karatsuba_ws_pos(ctx.n as int);
                lemma_fermat_ops_bound(64);
                assert(karatsuba_total_ws(ctx.n as int) <= fermat_ops(64) * karatsuba_total_ws(ctx.n as int)
                    || fermat_ops(64) == 0) by (nonlinear_arith)
                    requires
                        fermat_ops(64) >= 0,
                        karatsuba_total_ws(ctx.n as int) >= 0,
                ;
                crate::reversible::inverter::lemma_fermat_ops_total();
            }
            let fwd = run_base_op(ctx, inner, &mut tmp);
            let mut g: Vec<Gate> = Vec::new();
            append_reversed(&mut g, counter, &fwd);
            proof {
                assert(g@ =~= op_gates(*ctx, *op));
            }
            g
        },
        _ => run_base_op(ctx, op, counter),
    }
}

/// The gates of a list of steps, one after the other.
pub open spec fn ops_gates(ctx: OpCtx, ops: Seq<CircOp>) -> Seq<Gate>
    decreases ops.len(),
{
    if ops.len() == 0 {
        Seq::empty()
    } else {
        ops_gates(ctx, ops.drop_last()) + op_gates(ctx, ops.last())
    }
}

/// The gates of two lists of steps one after the other.
pub proof fn lemma_ops_gates_concat(ctx: OpCtx, a: Seq<CircOp>, b: Seq<CircOp>)
    ensures
        ops_gates(ctx, a + b) == ops_gates(ctx, a) + ops_gates(ctx, b),
    decreases b.len(),
{
    if b.len() == 0 {
        assert(a + b =~= a);
        assert(ops_gates(ctx, a) + ops_gates(ctx, b) =~= ops_gates(ctx, a));
    } else {
        lemma_ops_gates_concat(ctx, a, b.drop_last());
        assert((a + b).drop_last() =~= a + b.drop_last());
        assert((a + b).last() == b.last());
        assert(ops_gates(ctx, a) + ops_gates(ctx, b.drop_last()) + op_gates(ctx, b.last()) =~= ops_gates(ctx, a)
            + (ops_gates(ctx, b.drop_last()) + op_gates(ctx, b.last())));
    }
}

/// The combined ancilla effect of a list of steps: (allocated, freed, left
/// live, peak, whether anything was allocated).
pub open spec fn ops_effect(ctx: OpCtx, ops: Seq<CircOp>) -> (int, int, int, int, bool)
    decreases ops.len(),
{
    if ops.len() == 0 {
        (0, 0, 0, 0, false)
    } else {
        let e = ops_effect(ctx, ops.drop_last());
        let o = op_effect(ctx, ops.last());
        if op_allocates(ops.last()) {
            (e.0 + o.0, e.1 + o.1, e.2 + o.2, if e.4 {
                max_int(e.3, e.2 + o.3)
            } else {
                e.2 + o.3
            }, true)
        } else {
            e
        }
    }
}

/// The combined ancilla effect holds between two counters.
pub open spec fn ops_effect_holds(ctx: OpCtx, ops: Seq<CircOp>, c0: ResourceCounter, c1: ResourceCounter) -> bool {
    let e = ops_effect(ctx, ops);
    if e.4 {
        qubit_effect(c0, c1, e.0, e.1, e.2, e.3)
    } else {
        qubits_unchanged(c0, c1)
    }
}

/// The counter has room for the combined ancilla effect.
pub open spec fn ops_qubit_room(ctx: OpCtx, ops: Seq<CircOp>, c: ResourceCounter) -> bool {
    let e = ops_effect(ctx, ops);
    &&& c.ancilla_allocated + e.0 <= usize::MAX
    &&& c.ancilla_freed + e.1 <= usize::MAX
    &&& (c.pre_allocated_depth == 0 ==> c.current_qubits + e.3 <= usize::MAX)
}

/// Every step of the list is within range.
pub open spec fn ops_ok(ctx: OpCtx, ops: Seq<CircOp>) -> bool {
    forall|i: int| 0 <= i < ops.len() ==> op_ok(ctx, #[trigger] ops[i])
}

/// The per-step effect is well formed.
pub proof fn lemma_op_effect_wf(ctx: OpCtx, op: CircOp)
    ensures
        op_effect(ctx, op).0 >= 0,
        op_effect(ctx, op).1 >= 0,
        0 <= op_effect(ctx, op).2 <= op_effect(ctx, op).3,
        !op_allocates(op) ==> op_effect(ctx, op) == (0int, 0int, 0int, 0int),
{
    lemma_karatsuba_ws_pos(ctx.n as int);
    lemma_fermat_ops_bound(64);
    assert(fermat_ops(64) * karatsuba_total_ws(ctx.n as int) >= 0) by (nonlinear_arith)
        requires
            fermat_ops(64) >= 0,
            karatsuba_total_ws(ctx.n as int) >= 0,
    ;
}

/// The combined effect is well formed and grows along the list.
pub proof fn lemma_ops_effect_mono(ctx: OpCtx, ops: Seq<CircOp>, i: int, j: int)
    requires
        0 <= i <= j <= ops.len(),
    ensures
        ({
            let a = ops_effect(ctx, ops.take(i));
            let b = ops_effect(ctx, ops.take(j));
            &&& 0 <= a.0 <= b.0
            &&& 0 <= a.1 <= b.1
            &&& 0 <= a.2 <= b.2
            &&& a.4 ==> b.4 && a.3 <= b.3
            &&& b.4 ==> b.2 <= b.3
            &&& !b.4 ==> b.0 == 0 && b.1 == 0 && b.2 == 0 && b.3 == 0
            &&& ops_gates(ctx, ops.take(i)).len() <= ops_gates(ctx, ops.take(j)).len()
        }),
    decreases j,
{
    if j == 0 {
        assert(ops.take(i) =~= ops.take(0));
    } else if i == j {
        lemma_ops_effect_mono(ctx, ops, i - 1, j - 1);
        assert(ops.take(j).drop_last() =~= ops.take(j - 1));
        lemma_op_effect_wf(ctx, ops[j - 1]);
    } else {
        lemma_ops_effect_mono(ctx, ops, i, j - 1);
        assert(ops.take(j).drop_last() =~= ops.take(j - 1));
        assert(ops.take(j).last() == ops[j - 1]);
        lemma_op_effect_wf(ctx, ops[j - 1]);
    }
}

/// What a list of steps leaves live is what it allocated less what it freed.
pub proof fn lemma_ops_effect_net(ctx: OpCtx, ops: Seq<CircOp>)
    ensures
        ops_effect(ctx, ops).2 == ops_effect(ctx, ops).0 - ops_effect(ctx, ops).1,
    decreases ops.len(),
{
    if ops.len() > 0 {
        lemma_ops_effect_net(ctx, ops.drop_last());
    }
}

/// Emits the gates of a list of steps, recording them, with the combined
/// ancilla effect.
pub fn run_ops(ctx: &OpCtx, ops: &Vec<CircOp>, counter: &mut ResourceCounter) -> (r: Vec<Gate>)
    requires
        ops_ok(*ctx, ops@),
        gate_room(*old(counter), ops_gates(*ctx, ops@).len() as int),
        ops_qubit_room(*ctx, ops@, *old(counter)),
    ensures
        r@ == ops_gates(*ctx, ops@),
        gates_recorded(*old(counter), *final(counter), ops_gates(*ctx, ops@)),
        ops_effect_holds(*ctx, ops@, *old(counter), *final(counter)),
{
    let ghost c0 = *counter;
    let ghost all = ops@;
    let mut gates: Vec<Gate> = Vec::new();
    let mut i: usize = 0;
    proof {
        assert(all.take(0) =~= Seq::<CircOp>::empty());
    }
    while i < ops.len()
        invariant
            i <= all.len(),
            all == ops@,
            ops_ok(*ctx, all),
            gate_room(c0, ops_gates(*ctx, all).len() as int),
            ops_qubit_room(*ctx, all, c0),
            gates@ == ops_gates(*ctx, all.take(i as int)),
            gates_recorded(c0, *counter, ops_gates(*ctx, all.take(i as int))),
            ops_effect_holds(*ctx, all.take(i as int), c0, *counter),
        decreases all.len() - i,
    {
        let ghost pre = all.take(i as int);
        let ghost next = all.take(i + 1);
        let ghost op = all[i as int];
        let ghost c1 = *counter;
        proof {
            assert(next.drop_last() =~= pre);
            assert(next.last() == op);
            assert(op_ok(*ctx, op));
            lemma_ops_effect_mono(*ctx, all, i as int, i + 1);
            lemma_ops_effect_mono(*ctx, all, i + 1, all.len() as int);
            lemma_ops_effect_mono(*ctx, all, i as int, all.len() as int);
            lemma_op_effect_wf(*ctx, op);
            assert(all.take(all.len() as int) =~= all);
            lemma_room_left(c0, c1, ops_gates(*ctx, pre), ops_gates(*ctx, all).len() as int, op_gates(*ctx, op).len() as int);
        }
        let g = run_op(ctx, &ops[i], counter);
        let ghost gv = g@;
        let mut g = g;
        gates.append(&mut g);
        proof {
            lemma_gates_recorded_concat(c0, c1, *counter, ops_gates(*ctx, pre), op_gates(*ctx, op));
            let e = ops_effect(*ctx, pre);
            let o = op_effect(*ctx, op);
            lemma_ops_effect_mono(*ctx, all, i as int, i as int);
            assert(ops_effect(*ctx, next) == if op_allocates(op) {
                (e.0 + o.0, e.1 + o.1, e.2 + o.2, if e.4 {
                    max_int(e.3, e.2 + o.3)
                } else {
                    e.2 + o.3
                }, true)
            } else {
                e
            });
            if op_allocates(op) {
                if e.4 {
                    lemma_effect_then_effect(c0, c1, *counter, e.0, e.1, e.2, e.3, o.0, o.1, o.2, o.3);
                } else {
                    lemma_unchanged_then_effect(c0, c1, *counter, o.0, o.1, o.2, o.3);
                }
            } else {
                if e.4 {
                    lemma_effect_then_unchanged(c0, c1, *counter, e.0, e.1, e.2, e.3);
                }
            }
        }
        i = i + 1;
    }
    proof {
        assert(all.take(all.len() as int) =~= all);
    }
    gates
}

/// The ancilla effect of a workspace of `w` qubits allocated around a list
/// of steps with combined effect `e`, everything released at the end: the
/// workspace and whatever the steps left live (they have been uncomputed).
pub open spec fn workspace_effect(c0: ResourceCounter, c1: ResourceCounter, w: int, e: (int, int, int, int, bool)) -> bool {
    qubit_effect(c0, c1, w + e.0, w + e.0, 0, w + if e.4 {
        e.3
    } else {
        0
    })
}

/// The combined effect after appending one more step.
pub proof fn lemma_ops_effect_push(ctx: OpCtx, ops: Seq<CircOp>, op: CircOp)
    ensures
        ops_effect(ctx, ops.push(op)) == ({
            let e = ops_effect(ctx, ops);
            let o = op_effect(ctx, op);
            if op_allocates(op) {
                (e.0 + o.0, e.1 + o.1, e.2 + o.2, if e.4 {
                    max_int(e.3, e.2 + o.3)
                } else {
                    e.2 + o.3
                }, true)
            } else {
                e
            }
        }),
        ops_gates(ctx, ops.push(op)) == ops_gates(ctx, ops) + op_gates(ctx, op),
{
    assert(ops.push(op).drop_last() =~= ops);
}

/// Appends a step to a list under construction.
pub fn push_op(ops: &mut Vec<CircOp>, Ghost(ctx): Ghost<OpCtx>, op: CircOp)
    requires
        ops_ok(ctx, old(ops)@),
        op_ok(ctx, op),
    ensures
        final(ops)@ == old(ops)@.push(op),
        ops_ok(ctx, final(ops)@),
        ops_effect(ctx, final(ops)@) == ({
            let e = ops_effect(ctx, old(ops)@);
            let o = op_effect(ctx, op);
            if op_allocates(op) {
                (e.0 + o.0, e.1 + o.1, e.2 + o.2, if e.4 {
                    max_int(e.3, e.2 + o.3)
                } else {
                    e.2 + o.3
                }, true)
            } else {
                e
            }
        }),
{
    let ghost before = ops@;
    ops.push(op);
    proof {
        lemma_ops_effect_push(ctx, before, op);
        assert forall|i: int| 0 <= i < ops@.len() implies op_ok(ctx, #[trigger] ops@[i]) by {
            if i < before.len() {
                assert(ops@[i] == before[i]);
            }
        }
    }
}

/// Allocates a workspace of `w` qubits, emits the steps, and releases the
/// workspace together with whatever ancillae the steps left allocated: the
/// steps uncompute their intermediates, so all of it is clean again.
pub fn run_in_workspace(ctx: &OpCtx, ops: &Vec<CircOp>, w: usize, counter: &mut ResourceCounter) -> (r: Vec<Gate>)
    requires
        ops_ok(*ctx, ops@),
        gate_room(*old(counter), ops_gates(*ctx, ops@).len() as int),
        old(counter).ancilla_allocated + w + ops_effect(*ctx, ops@).0 <= usize::MAX,
        old(counter).ancilla_freed + w + ops_effect(*ctx, ops@).0 <= usize::MAX,
        old(counter).pre_allocated_depth == 0 ==> old(counter).current_qubits + w + ops_effect(*ctx, ops@).3
            <= usize::MAX,
    ensures
        r@ == ops_gates(*ctx, ops@),
        gates_recorded(*old(counter), *final(counter), ops_gates(*ctx, ops@)),
        workspace_effect(*old(counter), *final(counter), w as int, ops_effect(*ctx, ops@)),
{
    let ghost c0 = *counter;
    let ghost e = ops_effect(*ctx, ops@);
    proof {
        lemma_ops_effect_mono(*ctx, ops@, ops@.len() as int, ops@.len() as int);
        assert(ops@.take(ops@.len() as int) =~= ops@);
        lemma_ops_effect_net(*ctx, ops@);
    }
    let alloc0 = counter.ancilla_allocated;
    let freed0 = counter.ancilla_freed;
    counter.allocate_ancilla(w);
    let ghost c1 = *counter;
    let g = run_ops(ctx, ops, counter);
    let ghost c2 = *counter;
    proof {
        lemma_ops_effect_net(*ctx, ops@);
        if e.4 {
            lemma_effect_then_effect(c0, c1, c2, w as int, 0, w as int, w as int, e.0, e.1, e.2, e.3);
        }
    }
    let live = (counter.ancilla_allocated - alloc0) - (counter.ancilla_freed - freed0);
    counter.free_ancilla(live);
    g
}

/// The layout constants of a context fit in the index range.
pub open spec fn ctx_ok(ctx: OpCtx) -> bool {
    let n = ctx.n as int;
    let ktw = karatsuba_total_ws(n);
    &&& ctx.mw + 4 * n + 1 <= usize::MAX
    &&& ctx.mw + 2 * n + ktw <= usize::MAX
    &&& 4 * n + 1 + fermat_ops(64) * ktw <= usize::MAX
}

/// The counter has room for the steps' gates and for a workspace of `w`
/// qubits around their ancilla effect.
pub open spec fn workspace_room(ctx: OpCtx, ops: Seq<CircOp>, c: ResourceCounter, w: int) -> bool {
    &&& gate_room(c, ops_gates(ctx, ops).len() as int)
    &&& c.ancilla_allocated + w + ops_effect(ctx, ops).0 <= usize::MAX
    &&& c.ancilla_freed + w + ops_effect(ctx, ops).0 <= usize::MAX
    &&& (c.pre_allocated_depth == 0 ==> c.current_qubits + w + ops_effect(ctx, ops).3 <= usize::MAX)
}

} // verus!