//! Reversible affine elliptic-curve point addition.
use crate::reversible::circuit_ops::{
    ops_effect, ops_gates, ops_ok, push_op, run_in_workspace, workspace_effect, CircOp, OpCtx,
};
use crate::reversible::gates::Gate;
use crate::reversible::inverter::fermat_ops;
use crate::reversible::multiplier::karatsuba_total_ws;
use crate::reversible::resource_counter::{gate_room, gates_recorded, ResourceCounter};
use vstd::prelude::*;

verus! {

/// The register layout shared by the steps of the affine addition.
pub open spec fn ec_add_affine_ctx(n: int, ws: int) -> OpCtx {
    OpCtx { n: n as usize, carry: (ws + 9 * n + 1) as usize, mw: (ws + 6 * n) as usize }
}

/// Δ ← x2 − x1 in two's complement: NOT Δ, Δ ^= x1, carry ← 1, Δ += x2,
/// carry ← 0.
pub open spec fn diff_ops(x1: int, x2: int, d: int, carry: int) -> Seq<CircOp> {
    seq![
        CircOp::NotAll { d: d as usize },
        CircOp::Copy { src: x1 as usize, dst: d as usize },
        CircOp::NotOne { t: carry as usize },
        CircOp::Add { a: x2 as usize, b: d as usize },
        CircOp::NotOne { t: carry as usize },
    ]
}

/// The steps of the affine addition P + Q = R: Δx, Δy, Δx⁻¹ (Fermat),
/// λ = Δy·Δx⁻¹, λ², x3 = λ² ⊕ x1 ⊕ x2, y3 = λ·(x1 ⊕ x3) ⊕ y1, then every
/// intermediate undone in reverse order.
pub open spec fn ec_add_affine_ops(n: int, x1: int, y1: int, x2: int, y2: int, x3: int, y3: int, ws: int) -> Seq<
    CircOp,
> {
    let dx = ws;
    let dy = ws + n;
    let dxi = ws + 2 * n;
    let lam = ws + 3 * n;
    let lsq = ws + 4 * n;
    let temp = ws + 5 * n;
    let carry = ws + 9 * n + 1;
    let s1 = diff_ops(x1, x2, dx, carry);
    let s2 = diff_ops(y1, y2, dy, carry);
    let s3 = CircOp::Fermat { input: dx as usize, res: dxi as usize };
    let s4 = CircOp::SMul { a: dy as usize, b: dxi as usize, r: lam as usize };
    let s5 = CircOp::SSq { a: lam as usize, r: lsq as usize };
    let t1 = CircOp::Copy { src: x1 as usize, dst: temp as usize };
    let t2 = CircOp::Copy { src: x3 as usize, dst: temp as usize };
    s1 + s2 + seq![
        s3,
        s4,
        s5,
        CircOp::Copy { src: lsq as usize, dst: x3 as usize },
        CircOp::Copy { src: x1 as usize, dst: x3 as usize },
        CircOp::Copy { src: x2 as usize, dst: x3 as usize },
        t1,
        t2,
        CircOp::SMul { a: lam as usize, b: temp as usize, r: y3 as usize },
        CircOp::Copy { src: y1 as usize, dst: y3 as usize },
        CircOp::Rev { op: Box::new(t2) },
        CircOp::Rev { op: Box::new(t1) },
        CircOp::Rev { op: Box::new(s5) },
        CircOp::Rev { op: Box::new(s4) },
        CircOp::Rev { op: Box::new(s3) },
        CircOp::Rev { op: Box::new(s2[4]) },
        CircOp::Rev { op: Box::new(s2[3]) },
        CircOp::Rev { op: Box::new(s2[2]) },
        CircOp::Rev { op: Box::new(s2[1]) },
        CircOp::Rev { op: Box::new(s2[0]) },
        CircOp::Rev { op: Box::new(s1[4]) },
        CircOp::Rev { op: Box::new(s1[3]) },
        CircOp::Rev { op: Box::new(s1[2]) },
        CircOp::Rev { op: Box::new(s1[1]) },
        CircOp::Rev { op: Box::new(s1[0]) },
    ]
}

/// Reversible elliptic-curve point addition over the Goldilocks field,
/// R = P + Q with λ = (y2 − y1)/(x2 − x1).
pub struct ReversibleEcAdd {
    /// Number of bits per field element.
    pub n: usize,
}

/// Appends the two's-complement difference steps.
fn push_diff(ops: &mut Vec<CircOp>, Ghost(ctx): Ghost<OpCtx>, x1: usize, x2: usize, d: usize, carry: usize)
    requires
        ops_ok(ctx, old(ops)@),
        x1 + ctx.n <= usize::MAX,
        x2 + ctx.n <= usize::MAX,
        d + ctx.n <= usize::MAX,
        ctx.mw + 4 * ctx.n + 1 <= usize::MAX,
        ctx.mw + 2 * ctx.n + karatsuba_total_ws(ctx.n as int) <= usize::MAX,
        4 * ctx.n + 1 + fermat_ops(64) * karatsuba_total_ws(ctx.n as int) <= usize::MAX,
    ensures
        final(ops)@ == old(ops)@ + diff_ops(x1 as int, x2 as int, d as int, carry as int),
        ops_ok(ctx, final(ops)@),
        ops_effect(ctx, final(ops)@) == ops_effect(ctx, old(ops)@),
{
    let ghost o0 = ops@;
    push_op(ops, Ghost(ctx), CircOp::NotAll { d });
    push_op(ops, Ghost(ctx), CircOp::Copy { src: x1, dst: d });
    push_op(ops, Ghost(ctx), CircOp::NotOne { t: carry });
    push_op(ops, Ghost(ctx), CircOp::Add { a: x2, b: d });
    push_op(ops, Ghost(ctx), CircOp::NotOne { t: carry });
    proof {
        assert(ops@ =~= o0 + diff_ops(x1 as int, x2 as int, d as int, carry as int));
    }
}

/// Appends the reversal of the two's-complement difference steps.
fn push_undo_diff(ops: &mut Vec<CircOp>, Ghost(ctx): Ghost<OpCtx>, x1: usize, x2: usize, d: usize, carry: usize)
    requires
        ops_ok(ctx, old(ops)@),
        x1 + ctx.n <= usize::MAX,
        x2 + ctx.n <= usize::MAX,
        d + ctx.n <= usize::MAX,
        ctx.mw + 4 * ctx.n + 1 <= usize::MAX,
        ctx.mw + 2 * ctx.n + karatsuba_total_ws(ctx.n as int) <= usize::MAX,
        4 * ctx.n + 1 + fermat_ops(64) * karatsuba_total_ws(ctx.n as int) <= usize::MAX,
    ensures
        final(ops)@ == old(ops)@ + seq![
            CircOp::Rev { op: Box::new(CircOp::NotOne { t: carry }) },
            CircOp::Rev { op: Box::new(CircOp::Add { a: x2, b: d }) },
            CircOp::Rev { op: Box::new(CircOp::NotOne { t: carry }) },
            CircOp::Rev { op: Box::new(CircOp::Copy { src: x1, dst: d }) },
            CircOp::Rev { op: Box::new(CircOp::NotAll { d }) },
        ],
        ops_ok(ctx, final(ops)@),
        ops_effect(ctx, final(ops)@) == ops_effect(ctx, old(ops)@),
{
    let ghost o0 = ops@;
    proof {
        reveal_with_fuel(crate::reversible::circuit_ops::op_ok, 2);
    }
    push_op(ops, Ghost(ctx), CircOp::Rev { op: Box::new(CircOp::NotOne { t: carry }) });
    push_op(ops, Ghost(ctx), CircOp::Rev { op: Box::new(CircOp::Add { a: x2, b: d }) });
    push_op(ops, Ghost(ctx), CircOp::Rev { op: Box::new(CircOp::NotOne { t: carry }) });
    push_op(ops, Ghost(ctx), CircOp::Rev { op: Box::new(CircOp::Copy { src: x1, dst: d }) });
    push_op(ops, Ghost(ctx), CircOp::Rev { op: Box::new(CircOp::NotAll { d }) });
    proof {
        assert(ops@ =~= o0 + seq![
            CircOp::Rev { op: Box::new(CircOp::NotOne { t: carry }) },
            CircOp::Rev { op: Box::new(CircOp::Add { a: x2, b: d }) },
            CircOp::Rev { op: Box::new(CircOp::NotOne { t: carry }) },
            CircOp::Rev { op: Box::new(CircOp::Copy { src: x1, dst: d }) },
            CircOp::Rev { op: Box::new(CircOp::NotAll { d }) },
        ]);
    }
}

impl ReversibleEcAdd {
    pub fn new(n: usize) -> (r: Self)
        ensures
            r.n == n,
    {
        Self { n }
    }

    /// The addition's gates (the steps of `ec_add_affine_ops`), with a
    /// workspace of 9n+2 qubits allocated around them.
    #[verifier::rlimit(60)]
    pub fn forward_gates(
        &self,
        x1_offset: usize,
        y1_offset: usize,
        x2_offset: usize,
        y2_offset: usize,
        x3_offset: usize,
        y3_offset: usize,
        workspace_offset: usize,
        counter: &mut ResourceCounter,
    ) -> (r: Vec<Gate>)
        requires
            1 <= self.n <= 64,
            x1_offset + self.n <= usize::MAX,
            y1_offset + self.n <= usize::MAX,
            x2_offset + self.n <= usize::MAX,
            y2_offset + self.n <= usize::MAX,
            x3_offset + self.n <= usize::MAX,
            y3_offset + self.n <= usize::MAX,
            workspace_offset + 10 * self.n + 2 <= usize::MAX,
            workspace_offset + 8 * self.n + karatsuba_total_ws(self.n as int) <= usize::MAX,
            4 * self.n + 1 + fermat_ops(64) * karatsuba_total_ws(self.n as int) <= usize::MAX,
            gate_room(
                *old(counter),
                ops_gates(
                    ec_add_affine_ctx(self.n as int, workspace_offset as int),
                    ec_add_affine_ops(
                        self.n as int,
                        x1_offset as int,
                        y1_offset as int,
                        x2_offset as int,
                        y2_offset as int,
                        x3_offset as int,
                        y3_offset as int,
                        workspace_offset as int,
                    ),
                ).len() as int,
            ),
            old(counter).ancilla_allocated + 9 * self.n + 2 + ops_effect(
                ec_add_affine_ctx(self.n as int, workspace_offset as int),
                ec_add_affine_ops(
                    self.n as int,
                    x1_offset as int,
                    y1_offset as int,
                    x2_offset as int,
                    y2_offset as int,
                    x3_offset as int,
                    y3_offset as int,
                    workspace_offset as int,
                ),
            ).0 <= usize::MAX,
            old(counter).ancilla_freed + 9 * self.n + 2 + ops_effect(
                ec_add_affine_ctx(self.n as int, workspace_offset as int),
                ec_add_affine_ops(
                    self.n as int,
                    x1_offset as int,
                    y1_offset as int,
                    x2_offset as int,
                    y2_offset as int,
                    x3_offset as int,
                    y3_offset as int,
                    workspace_offset as int,
                ),
            ).0 <= usize::MAX,
            old(counter).pre_allocated_depth == 0 ==> old(counter).current_qubits + 9 * self.n + 2 + ops_effect(
                ec_add_affine_ctx(self.n as int, workspace_offset as int),
                ec_add_affine_ops(
                    self.n as int,
                    x1_offset as int,
                    y1_offset as int,
                    x2_offset as int,
                    y2_offset as int,
                    x3_offset as int,
                    y3_offset as int,
                    workspace_offset as int,
                ),
            ).3 <= usize::MAX,
        ensures
            r@ == ops_gates(
                ec_add_affine_ctx(self.n as int, workspace_offset as int),
                ec_add_affine_ops(
                    self.n as int,
                    x1_offset as int,
                    y1_offset as int,
                    x2_offset as int,
                    y2_offset as int,
                    x3_offset as int,
                    y3_offset as int,
                    workspace_offset as int,
                ),
            ),
            gates_recorded(
                *old(counter),
                *final(counter),
                ops_gates(
                    ec_add_affine_ctx(self.n as int, workspace_offset as int),
                    ec_add_affine_ops(
                        self.n as int,
                        x1_offset as int,
                        y1_offset as int,
                        x2_offset as int,
                        y2_offset as int,
                        x3_offset as int,
                        y3_offset as int,
                        workspace_offset as int,
                    ),
                ),
            ),
            workspace_effect(
                *old(counter),
                *final(counter),
                9 * self.n + 2,
                ops_effect(
                    ec_add_affine_ctx(self.n as int, workspace_offset as int),
                    ec_add_affine_ops(
                        self.n as int,
                        x1_offset as int,
                        y1_offset as int,
                        x2_offset as int,
                        y2_offset as int,
                        x3_offset as int,
                        y3_offset as int,
                        workspace_offset as int,
                    ),
                ),
            ),
    {
        let n = self.n;
        let ws = workspace_offset;
        let dx = ws;
        let dy = ws + n;
        let dxi = ws + 2 * n;
        let lam = ws + 3 * n;
        let lsq = ws + 4 * n;
        let temp = ws + 5 * n;
        let carry = ws + 9 * n + 1;
        let ctx = OpCtx { n, carry, mw: ws + 6 * n };
        let ghost spec_ops = ec_add_affine_ops(
            n as int,
            x1_offset as int,
            y1_offset as int,
            x2_offset as int,
            y2_offset as int,
            x3_offset as int,
            y3_offset as int,
            ws as int,
        );
        let mut ops: Vec<CircOp> = Vec::new();
        proof {
            assert(ctx == ec_add_affine_ctx(n as int, ws as int));
            reveal_with_fuel(crate::reversible::circuit_ops::op_ok, 2);
        }
        push_diff(&mut ops, Ghost(ctx), x1_offset, x2_offset, dx, carry);
        push_diff(&mut ops, Ghost(ctx), y1_offset, y2_offset, dy, carry);
        push_op(&mut ops, Ghost(ctx), CircOp::Fermat { input: dx, res: dxi });
        push_op(&mut ops, Ghost(ctx), CircOp::SMul { a: dy, b: dxi, r: lam });
        push_op(&mut ops, Ghost(ctx), CircOp::SSq { a: lam, r: lsq });
        push_op(&mut ops, Ghost(ctx), CircOp::Copy { src: lsq, dst: x3_offset });
        push_op(&mut ops, Ghost(ctx), CircOp::Copy { src: x1_offset, dst: x3_offset });
        push_op(&mut ops, Ghost(ctx), CircOp::Copy { src: x2_offset, dst: x3_offset });
        push_op(&mut ops, Ghost(ctx), CircOp::Copy { src: x1_offset, dst: temp });
        push_op(&mut ops, Ghost(ctx), CircOp::Copy { src: x3_offset, dst: temp });
        push_op(&mut ops, Ghost(ctx), CircOp::SMul { a: lam, b: temp, r: y3_offset });
        push_op(&mut ops, Ghost(ctx), CircOp::Copy { src: y1_offset, dst: y3_offset });
        push_op(&mut ops, Ghost(ctx), CircOp::Rev { op: Box::new(CircOp::Copy { src: x3_offset, dst: temp }) });
        push_op(&mut ops, Ghost(ctx), CircOp::Rev { op: Box::new(CircOp::Copy { src: x1_offset, dst: temp }) });
        push_op(&mut ops, Ghost(ctx), CircOp::Rev { op: Box::new(CircOp::SSq { a: lam, r: lsq }) });
        push_op(&mut ops, Ghost(ctx), CircOp::Rev { op: Box::new(CircOp::SMul { a: dy, b: dxi, r: lam }) });
        push_op(&mut ops, Ghost(ctx), CircOp::Rev { op: Box::new(CircOp::Fermat { input: dx, res: dxi }) });
        push_undo_diff(&mut ops, Ghost(ctx), y1_offset, y2_offset, dy, carry);
        push_undo_diff(&mut ops, Ghost(ctx), x1_offset, x2_offset, dx, carry);
        proof {
            assert(ops@ =~= spec_ops);
        }
        run_in_workspace(&ctx, &ops, 9 * n + 2, counter)
    }

    /// Rough resource estimate for one point addition: (qubits, Toffoli
    /// gates) = (12n, 2·67·n²).
    pub fn estimated_resources(&self) -> (r: (usize, usize))
        requires
            2 * (64 + 3) * self.n * self.n <= usize::MAX,
        ensures
            r.0 == 12 * self.n,
            r.1 == 2 * (64 + 3) * self.n * self.n,
    {
        proof {
            assert(12 * self.n <= 2 * (64 + 3) * self.n * self.n || self.n == 0) by (nonlinear_arith);
            assert(2 * (64 + 3) * self.n <= 2 * (64 + 3) * self.n * self.n || self.n == 0) by (nonlinear_arith);
        }
        let qubits = 12 * self.n;
        let toffoli = 2 * (64 + 3) * self.n * self.n;
        (qubits, toffoli)
    }
}

} // verus!
