//! Reversible affine elliptic-curve point doubling.
use crate::reversible::circuit_ops::{
    ctx_ok, ops_effect, ops_gates, ops_ok, push_op, run_in_workspace, workspace_effect, workspace_room,
    CircOp, OpCtx,
};
use crate::reversible::gates::Gate;
use crate::reversible::inverter::fermat_ops;
use crate::reversible::multiplier::karatsuba_total_ws;
use crate::reversible::resource_counter::{gates_recorded, ResourceCounter};
use vstd::prelude::*;

verus! {

/// The layout shared by the steps: field width, adder carry and multiplier
/// workspace.
pub open spec fn ec_double_affine_ctx(n: int, ws: int) -> OpCtx {
    OpCtx { n: n as usize, carry: (ws + 10 * n + 2) as usize, mw: (ws + 7 * n) as usize }
}

/// The steps of the affine doubling: x1², 3x1² (copy and two additions), 2y1, (2y1)⁻¹ (Fermat), λ, λ², x3 = λ² ⊕ x1 ⊕ x1, y3 = λ·(x1 ⊕ x3) ⊕ y1, then every intermediate undone in reverse order.
pub open spec fn ec_double_affine_ops(n: int, x1: int, y1: int, x3: int, y3: int, ws: int) -> Seq<CircOp> {
    let x1sq = ws;
    let numer = ws + n;
    let two_y1 = ws + 2 * n;
    let two_y1_inv = ws + 3 * n;
    let lam = ws + 4 * n;
    let lsq = ws + 5 * n;
    let temp = ws + 6 * n;
    seq![
        CircOp::SSq { a: (x1) as usize, r: (x1sq) as usize },
        CircOp::Copy { src: (x1sq) as usize, dst: (numer) as usize },
        CircOp::Add { a: (x1sq) as usize, b: (numer) as usize },
        CircOp::Add { a: (x1sq) as usize, b: (numer) as usize },
        CircOp::Copy { src: (y1) as usize, dst: (two_y1) as usize },
        CircOp::Add { a: (y1) as usize, b: (two_y1) as usize },
        CircOp::Fermat { input: (two_y1) as usize, res: (two_y1_inv) as usize },
        CircOp::SMul { a: (numer) as usize, b: (two_y1_inv) as usize, r: (lam) as usize },
        CircOp::SSq { a: (lam) as usize, r: (lsq) as usize },
        CircOp::Copy { src: (lsq) as usize, dst: (x3) as usize },
        CircOp::Copy { src: (x1) as usize, dst: (x3) as usize },
        CircOp::Copy { src: (x1) as usize, dst: (x3) as usize },
        CircOp::Copy { src: (x1) as usize, dst: (temp) as usize },
        CircOp::Copy { src: (x3) as usize, dst: (temp) as usize },
        CircOp::SMul { a: (lam) as usize, b: (temp) as usize, r: (y3) as usize },
        CircOp::Copy { src: (y1) as usize, dst: (y3) as usize },
        CircOp::Rev { op: Box::new(CircOp::Copy { src: (x3) as usize, dst: (temp) as usize }) },
        CircOp::Rev { op: Box::new(CircOp::Copy { src: (x1) as usize, dst: (temp) as usize }) },
        CircOp::Rev { op: Box::new(CircOp::SSq { a: (lam) as usize, r: (lsq) as usize }) },
        CircOp::Rev { op: Box::new(CircOp::SMul { a: (numer) as usize, b: (two_y1_inv) as usize, r: (lam) as usize }) },
        CircOp::Rev { op: Box::new(CircOp::Fermat { input: (two_y1) as usize, res: (two_y1_inv) as usize }) },
        CircOp::Rev { op: Box::new(CircOp::Add { a: (y1) as usize, b: (two_y1) as usize }) },
        CircOp::Rev { op: Box::new(CircOp::Copy { src: (y1) as usize, dst: (two_y1) as usize }) },
        CircOp::Rev { op: Box::new(CircOp::Add { a: (x1sq) as usize, b: (numer) as usize }) },
        CircOp::Rev { op: Box::new(CircOp::Add { a: (x1sq) as usize, b: (numer) as usize }) },
        CircOp::Rev { op: Box::new(CircOp::Copy { src: (x1sq) as usize, dst: (numer) as usize }) },
        CircOp::Rev { op: Box::new(CircOp::SSq { a: (x1) as usize, r: (x1sq) as usize }) },
    ]
}

/// Reversible elliptic-curve point doubling over the Goldilocks field,
/// R = 2P with λ = 3x1²/(2y1).
pub struct ReversibleEcDouble {
    /// Number of bits per field element.
    pub n: usize,
}

/// Appends steps 0..8.
#[verifier::rlimit(40)]
fn push_part_0(ops: &mut Vec<CircOp>, Ghost(ctx): Ghost<OpCtx>, n: usize, x1: usize, y1: usize, x3: usize, y3: usize, ws: usize)
    requires
        ops_ok(ctx, old(ops)@),
        ctx_ok(ctx),
        ctx.n == n,
        1 <= n <= 64,
        x1 + n <= usize::MAX,
        y1 + n <= usize::MAX,
        x3 + n <= usize::MAX,
        y3 + n <= usize::MAX,
        ws + 10 * n + 3 <= usize::MAX,
    ensures
        final(ops)@ == old(ops)@ + {
            let x1sq = ws;
            let numer = ws + n;
            let two_y1 = ws + 2 * n;
            let two_y1_inv = ws + 3 * n;
            let lam = ws + 4 * n;
            let lsq = ws + 5 * n;
            let temp = ws + 6 * n;
        seq![
            CircOp::SSq { a: (x1) as usize, r: (x1sq) as usize },
            CircOp::Copy { src: (x1sq) as usize, dst: (numer) as usize },
            CircOp::Add { a: (x1sq) as usize, b: (numer) as usize },
            CircOp::Add { a: (x1sq) as usize, b: (numer) as usize },
            CircOp::Copy { src: (y1) as usize, dst: (two_y1) as usize },
            CircOp::Add { a: (y1) as usize, b: (two_y1) as usize },
            CircOp::Fermat { input: (two_y1) as usize, res: (two_y1_inv) as usize },
            CircOp::SMul { a: (numer) as usize, b: (two_y1_inv) as usize, r: (lam) as usize },
        ]
        },
        ops_ok(ctx, final(ops)@),
{
    let x1sq: usize = ws;
    let numer: usize = ws + n;
    let two_y1: usize = ws + 2 * n;
    let two_y1_inv: usize = ws + 3 * n;
    let lam: usize = ws + 4 * n;
    let lsq: usize = ws + 5 * n;
    let temp: usize = ws + 6 * n;
    let ghost o0 = ops@;
    proof {
        reveal_with_fuel(crate::reversible::circuit_ops::op_ok, 2);
    }
    push_op(ops, Ghost(ctx), CircOp::SSq { a: x1, r: x1sq });
    push_op(ops, Ghost(ctx), CircOp::Copy { src: x1sq, dst: numer });
    push_op(ops, Ghost(ctx), CircOp::Add { a: x1sq, b: numer });
    push_op(ops, Ghost(ctx), CircOp::Add { a: x1sq, b: numer });
    push_op(ops, Ghost(ctx), CircOp::Copy { src: y1, dst: two_y1 });
    push_op(ops, Ghost(ctx), CircOp::Add { a: y1, b: two_y1 });
    push_op(ops, Ghost(ctx), CircOp::Fermat { input: two_y1, res: two_y1_inv });
    push_op(ops, Ghost(ctx), CircOp::SMul { a: numer, b: two_y1_inv, r: lam });
    proof {
        assert(ops@ =~= o0 + {
            let x1sq = ws;
            let numer = ws + n;
            let two_y1 = ws + 2 * n;
            let two_y1_inv = ws + 3 * n;
            let lam = ws + 4 * n;
            let lsq = ws + 5 * n;
            let temp = ws + 6 * n;
        seq![
            CircOp::SSq { a: (x1) as usize, r: (x1sq) as usize },
            CircOp::Copy { src: (x1sq) as usize, dst: (numer) as usize },
            CircOp::Add { a: (x1sq) as usize, b: (numer) as usize },
            CircOp::Add { a: (x1sq) as usize, b: (numer) as usize },
            CircOp::Copy { src: (y1) as usize, dst: (two_y1) as usize },
            CircOp::Add { a: (y1) as usize, b: (two_y1) as usize },
            CircOp::Fermat { input: (two_y1) as usize, res: (two_y1_inv) as usize },
            CircOp::SMul { a: (numer) as usize, b: (two_y1_inv) as usize, r: (lam) as usize },
        ]
        });
    }
}

/// Appends steps 8..16.
#[verifier::rlimit(40)]
fn push_part_1(ops: &mut Vec<CircOp>, Ghost(ctx): Ghost<OpCtx>, n: usize, x1: usize, y1: usize, x3: usize, y3: usize, ws: usize)
    requires
        ops_ok(ctx, old(ops)@),
        ctx_ok(ctx),
        ctx.n == n,
        1 <= n <= 64,
        x1 + n <= usize::MAX,
        y1 + n <= usize::MAX,
        x3 + n <= usize::MAX,
        y3 + n <= usize::MAX,
        ws + 10 * n + 3 <= usize::MAX,
    ensures
        final(ops)@ == old(ops)@ + {
            let x1sq = ws;
            let numer = ws + n;
            let two_y1 = ws + 2 * n;
            let two_y1_inv = ws + 3 * n;
            let lam = ws + 4 * n;
            let lsq = ws + 5 * n;
            let temp = ws + 6 * n;
        seq![
            CircOp::SSq { a: (lam) as usize, r: (lsq) as usize },
            CircOp::Copy { src: (lsq) as usize, dst: (x3) as usize },
            CircOp::Copy { src: (x1) as usize, dst: (x3) as usize },
            CircOp::Copy { src: (x1) as usize, dst: (x3) as usize },
            CircOp::Copy { src: (x1) as usize, dst: (temp) as usize },
            CircOp::Copy { src: (x3) as usize, dst: (temp) as usize },
            CircOp::SMul { a: (lam) as usize, b: (temp) as usize, r: (y3) as usize },
            CircOp::Copy { src: (y1) as usize, dst: (y3) as usize },
        ]
        },
        ops_ok(ctx, final(ops)@),
{
    let x1sq: usize = ws;
    let numer: usize = ws + n;
    let two_y1: usize = ws + 2 * n;
    let two_y1_inv: usize = ws + 3 * n;
    let lam: usize = ws + 4 * n;
    let lsq: usize = ws + 5 * n;
    let temp: usize = ws + 6 * n;
    let ghost o0 = ops@;
    proof {
        reveal_with_fuel(crate::reversible::circuit_ops::op_ok, 2);
    }
    push_op(ops, Ghost(ctx), CircOp::SSq { a: lam, r: lsq });
    push_op(ops, Ghost(ctx), CircOp::Copy { src: lsq, dst: x3 });
    push_op(ops, Ghost(ctx), CircOp::Copy { src: x1, dst: x3 });
    push_op(ops, Ghost(ctx), CircOp::Copy { src: x1, dst: x3 });
    push_op(ops, Ghost(ctx), CircOp::Copy { src: x1, dst: temp });
    push_op(ops, Ghost(ctx), CircOp::Copy { src: x3, dst: temp });
    push_op(ops, Ghost(ctx), CircOp::SMul { a: lam, b: temp, r: y3 });
    push_op(ops, Ghost(ctx), CircOp::Copy { src: y1, dst: y3 });
    proof {
        assert(ops@ =~= o0 + {
            let x1sq = ws;
            let numer = ws + n;
            let two_y1 = ws + 2 * n;
            let two_y1_inv = ws + 3 * n;
            let lam = ws + 4 * n;
            let lsq = ws + 5 * n;
            let temp = ws + 6 * n;
        seq![
            CircOp::SSq { a: (lam) as usize, r: (lsq) as usize },
            CircOp::Copy { src: (lsq) as usize, dst: (x3) as usize },
            CircOp::Copy { src: (x1) as usize, dst: (x3) as usize },
            CircOp::Copy { src: (x1) as usize, dst: (x3) as usize },
            CircOp::Copy { src: (x1) as usize, dst: (temp) as usize },
            CircOp::Copy { src: (x3) as usize, dst: (temp) as usize },
            CircOp::SMul { a: (lam) as usize, b: (temp) as usize, r: (y3) as usize },
            CircOp::Copy { src: (y1) as usize, dst: (y3) as usize },
        ]
        });
    }
}

/// Appends steps 16..24.
#[verifier::rlimit(40)]
fn push_part_2(ops: &mut Vec<CircOp>, Ghost(ctx): Ghost<OpCtx>, n: usize, x1: usize, y1: usize, x3: usize, y3: usize, ws: usize)
    requires
        ops_ok(ctx, old(ops)@),
        ctx_ok(ctx),
        ctx.n == n,
        1 <= n <= 64,
        x1 + n <= usize::MAX,
        y1 + n <= usize::MAX,
        x3 + n <= usize::MAX,
        y3 + n <= usize::MAX,
        ws + 10 * n + 3 <= usize::MAX,
    ensures
        final(ops)@ == old(ops)@ + {
            let x1sq = ws;
            let numer = ws + n;
            let two_y1 = ws + 2 * n;
            let two_y1_inv = ws + 3 * n;
            let lam = ws + 4 * n;
            let lsq = ws + 5 * n;
            let temp = ws + 6 * n;
        seq![
            CircOp::Rev { op: Box::new(CircOp::Copy { src: (x3) as usize, dst: (temp) as usize }) },
            CircOp::Rev { op: Box::new(CircOp::Copy { src: (x1) as usize, dst: (temp) as usize }) },
            CircOp::Rev { op: Box::new(CircOp::SSq { a: (lam) as usize, r: (lsq) as usize }) },
            CircOp::Rev { op: Box::new(CircOp::SMul { a: (numer) as usize, b: (two_y1_inv) as usize, r: (lam) as usize }) },
            CircOp::Rev { op: Box::new(CircOp::Fermat { input: (two_y1) as usize, res: (two_y1_inv) as usize }) },
            CircOp::Rev { op: Box::new(CircOp::Add { a: (y1) as usize, b: (two_y1) as usize }) },
            CircOp::Rev { op: Box::new(CircOp::Copy { src: (y1) as usize, dst: (two_y1) as usize }) },
            CircOp::Rev { op: Box::new(CircOp::Add { a: (x1sq) as usize, b: (numer) as usize }) },
        ]
        },
        ops_ok(ctx, final(ops)@),
{
    let x1sq: usize = ws;
    let numer: usize = ws + n;
    let two_y1: usize = ws + 2 * n;
    let two_y1_inv: usize = ws + 3 * n;
    let lam: usize = ws + 4 * n;
    let lsq: usize = ws + 5 * n;
    let temp: usize = ws + 6 * n;
    let ghost o0 = ops@;
    proof {
        reveal_with_fuel(crate::reversible::circuit_ops::op_ok, 2);
    }
    push_op(ops, Ghost(ctx), CircOp::Rev { op: Box::new(CircOp::Copy { src: x3, dst: temp }) });
    push_op(ops, Ghost(ctx), CircOp::Rev { op: Box::new(CircOp::Copy { src: x1, dst: temp }) });
    push_op(ops, Ghost(ctx), CircOp::Rev { op: Box::new(CircOp::SSq { a: lam, r: lsq }) });
    push_op(ops, Ghost(ctx), CircOp::Rev { op: Box::new(CircOp::SMul { a: numer, b: two_y1_inv, r: lam }) });
    push_op(ops, Ghost(ctx), CircOp::Rev { op: Box::new(CircOp::Fermat { input: two_y1, res: two_y1_inv }) });
    push_op(ops, Ghost(ctx), CircOp::Rev { op: Box::new(CircOp::Add { a: y1, b: two_y1 }) });
    push_op(ops, Ghost(ctx), CircOp::Rev { op: Box::new(CircOp::Copy { src: y1, dst: two_y1 }) });
    push_op(ops, Ghost(ctx), CircOp::Rev { op: Box::new(CircOp::Add { a: x1sq, b: numer }) });
    proof {
        assert(ops@ =~= o0 + {
            let x1sq = ws;
            let numer = ws + n;
            let two_y1 = ws + 2 * n;
            let two_y1_inv = ws + 3 * n;
            let lam = ws + 4 * n;
            let lsq = ws + 5 * n;
            let temp = ws + 6 * n;
        seq![
            CircOp::Rev { op: Box::new(CircOp::Copy { src: (x3) as usize, dst: (temp) as usize }) },
            CircOp::Rev { op: Box::new(CircOp::Copy { src: (x1) as usize, dst: (temp) as usize }) },
            CircOp::Rev { op: Box::new(CircOp::SSq { a: (lam) as usize, r: (lsq) as usize }) },
            CircOp::Rev { op: Box::new(CircOp::SMul { a: (numer) as usize, b: (two_y1_inv) as usize, r: (lam) as usize }) },
            CircOp::Rev { op: Box::new(CircOp::Fermat { input: (two_y1) as usize, res: (two_y1_inv) as usize }) },
            CircOp::Rev { op: Box::new(CircOp::Add { a: (y1) as usize, b: (two_y1) as usize }) },
            CircOp::Rev { op: Box::new(CircOp::Copy { src: (y1) as usize, dst: (two_y1) as usize }) },
            CircOp::Rev { op: Box::new(CircOp::Add { a: (x1sq) as usize, b: (numer) as usize }) },
        ]
        });
    }
}

/// Appends steps 24..27.
#[verifier::rlimit(40)]
fn push_part_3(ops: &mut Vec<CircOp>, Ghost(ctx): Ghost<OpCtx>, n: usize, x1: usize, y1: usize, x3: usize, y3: usize, ws: usize)
    requires
        ops_ok(ctx, old(ops)@),
        ctx_ok(ctx),
        ctx.n == n,
        1 <= n <= 64,
        x1 + n <= usize::MAX,
        y1 + n <= usize::MAX,
        x3 + n <= usize::MAX,
        y3 + n <= usize::MAX,
        ws + 10 * n + 3 <= usize::MAX,
    ensures
        final(ops)@ == old(ops)@ + {
            let x1sq = ws;
            let numer = ws + n;
            let two_y1 = ws + 2 * n;
            let two_y1_inv = ws + 3 * n;
            let lam = ws + 4 * n;
            let lsq = ws + 5 * n;
            let temp = ws + 6 * n;
        seq![
            CircOp::Rev { op: Box::new(CircOp::Add { a: (x1sq) as usize, b: (numer) as usize }) },
            CircOp::Rev { op: Box::new(CircOp::Copy { src: (x1sq) as usize, dst: (numer) as usize }) },
            CircOp::Rev { op: Box::new(CircOp::SSq { a: (x1) as usize, r: (x1sq) as usize }) },
        ]
        },
        ops_ok(ctx, final(ops)@),
{
    let x1sq: usize = ws;
    let numer: usize = ws + n;
    let two_y1: usize = ws + 2 * n;
    let two_y1_inv: usize = ws + 3 * n;
    let lam: usize = ws + 4 * n;
    let lsq: usize = ws + 5 * n;
    let temp: usize = ws + 6 * n;
    let ghost o0 = ops@;
    proof {
        reveal_with_fuel(crate::reversible::circuit_ops::op_ok, 2);
    }
    push_op(ops, Ghost(ctx), CircOp::Rev { op: Box::new(CircOp::Add { a: x1sq, b: numer }) });
    push_op(ops, Ghost(ctx), CircOp::Rev { op: Box::new(CircOp::Copy { src: x1sq, dst: numer }) });
    push_op(ops, Ghost(ctx), CircOp::Rev { op: Box::new(CircOp::SSq { a: x1, r: x1sq }) });
    proof {
        assert(ops@ =~= o0 + {
            let x1sq = ws;
            let numer = ws + n;
            let two_y1 = ws + 2 * n;
            let two_y1_inv = ws + 3 * n;
            let lam = ws + 4 * n;
            let lsq = ws + 5 * n;
            let temp = ws + 6 * n;
        seq![
            CircOp::Rev { op: Box::new(CircOp::Add { a: (x1sq) as usize, b: (numer) as usize }) },
            CircOp::Rev { op: Box::new(CircOp::Copy { src: (x1sq) as usize, dst: (numer) as usize }) },
            CircOp::Rev { op: Box::new(CircOp::SSq { a: (x1) as usize, r: (x1sq) as usize }) },
        ]
        });
    }
}

impl ReversibleEcDouble {
    pub fn new(n: usize) -> (r: Self)
        ensures
            r.n == n,
    {
        Self { n }
    }

    /// The circuit's gates (the steps listed above), with a workspace of
    /// 10 * n + 3 qubits allocated around them.
    pub fn forward_gates(
        &self,
        x1: usize,
        y1: usize,
        x3: usize,
        y3: usize,
        workspace_offset: usize,
        counter: &mut ResourceCounter,
    ) -> (r: Vec<Gate>)
        requires
            1 <= self.n <= 64,
            ctx_ok(ec_double_affine_ctx(self.n as int, workspace_offset as int)),
            x1 + self.n <= usize::MAX,
            y1 + self.n <= usize::MAX,
            x3 + self.n <= usize::MAX,
            y3 + self.n <= usize::MAX,
            workspace_offset + 10 * self.n + 3 <= usize::MAX,
            workspace_room(ec_double_affine_ctx(self.n as int, workspace_offset as int), ec_double_affine_ops(self.n as int, x1 as int, y1 as int, x3 as int, y3 as int, workspace_offset as int), *old(counter), 10 * self.n + 3),
        ensures
            r@ == ops_gates(ec_double_affine_ctx(self.n as int, workspace_offset as int), ec_double_affine_ops(self.n as int, x1 as int, y1 as int, x3 as int, y3 as int, workspace_offset as int)),
            gates_recorded(*old(counter), *final(counter), ops_gates(ec_double_affine_ctx(self.n as int, workspace_offset as int), ec_double_affine_ops(self.n as int, x1 as int, y1 as int, x3 as int, y3 as int, workspace_offset as int))),
            workspace_effect(*old(counter), *final(counter), 10 * self.n + 3, ops_effect(ec_double_affine_ctx(self.n as int, workspace_offset as int), ec_double_affine_ops(self.n as int, x1 as int, y1 as int, x3 as int, y3 as int, workspace_offset as int))),
    {
        let n = self.n;
        let ws = workspace_offset;
        let ctx = OpCtx { n, carry: ws + 10 * n + 2, mw: ws + 7 * n };
        proof {
            assert(ctx == ec_double_affine_ctx(n as int, ws as int));
        }
        let mut ops: Vec<CircOp> = Vec::new();
        push_part_0(&mut ops, Ghost(ctx), n, x1, y1, x3, y3, ws);
        push_part_1(&mut ops, Ghost(ctx), n, x1, y1, x3, y3, ws);
        push_part_2(&mut ops, Ghost(ctx), n, x1, y1, x3, y3, ws);
        push_part_3(&mut ops, Ghost(ctx), n, x1, y1, x3, y3, ws);
        proof {
            assert(ops@ =~= ec_double_affine_ops(n as int, x1 as int, y1 as int, x3 as int, y3 as int, ws as int));
        }
        run_in_workspace(&ctx, &ops, 10 * n + 3, counter)
    }

}



} // verus!
