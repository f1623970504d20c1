//! Reversible mixed Jacobian–affine elliptic-curve point addition.
use crate::reversible::circuit_ops::{
    ctx_ok, ops_effect, ops_gates, ops_ok, push_op, run_in_workspace, workspace_effect, workspace_room,
    CircOp, OpCtx,
};
use crate::reversible::gates::{apply_gates, lemma_apply_gates_concat, Gate};
use crate::reversible::circuit_ops::lemma_ops_gates_concat;
use crate::reversible::adder::cuccaro_gates;
use crate::reversible::adder_laws::{adder_layout, lemma_cuccaro_subtracts};
use crate::reversible::blocks::copy_gates;
use crate::reversible::modmul_laws::lemma_copy_effect;
use crate::reversible::modular_adder_laws::reg;
use crate::reversible::multiplier_laws::ranges_apart;
use vstd::arithmetic::power2::pow2;
use crate::reversible::inverter::fermat_ops;
use crate::reversible::multiplier::karatsuba_total_ws;
use crate::reversible::resource_counter::{gates_recorded, ResourceCounter};
use vstd::prelude::*;

verus! {

/// The layout shared by the steps: field width, adder carry and multiplier
/// workspace.
pub open spec fn ec_add_jacobian_ctx(n: int, ws: int) -> OpCtx {
    OpCtx { n: n as usize, carry: (ws + 10 * n) as usize, mw: (ws + 10 * n + 1) as usize }
}

/// The steps of the mixed addition: Z1², Z1³, U2 = x2·Z1², S2 = y2·Z1³, H = U2 − X1, R = S2 − Y1, H², H³, X1·H², R², X3 = R² − H³ − 2·X1·H², Y3 = R·(X1·H² − X3) − Y1·H³, Z3 = Z1·H, then the temporaries undone.
pub open spec fn ec_add_jacobian_ops(n: int, acc_x: int, acc_y: int, acc_z: int, q_x: int, q_y: int, out_x: int, out_y: int, out_z: int, ws: int) -> Seq<CircOp> {
    let z1_sq = ws;
    let z1_cu = ws + n;
    let u2 = ws + 2 * n;
    let s2 = ws + 3 * n;
    let h = ws + 4 * n;
    let r = ws + 5 * n;
    let h_sq = ws + 6 * n;
    let h_cu = ws + 7 * n;
    let x1h2 = ws + 8 * n;
    let r_sq = ws + 9 * n;
    seq![
        CircOp::KSq { a: (acc_z) as usize, r: (z1_sq) as usize },
        CircOp::KMul { a: (z1_sq) as usize, b: (acc_z) as usize, r: (z1_cu) as usize },
        CircOp::KMul { a: (q_x) as usize, b: (z1_sq) as usize, r: (u2) as usize },
        CircOp::KMul { a: (q_y) as usize, b: (z1_cu) as usize, r: (s2) as usize },
        CircOp::Copy { src: (u2) as usize, dst: (h) as usize },
        CircOp::Sub { a: (acc_x) as usize, b: (h) as usize },
        CircOp::Copy { src: (s2) as usize, dst: (r) as usize },
        CircOp::Sub { a: (acc_y) as usize, b: (r) as usize },
        CircOp::KSq { a: (h) as usize, r: (h_sq) as usize },
        CircOp::KMul { a: (h_sq) as usize, b: (h) as usize, r: (h_cu) as usize },
        CircOp::KMul { a: (acc_x) as usize, b: (h_sq) as usize, r: (x1h2) as usize },
        CircOp::KSq { a: (r) as usize, r: (r_sq) as usize },
        CircOp::Copy { src: (r_sq) as usize, dst: (out_x) as usize },
        CircOp::Sub { a: (h_cu) as usize, b: (out_x) as usize },
        CircOp::Sub { a: (x1h2) as usize, b: (out_x) as usize },
        CircOp::Sub { a: (x1h2) as usize, b: (out_x) as usize },
        CircOp::CopyDesc { src: (r) as usize, dst: (r_sq) as usize },
        CircOp::Copy { src: (x1h2) as usize, dst: (r_sq) as usize },
        CircOp::Sub { a: (out_x) as usize, b: (r_sq) as usize },
        CircOp::KMul { a: (r) as usize, b: (r_sq) as usize, r: (out_y) as usize },
        CircOp::KMul { a: (acc_y) as usize, b: (h_cu) as usize, r: (z1_cu) as usize },
        CircOp::Sub { a: (z1_cu) as usize, b: (out_y) as usize },
        CircOp::KMul { a: (acc_z) as usize, b: (h) as usize, r: (out_z) as usize },
        CircOp::UnKMul { a: (acc_y) as usize, b: (h_cu) as usize, r: (z1_cu) as usize },
        CircOp::UnSub { a: (out_x) as usize, b: (r_sq) as usize },
        CircOp::CopyDesc { src: (x1h2) as usize, dst: (r_sq) as usize },
        CircOp::UnSub { a: (acc_y) as usize, b: (r) as usize },
        CircOp::CopyDesc { src: (s2) as usize, dst: (r) as usize },
        CircOp::UnSub { a: (acc_x) as usize, b: (h) as usize },
        CircOp::CopyDesc { src: (u2) as usize, dst: (h) as usize },
    ]
}

/// Reversible mixed Jacobian–affine point addition: accumulator (X1, Y1, Z1)
/// plus affine Q = (x2, y2), with no inversion.
pub struct ReversibleJacobianMixedAdd {
    pub n: usize,
}

/// Appends steps 0..8.
#[verifier::rlimit(40)]
fn push_part_0(ops: &mut Vec<CircOp>, Ghost(ctx): Ghost<OpCtx>, n: usize, acc_x: usize, acc_y: usize, acc_z: usize, q_x: usize, q_y: usize, out_x: usize, out_y: usize, out_z: usize, ws: usize)
    requires
        ops_ok(ctx, old(ops)@),
        ctx_ok(ctx),
        ctx.n == n,
        acc_x + n <= usize::MAX,
        acc_y + n <= usize::MAX,
        acc_z + n <= usize::MAX,
        q_x + n <= usize::MAX,
        q_y + n <= usize::MAX,
        out_x + n <= usize::MAX,
        out_y + n <= usize::MAX,
        out_z + n <= usize::MAX,
        ws + 13 * n + 2 <= usize::MAX,
    ensures
        final(ops)@ == old(ops)@ + {
            let z1_sq = ws;
            let z1_cu = ws + n;
            let u2 = ws + 2 * n;
            let s2 = ws + 3 * n;
            let h = ws + 4 * n;
            let r = ws + 5 * n;
            let h_sq = ws + 6 * n;
            let h_cu = ws + 7 * n;
            let x1h2 = ws + 8 * n;
            let r_sq = ws + 9 * n;
        seq![
            CircOp::KSq { a: (acc_z) as usize, r: (z1_sq) as usize },
            CircOp::KMul { a: (z1_sq) as usize, b: (acc_z) as usize, r: (z1_cu) as usize },
            CircOp::KMul { a: (q_x) as usize, b: (z1_sq) as usize, r: (u2) as usize },
            CircOp::KMul { a: (q_y) as usize, b: (z1_cu) as usize, r: (s2) as usize },
            CircOp::Copy { src: (u2) as usize, dst: (h) as usize },
            CircOp::Sub { a: (acc_x) as usize, b: (h) as usize },
            CircOp::Copy { src: (s2) as usize, dst: (r) as usize },
            CircOp::Sub { a: (acc_y) as usize, b: (r) as usize },
        ]
        },
        ops_ok(ctx, final(ops)@),
{
    let z1_sq: usize = ws;
    let z1_cu: usize = ws + n;
    let u2: usize = ws + 2 * n;
    let s2: usize = ws + 3 * n;
    let h: usize = ws + 4 * n;
    let r: usize = ws + 5 * n;
    let h_sq: usize = ws + 6 * n;
    let h_cu: usize = ws + 7 * n;
    let x1h2: usize = ws + 8 * n;
    let r_sq: usize = ws + 9 * n;
    let ghost o0 = ops@;
    proof {
        reveal_with_fuel(crate::reversible::circuit_ops::op_ok, 2);
    }
    push_op(ops, Ghost(ctx), CircOp::KSq { a: acc_z, r: z1_sq });
    push_op(ops, Ghost(ctx), CircOp::KMul { a: z1_sq, b: acc_z, r: z1_cu });
    push_op(ops, Ghost(ctx), CircOp::KMul { a: q_x, b: z1_sq, r: u2 });
    push_op(ops, Ghost(ctx), CircOp::KMul { a: q_y, b: z1_cu, r: s2 });
    push_op(ops, Ghost(ctx), CircOp::Copy { src: u2, dst: h });
    push_op(ops, Ghost(ctx), CircOp::Sub { a: acc_x, b: h });
    push_op(ops, Ghost(ctx), CircOp::Copy { src: s2, dst: r });
    push_op(ops, Ghost(ctx), CircOp::Sub { a: acc_y, b: r });
    proof {
        assert(ops@ =~= o0 + {
            let z1_sq = ws;
            let z1_cu = ws + n;
            let u2 = ws + 2 * n;
            let s2 = ws + 3 * n;
            let h = ws + 4 * n;
            let r = ws + 5 * n;
            let h_sq = ws + 6 * n;
            let h_cu = ws + 7 * n;
            let x1h2 = ws + 8 * n;
            let r_sq = ws + 9 * n;
        seq![
            CircOp::KSq { a: (acc_z) as usize, r: (z1_sq) as usize },
            CircOp::KMul { a: (z1_sq) as usize, b: (acc_z) as usize, r: (z1_cu) as usize },
            CircOp::KMul { a: (q_x) as usize, b: (z1_sq) as usize, r: (u2) as usize },
            CircOp::KMul { a: (q_y) as usize, b: (z1_cu) as usize, r: (s2) as usize },
            CircOp::Copy { src: (u2) as usize, dst: (h) as usize },
            CircOp::Sub { a: (acc_x) as usize, b: (h) as usize },
            CircOp::Copy { src: (s2) as usize, dst: (r) as usize },
            CircOp::Sub { a: (acc_y) as usize, b: (r) as usize },
        ]
        });
    }
}

/// Appends steps 8..16.
#[verifier::rlimit(40)]
fn push_part_1(ops: &mut Vec<CircOp>, Ghost(ctx): Ghost<OpCtx>, n: usize, acc_x: usize, acc_y: usize, acc_z: usize, q_x: usize, q_y: usize, out_x: usize, out_y: usize, out_z: usize, ws: usize)
    requires
        ops_ok(ctx, old(ops)@),
        ctx_ok(ctx),
        ctx.n == n,
        acc_x + n <= usize::MAX,
        acc_y + n <= usize::MAX,
        acc_z + n <= usize::MAX,
        q_x + n <= usize::MAX,
        q_y + n <= usize::MAX,
        out_x + n <= usize::MAX,
        out_y + n <= usize::MAX,
        out_z + n <= usize::MAX,
        ws + 13 * n + 2 <= usize::MAX,
    ensures
        final(ops)@ == old(ops)@ + {
            let z1_sq = ws;
            let z1_cu = ws + n;
            let u2 = ws + 2 * n;
            let s2 = ws + 3 * n;
            let h = ws + 4 * n;
            let r = ws + 5 * n;
            let h_sq = ws + 6 * n;
            let h_cu = ws + 7 * n;
            let x1h2 = ws + 8 * n;
            let r_sq = ws + 9 * n;
        seq![
            CircOp::KSq { a: (h) as usize, r: (h_sq) as usize },
            CircOp::KMul { a: (h_sq) as usize, b: (h) as usize, r: (h_cu) as usize },
            CircOp::KMul { a: (acc_x) as usize, b: (h_sq) as usize, r: (x1h2) as usize },
            CircOp::KSq { a: (r) as usize, r: (r_sq) as usize },
            CircOp::Copy { src: (r_sq) as usize, dst: (out_x) as usize },
            CircOp::Sub { a: (h_cu) as usize, b: (out_x) as usize },
            CircOp::Sub { a: (x1h2) as usize, b: (out_x) as usize },
            CircOp::Sub { a: (x1h2) as usize, b: (out_x) as usize },
        ]
        },
        ops_ok(ctx, final(ops)@),
{
    let z1_sq: usize = ws;
    let z1_cu: usize = ws + n;
    let u2: usize = ws + 2 * n;
    let s2: usize = ws + 3 * n;
    let h: usize = ws + 4 * n;
    let r: usize = ws + 5 * n;
    let h_sq: usize = ws + 6 * n;
    let h_cu: usize = ws + 7 * n;
    let x1h2: usize = ws + 8 * n;
    let r_sq: usize = ws + 9 * n;
    let ghost o0 = ops@;
    proof {
        reveal_with_fuel(crate::reversible::circuit_ops::op_ok, 2);
    }
    push_op(ops, Ghost(ctx), CircOp::KSq { a: h, r: h_sq });
    push_op(ops, Ghost(ctx), CircOp::KMul { a: h_sq, b: h, r: h_cu });
    push_op(ops, Ghost(ctx), CircOp::KMul { a: acc_x, b: h_sq, r: x1h2 });
    push_op(ops, Ghost(ctx), CircOp::KSq { a: r, r: r_sq });
    push_op(ops, Ghost(ctx), CircOp::Copy { src: r_sq, dst: out_x });
    push_op(ops, Ghost(ctx), CircOp::Sub { a: h_cu, b: out_x });
    push_op(ops, Ghost(ctx), CircOp::Sub { a: x1h2, b: out_x });
    push_op(ops, Ghost(ctx), CircOp::Sub { a: x1h2, b: out_x });
    proof {
        assert(ops@ =~= o0 + {
            let z1_sq = ws;
            let z1_cu = ws + n;
            let u2 = ws + 2 * n;
            let s2 = ws + 3 * n;
            let h = ws + 4 * n;
            let r = ws + 5 * n;
            let h_sq = ws + 6 * n;
            let h_cu = ws + 7 * n;
            let x1h2 = ws + 8 * n;
            let r_sq = ws + 9 * n;
        seq![
            CircOp::KSq { a: (h) as usize, r: (h_sq) as usize },
            CircOp::KMul { a: (h_sq) as usize, b: (h) as usize, r: (h_cu) as usize },
            CircOp::KMul { a: (acc_x) as usize, b: (h_sq) as usize, r: (x1h2) as usize },
            CircOp::KSq { a: (r) as usize, r: (r_sq) as usize },
            CircOp::Copy { src: (r_sq) as usize, dst: (out_x) as usize },
            CircOp::Sub { a: (h_cu) as usize, b: (out_x) as usize },
            CircOp::Sub { a: (x1h2) as usize, b: (out_x) as usize },
            CircOp::Sub { a: (x1h2) as usize, b: (out_x) as usize },
        ]
        });
    }
}

/// Appends steps 16..24.
#[verifier::rlimit(40)]
fn push_part_2(ops: &mut Vec<CircOp>, Ghost(ctx): Ghost<OpCtx>, n: usize, acc_x: usize, acc_y: usize, acc_z: usize, q_x: usize, q_y: usize, out_x: usize, out_y: usize, out_z: usize, ws: usize)
    requires
        ops_ok(ctx, old(ops)@),
        ctx_ok(ctx),
        ctx.n == n,
        acc_x + n <= usize::MAX,
        acc_y + n <= usize::MAX,
        acc_z + n <= usize::MAX,
        q_x + n <= usize::MAX,
        q_y + n <= usize::MAX,
        out_x + n <= usize::MAX,
        out_y + n <= usize::MAX,
        out_z + n <= usize::MAX,
        ws + 13 * n + 2 <= usize::MAX,
    ensures
        final(ops)@ == old(ops)@ + {
            let z1_sq = ws;
            let z1_cu = ws + n;
            let u2 = ws + 2 * n;
            let s2 = ws + 3 * n;
            let h = ws + 4 * n;
            let r = ws + 5 * n;
            let h_sq = ws + 6 * n;
            let h_cu = ws + 7 * n;
            let x1h2 = ws + 8 * n;
            let r_sq = ws + 9 * n;
        seq![
            CircOp::CopyDesc { src: (r) as usize, dst: (r_sq) as usize },
            CircOp::Copy { src: (x1h2) as usize, dst: (r_sq) as usize },
            CircOp::Sub { a: (out_x) as usize, b: (r_sq) as usize },
            CircOp::KMul { a: (r) as usize, b: (r_sq) as usize, r: (out_y) as usize },
            CircOp::KMul { a: (acc_y) as usize, b: (h_cu) as usize, r: (z1_cu) as usize },
            CircOp::Sub { a: (z1_cu) as usize, b: (out_y) as usize },
            CircOp::KMul { a: (acc_z) as usize, b: (h) as usize, r: (out_z) as usize },
            CircOp::UnKMul { a: (acc_y) as usize, b: (h_cu) as usize, r: (z1_cu) as usize },
        ]
        },
        ops_ok(ctx, final(ops)@),
{
    let z1_sq: usize = ws;
    let z1_cu: usize = ws + n;
    let u2: usize = ws + 2 * n;
    let s2: usize = ws + 3 * n;
    let h: usize = ws + 4 * n;
    let r: usize = ws + 5 * n;
    let h_sq: usize = ws + 6 * n;
    let h_cu: usize = ws + 7 * n;
    let x1h2: usize = ws + 8 * n;
    let r_sq: usize = ws + 9 * n;
    let ghost o0 = ops@;
    proof {
        reveal_with_fuel(crate::reversible::circuit_ops::op_ok, 2);
    }
    push_op(ops, Ghost(ctx), CircOp::CopyDesc { src: r, dst: r_sq });
    push_op(ops, Ghost(ctx), CircOp::Copy { src: x1h2, dst: r_sq });
    push_op(ops, Ghost(ctx), CircOp::Sub { a: out_x, b: r_sq });
    push_op(ops, Ghost(ctx), CircOp::KMul { a: r, b: r_sq, r: out_y });
    push_op(ops, Ghost(ctx), CircOp::KMul { a: acc_y, b: h_cu, r: z1_cu });
    push_op(ops, Ghost(ctx), CircOp::Sub { a: z1_cu, b: out_y });
    push_op(ops, Ghost(ctx), CircOp::KMul { a: acc_z, b: h, r: out_z });
    push_op(ops, Ghost(ctx), CircOp::UnKMul { a: acc_y, b: h_cu, r: z1_cu });
    proof {
        assert(ops@ =~= o0 + {
            let z1_sq = ws;
            let z1_cu = ws + n;
            let u2 = ws + 2 * n;
            let s2 = ws + 3 * n;
            let h = ws + 4 * n;
            let r = ws + 5 * n;
            let h_sq = ws + 6 * n;
            let h_cu = ws + 7 * n;
            let x1h2 = ws + 8 * n;
            let r_sq = ws + 9 * n;
        seq![
            CircOp::CopyDesc { src: (r) as usize, dst: (r_sq) as usize },
            CircOp::Copy { src: (x1h2) as usize, dst: (r_sq) as usize },
            CircOp::Sub { a: (out_x) as usize, b: (r_sq) as usize },
            CircOp::KMul { a: (r) as usize, b: (r_sq) as usize, r: (out_y) as usize },
            CircOp::KMul { a: (acc_y) as usize, b: (h_cu) as usize, r: (z1_cu) as usize },
            CircOp::Sub { a: (z1_cu) as usize, b: (out_y) as usize },
            CircOp::KMul { a: (acc_z) as usize, b: (h) as usize, r: (out_z) as usize },
            CircOp::UnKMul { a: (acc_y) as usize, b: (h_cu) as usize, r: (z1_cu) as usize },
        ]
        });
    }
}

/// Appends steps 24..30.
#[verifier::rlimit(40)]
fn push_part_3(ops: &mut Vec<CircOp>, Ghost(ctx): Ghost<OpCtx>, n: usize, acc_x: usize, acc_y: usize, acc_z: usize, q_x: usize, q_y: usize, out_x: usize, out_y: usize, out_z: usize, ws: usize)
    requires
        ops_ok(ctx, old(ops)@),
        ctx_ok(ctx),
        ctx.n == n,
        acc_x + n <= usize::MAX,
        acc_y + n <= usize::MAX,
        acc_z + n <= usize::MAX,
        q_x + n <= usize::MAX,
        q_y + n <= usize::MAX,
        out_x + n <= usize::MAX,
        out_y + n <= usize::MAX,
        out_z + n <= usize::MAX,
        ws + 13 * n + 2 <= usize::MAX,
    ensures
        final(ops)@ == old(ops)@ + {
            let z1_sq = ws;
            let z1_cu = ws + n;
            let u2 = ws + 2 * n;
            let s2 = ws + 3 * n;
            let h = ws + 4 * n;
            let r = ws + 5 * n;
            let h_sq = ws + 6 * n;
            let h_cu = ws + 7 * n;
            let x1h2 = ws + 8 * n;
            let r_sq = ws + 9 * n;
        seq![
            CircOp::UnSub { a: (out_x) as usize, b: (r_sq) as usize },
            CircOp::CopyDesc { src: (x1h2) as usize, dst: (r_sq) as usize },
            CircOp::UnSub { a: (acc_y) as usize, b: (r) as usize },
            CircOp::CopyDesc { src: (s2) as usize, dst: (r) as usize },
            CircOp::UnSub { a: (acc_x) as usize, b: (h) as usize },
            CircOp::CopyDesc { src: (u2) as usize, dst: (h) as usize },
        ]
        },
        ops_ok(ctx, final(ops)@),
{
    let z1_sq: usize = ws;
    let z1_cu: usize = ws + n;
    let u2: usize = ws + 2 * n;
    let s2: usize = ws + 3 * n;
    let h: usize = ws + 4 * n;
    let r: usize = ws + 5 * n;
    let h_sq: usize = ws + 6 * n;
    let h_cu: usize = ws + 7 * n;
    let x1h2: usize = ws + 8 * n;
    let r_sq: usize = ws + 9 * n;
    let ghost o0 = ops@;
    proof {
        reveal_with_fuel(crate::reversible::circuit_ops::op_ok, 2);
    }
    push_op(ops, Ghost(ctx), CircOp::UnSub { a: out_x, b: r_sq });
    push_op(ops, Ghost(ctx), CircOp::CopyDesc { src: x1h2, dst: r_sq });
    push_op(ops, Ghost(ctx), CircOp::UnSub { a: acc_y, b: r });
    push_op(ops, Ghost(ctx), CircOp::CopyDesc { src: s2, dst: r });
    push_op(ops, Ghost(ctx), CircOp::UnSub { a: acc_x, b: h });
    push_op(ops, Ghost(ctx), CircOp::CopyDesc { src: u2, dst: h });
    proof {
        assert(ops@ =~= o0 + {
            let z1_sq = ws;
            let z1_cu = ws + n;
            let u2 = ws + 2 * n;
            let s2 = ws + 3 * n;
            let h = ws + 4 * n;
            let r = ws + 5 * n;
            let h_sq = ws + 6 * n;
            let h_cu = ws + 7 * n;
            let x1h2 = ws + 8 * n;
            let r_sq = ws + 9 * n;
        seq![
            CircOp::UnSub { a: (out_x) as usize, b: (r_sq) as usize },
            CircOp::CopyDesc { src: (x1h2) as usize, dst: (r_sq) as usize },
            CircOp::UnSub { a: (acc_y) as usize, b: (r) as usize },
            CircOp::CopyDesc { src: (s2) as usize, dst: (r) as usize },
            CircOp::UnSub { a: (acc_x) as usize, b: (h) as usize },
            CircOp::CopyDesc { src: (u2) as usize, dst: (h) as usize },
        ]
        });
    }
}

impl ReversibleJacobianMixedAdd {
    pub fn new(n: usize) -> (r: Self)
        ensures
            r.n == n,
    {
        Self { n }
    }

    /// The circuit's gates (the steps listed above), with a workspace of
    /// 13 * n + 2 qubits allocated around them.
    pub fn forward_gates(
        &self,
        acc_x: usize,
        acc_y: usize,
        acc_z: usize,
        q_x: usize,
        q_y: usize,
        out_x: usize,
        out_y: usize,
        out_z: usize,
        workspace_offset: usize,
        counter: &mut ResourceCounter,
    ) -> (r: Vec<Gate>)
        requires
            ctx_ok(ec_add_jacobian_ctx(self.n as int, workspace_offset as int)),
            acc_x + self.n <= usize::MAX,
            acc_y + self.n <= usize::MAX,
            acc_z + self.n <= usize::MAX,
            q_x + self.n <= usize::MAX,
            q_y + self.n <= usize::MAX,
            out_x + self.n <= usize::MAX,
            out_y + self.n <= usize::MAX,
            out_z + self.n <= usize::MAX,
            workspace_offset + 13 * self.n + 2 <= usize::MAX,
            workspace_room(ec_add_jacobian_ctx(self.n as int, workspace_offset as int), ec_add_jacobian_ops(self.n as int, acc_x as int, acc_y as int, acc_z as int, q_x as int, q_y as int, out_x as int, out_y as int, out_z as int, workspace_offset as int), *old(counter), 13 * self.n + 2),
        ensures
            r@ == ops_gates(ec_add_jacobian_ctx(self.n as int, workspace_offset as int), ec_add_jacobian_ops(self.n as int, acc_x as int, acc_y as int, acc_z as int, q_x as int, q_y as int, out_x as int, out_y as int, out_z as int, workspace_offset as int)),
            gates_recorded(*old(counter), *final(counter), ops_gates(ec_add_jacobian_ctx(self.n as int, workspace_offset as int), ec_add_jacobian_ops(self.n as int, acc_x as int, acc_y as int, acc_z as int, q_x as int, q_y as int, out_x as int, out_y as int, out_z as int, workspace_offset as int))),
            workspace_effect(*old(counter), *final(counter), 13 * self.n + 2, ops_effect(ec_add_jacobian_ctx(self.n as int, workspace_offset as int), ec_add_jacobian_ops(self.n as int, acc_x as int, acc_y as int, acc_z as int, q_x as int, q_y as int, out_x as int, out_y as int, out_z as int, workspace_offset as int))),
    {
        let n = self.n;
        let ws = workspace_offset;
        let ctx = OpCtx { n, carry: ws + 10 * n, mw: ws + 10 * n + 1 };
        proof {
            assert(ctx == ec_add_jacobian_ctx(n as int, ws as int));
        }
        let mut ops: Vec<CircOp> = Vec::new();
        push_part_0(&mut ops, Ghost(ctx), n, acc_x, acc_y, acc_z, q_x, q_y, out_x, out_y, out_z, ws);
        push_part_1(&mut ops, Ghost(ctx), n, acc_x, acc_y, acc_z, q_x, q_y, out_x, out_y, out_z, ws);
        push_part_2(&mut ops, Ghost(ctx), n, acc_x, acc_y, acc_z, q_x, q_y, out_x, out_y, out_z, ws);
        push_part_3(&mut ops, Ghost(ctx), n, acc_x, acc_y, acc_z, q_x, q_y, out_x, out_y, out_z, ws);
        proof {
            assert(ops@ =~= ec_add_jacobian_ops(n as int, acc_x as int, acc_y as int, acc_z as int, q_x as int, q_y as int, out_x as int, out_y as int, out_z as int, ws as int));
        }
        run_in_workspace(&ctx, &ops, 13 * n + 2, counter)
    }

    /// Rough resource estimate: (qubits, Toffoli gates) = (21n + 2,
    /// 2·11·n²) for 3 squarings and 8 multiplications.
    pub fn estimated_resources(&self) -> (r: (usize, usize))
        requires
            2 * 11 * (self.n * self.n) <= usize::MAX,
            21 * self.n + 2 <= usize::MAX,
        ensures
            r.0 == 21 * self.n + 2,
            r.1 == 2 * 11 * (self.n * self.n),
    {
        let muls: usize = 11;
        proof {
            assert(self.n * self.n <= 2 * 11 * (self.n * self.n)) by (nonlinear_arith);
        }
        let toffoli_per_mul = self.n * self.n;
        let qubits = 3 * self.n + 2 * self.n + 3 * self.n + 13 * self.n + 2;
        let toffoli = 2 * muls * toffoli_per_mul;
        (qubits, toffoli)
    }
}



/// The gates of the mixed addition's four steps that write X3.
#[verifier::rlimit(60)]
#[verifier::spinoff_prover]
proof fn lemma_jac_x3_gates(
    n: int,
    acc_x: int,
    acc_y: int,
    acc_z: int,
    q_x: int,
    q_y: int,
    out_x: int,
    out_y: int,
    out_z: int,
    ws: int,
)
    requires
        n >= 1,
        0 <= out_x && out_x + n <= usize::MAX,
        0 <= ws && ws + 10 * n + 1 <= usize::MAX,
    ensures
        ({
            let ctx = ec_add_jacobian_ctx(n, ws);
            let ops = ec_add_jacobian_ops(n, acc_x, acc_y, acc_z, q_x, q_y, out_x, out_y, out_z, ws);
            let g = ops_gates(ctx, ops);
            let k = ops_gates(ctx, ops.take(12)).len() as int;
            let sub1 = cuccaro_gates(n, ws + 7 * n, out_x, ws + 10 * n).reverse();
            let sub2 = cuccaro_gates(n, ws + 8 * n, out_x, ws + 10 * n).reverse();
            let seg = copy_gates(ws + 9 * n, out_x, n) + sub1 + sub2 + sub2;
            &&& k + seg.len() <= g.len()
            &&& g.subrange(k, k + seg.len()) == seg
            &&& ops_gates(ctx, ops.subrange(12, 16)) == seg
        }),
{
    let ctx = ec_add_jacobian_ctx(n, ws);
    let ops = ec_add_jacobian_ops(n, acc_x, acc_y, acc_z, q_x, q_y, out_x, out_y, out_z, ws);
    let o1 = CircOp::Copy { src: (ws + 9 * n) as usize, dst: out_x as usize };
    let o2 = CircOp::Sub { a: (ws + 7 * n) as usize, b: out_x as usize };
    let o3 = CircOp::Sub { a: (ws + 8 * n) as usize, b: out_x as usize };
    let seg = ops.subrange(12, 16);
    assert(ops.len() == 30);
    assert(seg =~= seq![o1] + seq![o2] + seq![o3] + seq![o3]);
    assert(ops =~= ops.take(12) + seg + ops.skip(16));
    lemma_ops_gates_concat(ctx, ops.take(12) + seg, ops.skip(16));
    lemma_ops_gates_concat(ctx, ops.take(12), seg);
    lemma_ops_gates_concat(ctx, seq![o1] + seq![o2] + seq![o3], seq![o3]);
    lemma_ops_gates_concat(ctx, seq![o1] + seq![o2], seq![o3]);
    lemma_ops_gates_concat(ctx, seq![o1], seq![o2]);
    reveal_with_fuel(ops_gates, 2);
    assert(seq![o1].drop_last() =~= Seq::<CircOp>::empty());
    assert(seq![o2].drop_last() =~= Seq::<CircOp>::empty());
    assert(seq![o3].drop_last() =~= Seq::<CircOp>::empty());
    let g1 = copy_gates(ws + 9 * n, out_x, n);
    let sub1 = cuccaro_gates(n, ws + 7 * n, out_x, ws + 10 * n).reverse();
    let sub2 = cuccaro_gates(n, ws + 8 * n, out_x, ws + 10 * n).reverse();
    assert(ops_gates(ctx, seq![o1]) =~= g1);
    assert(ops_gates(ctx, seq![o2]) =~= sub1);
    assert(ops_gates(ctx, seq![o3]) =~= sub2);
    let pre = ops_gates(ctx, ops.take(12));
    let g = ops_gates(ctx, ops);
    let sg = g1 + sub1 + sub2 + sub2;
    assert(ops_gates(ctx, seg) == sg);
    assert(g == pre + sg + ops_gates(ctx, ops.skip(16)));
    let k = pre.len() as int;
    assert(g.subrange(k, k + sg.len()) =~= sg);
}

/// R² copied into X3, then H³ and twice X1·H² subtracted from it.
#[verifier::rlimit(60)]
#[verifier::spinoff_prover]
proof fn lemma_jac_x3_effect(n: int, out_x: int, ws: int, bits: Seq<bool>)
    requires
        n >= 1,
        0 <= out_x && out_x + n <= bits.len(),
        0 <= ws && ws + 10 * n + 1 <= bits.len(),
        bits.len() <= usize::MAX,
        ranges_apart(out_x, n, ws, 10 * n + 1),
        forall|i: int| 0 <= i < n ==> !#[trigger] bits[out_x + i],
        !bits[ws + 10 * n],
    ensures
        ({
            let sub1 = cuccaro_gates(n, ws + 7 * n, out_x, ws + 10 * n).reverse();
            let sub2 = cuccaro_gates(n, ws + 8 * n, out_x, ws + 10 * n).reverse();
            let out = apply_gates(copy_gates(ws + 9 * n, out_x, n) + sub1 + sub2 + sub2, bits);
            reg(out, out_x, n) == (reg(bits, ws + 9 * n, n) - reg(bits, ws + 7 * n, n) - 2 * reg(bits, ws + 8 * n, n))
                % (pow2(n as nat) as int)
        }),
{
    let rsq = ws + 9 * n;
    let hcu = ws + 7 * n;
    let x1h2 = ws + 8 * n;
    let carry = ws + 10 * n;
    let g1 = copy_gates(rsq, out_x, n);
    let sub1 = cuccaro_gates(n, hcu, out_x, carry).reverse();
    let sub2 = cuccaro_gates(n, x1h2, out_x, carry).reverse();
    lemma_apply_gates_concat(g1 + sub1 + sub2, sub2, bits);
    lemma_apply_gates_concat(g1 + sub1, sub2, bits);
    lemma_apply_gates_concat(g1, sub1, bits);
    let md = pow2(n as nat) as int;
    vstd::arithmetic::power2::lemma_pow2_pos(n as nat);
    lemma_copy_effect(bits, rsq, out_x, n);
    let s1 = apply_gates(g1, bits);
    assert(s1.subrange(out_x, out_x + n) =~= bits.subrange(rsq, rsq + n)) by {
        assert forall|i: int| 0 <= i < n implies #[trigger] s1.subrange(out_x, out_x + n)[i] == bits.subrange(
            rsq,
            rsq + n,
        )[i] by {
            assert(!bits[out_x + i]);
        }
    }
    assert(s1.subrange(hcu, hcu + n) =~= bits.subrange(hcu, hcu + n));
    assert(s1.subrange(x1h2, x1h2 + n) =~= bits.subrange(x1h2, x1h2 + n));
    assert(adder_layout(n, hcu, out_x, carry, bits.len() as int));
    assert(adder_layout(n, x1h2, out_x, carry, bits.len() as int));
    lemma_cuccaro_subtracts(s1, n, hcu, out_x, carry);
    let s2 = apply_gates(sub1, s1);
    assert(s2.subrange(x1h2, x1h2 + n) =~= bits.subrange(x1h2, x1h2 + n));
    lemma_cuccaro_subtracts(s2, n, x1h2, out_x, carry);
    let s3 = apply_gates(sub2, s2);
    assert(s3.subrange(x1h2, x1h2 + n) =~= bits.subrange(x1h2, x1h2 + n));
    lemma_cuccaro_subtracts(s3, n, x1h2, out_x, carry);
    let r = reg(bits, rsq, n);
    let h = reg(bits, hcu, n);
    let x = reg(bits, x1h2, n);
    crate::reversible::adder_laws::lemma_bits_value_bound(bits.subrange(x1h2, x1h2 + n));
    vstd::arithmetic::div_mod::lemma_small_mod(x as nat, md as nat);
    vstd::arithmetic::div_mod::lemma_sub_mod_noop(r - h, x, md);
    vstd::arithmetic::div_mod::lemma_mod_twice(r - h, md);
    vstd::arithmetic::div_mod::lemma_sub_mod_noop(r - h - x, x, md);
    vstd::arithmetic::div_mod::lemma_mod_twice(r - h - x, md);
}

/// The mixed Jacobian addition computes X3 = R² − H³ − 2·X1·H² (mod 2^n):
/// its four steps that write X3 (starting after the first twelve), applied
/// to bits with a zero X3 register and a zero carry (ws + 10n), leave in
/// X3 the value of R² (ws + 9n) minus H³ (ws + 7n) minus twice X1·H²
/// (ws + 8n), modulo 2^n.
pub proof fn lemma_ec_add_jacobian_x3(
    n: int,
    acc_x: int,
    acc_y: int,
    acc_z: int,
    q_x: int,
    q_y: int,
    out_x: int,
    out_y: int,
    out_z: int,
    ws: int,
    bits: Seq<bool>,
)
    requires
        n >= 1,
        0 <= out_x && out_x + n <= bits.len(),
        0 <= ws && ws + 10 * n + 1 <= bits.len(),
        bits.len() <= usize::MAX,
        ranges_apart(out_x, n, ws, 10 * n + 1),
        forall|i: int| 0 <= i < n ==> !#[trigger] bits[out_x + i],
        !bits[ws + 10 * n],
    ensures
        ({
            let ctx = ec_add_jacobian_ctx(n, ws);
            let ops = ec_add_jacobian_ops(n, acc_x, acc_y, acc_z, q_x, q_y, out_x, out_y, out_z, ws);
            let g = ops_gates(ctx, ops);
            let k = ops_gates(ctx, ops.take(12)).len() as int;
            let m = ops_gates(ctx, ops.subrange(12, 16)).len() as int;
            let out = apply_gates(g.subrange(k, k + m), bits);
            &&& k + m <= g.len()
            &&& reg(out, out_x, n) == (reg(bits, ws + 9 * n, n) - reg(bits, ws + 7 * n, n) - 2 * reg(
                bits,
                ws + 8 * n,
                n,
            )) % (pow2(n as nat) as int)
        }),
{
    lemma_jac_x3_gates(n, acc_x, acc_y, acc_z, q_x, q_y, out_x, out_y, out_z, ws);
    lemma_jac_x3_effect(n, out_x, ws, bits);
}

} // verus!
