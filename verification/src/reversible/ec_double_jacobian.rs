//! Reversible Jacobian elliptic-curve point doubling.
use crate::reversible::circuit_ops::{
    ctx_ok, ops_effect, ops_gates, ops_ok, push_op, run_in_workspace, workspace_effect, workspace_room,
    CircOp, OpCtx,
};
use crate::reversible::gates::Gate;
use crate::reversible::inverter::fermat_ops;
use crate::reversible::multiplier::karatsuba_total_ws;
use crate::reversible::resource_counter::{gates_recorded, ResourceCounter};
use vstd::prelude::*;

verus! {

/// The layout shared by the steps: field width, adder carry and multiplier
/// workspace.
pub open spec fn ec_double_jacobian_ctx(n: int, ws: int) -> OpCtx {
    OpCtx { n: n as usize, carry: (ws + 11 * n) as usize, mw: (ws + 11 * n + 1) as usize }
}

/// The steps of the doubling: A = Y1², Z1², Z1⁴, X1², D = 3X1² + Z1⁴, B = 4·X1·A, C = 8·A², D², X3 = D² − 2B, Y3 = D·(B − X3) − C, Z3 = 2·Y1·Z1, then the temporary B − X3 undone.
pub open spec fn ec_double_jacobian_ops(n: int, in_x: int, in_y: int, in_z: int, out_x: int, out_y: int, out_z: int, ws: int) -> Seq<CircOp> {
    let a = ws;
    let z1sq = ws + n;
    let z1_4 = ws + 2 * n;
    let x1sq = ws + 3 * n;
    let d = ws + 4 * n;
    let b = ws + 5 * n;
    let c = ws + 6 * n;
    let a_sq = ws + 7 * n;
    let d_sq = ws + 8 * n;
    let temp = ws + 9 * n;
    let ct = ws + 10 * n;
    let mw = ws + 11 * n + 1;
    seq![
        CircOp::KSq { a: (in_y) as usize, r: (a) as usize },
        CircOp::KSq { a: (in_z) as usize, r: (z1sq) as usize },
        CircOp::KSq { a: (z1sq) as usize, r: (z1_4) as usize },
        CircOp::KSq { a: (in_x) as usize, r: (x1sq) as usize },
        CircOp::Add { a: (x1sq) as usize, b: (d) as usize },
        CircOp::Add { a: (x1sq) as usize, b: (d) as usize },
        CircOp::Add { a: (x1sq) as usize, b: (d) as usize },
        CircOp::Add { a: (z1_4) as usize, b: (d) as usize },
        CircOp::KMul { a: (in_x) as usize, b: (a) as usize, r: (ct) as usize },
        CircOp::Add { a: (ct) as usize, b: (b) as usize },
        CircOp::Add { a: (ct) as usize, b: (b) as usize },
        CircOp::Add { a: (ct) as usize, b: (b) as usize },
        CircOp::Add { a: (ct) as usize, b: (b) as usize },
        CircOp::KSq { a: (a) as usize, r: (a_sq) as usize },
        CircOp::Add { a: (a_sq) as usize, b: (c) as usize },
        CircOp::Add { a: (a_sq) as usize, b: (c) as usize },
        CircOp::Add { a: (a_sq) as usize, b: (c) as usize },
        CircOp::Add { a: (a_sq) as usize, b: (c) as usize },
        CircOp::Add { a: (a_sq) as usize, b: (c) as usize },
        CircOp::Add { a: (a_sq) as usize, b: (c) as usize },
        CircOp::Add { a: (a_sq) as usize, b: (c) as usize },
        CircOp::Add { a: (a_sq) as usize, b: (c) as usize },
        CircOp::KSq { a: (d) as usize, r: (d_sq) as usize },
        CircOp::Copy { src: (d_sq) as usize, dst: (out_x) as usize },
        CircOp::Sub { a: (b) as usize, b: (out_x) as usize },
        CircOp::Sub { a: (b) as usize, b: (out_x) as usize },
        CircOp::Copy { src: (b) as usize, dst: (temp) as usize },
        CircOp::Sub { a: (out_x) as usize, b: (temp) as usize },
        CircOp::KMul { a: (d) as usize, b: (temp) as usize, r: (out_y) as usize },
        CircOp::Sub { a: (c) as usize, b: (out_y) as usize },
        CircOp::KMul { a: (in_y) as usize, b: (in_z) as usize, r: (out_z) as usize },
        CircOp::Copy { src: (out_z) as usize, dst: (mw) as usize },
        CircOp::Add { a: (mw) as usize, b: (out_z) as usize },
        CircOp::UnSub { a: (out_x) as usize, b: (temp) as usize },
        CircOp::CopyDesc { src: (b) as usize, dst: (temp) as usize },
    ]
}

/// Reversible Jacobian point doubling for a = −3-free curves in the
/// general form D = 3X1² + a·Z1⁴, with no inversion.
pub struct ReversibleJacobianDouble {
    pub n: usize,
}

/// Appends steps 0..8.
#[verifier::rlimit(40)]
fn push_part_0(ops: &mut Vec<CircOp>, Ghost(ctx): Ghost<OpCtx>, n: usize, in_x: usize, in_y: usize, in_z: usize, out_x: usize, out_y: usize, out_z: usize, ws: usize)
    requires
        ops_ok(ctx, old(ops)@),
        ctx_ok(ctx),
        ctx.n == n,
        in_x + n <= usize::MAX,
        in_y + n <= usize::MAX,
        in_z + n <= usize::MAX,
        out_x + n <= usize::MAX,
        out_y + n <= usize::MAX,
        out_z + n <= usize::MAX,
        ws + 14 * n + 2 <= usize::MAX,
    ensures
        final(ops)@ == old(ops)@ + {
            let a = ws;
            let z1sq = ws + n;
            let z1_4 = ws + 2 * n;
            let x1sq = ws + 3 * n;
            let d = ws + 4 * n;
            let b = ws + 5 * n;
            let c = ws + 6 * n;
            let a_sq = ws + 7 * n;
            let d_sq = ws + 8 * n;
            let temp = ws + 9 * n;
            let ct = ws + 10 * n;
            let mw = ws + 11 * n + 1;
        seq![
            CircOp::KSq { a: (in_y) as usize, r: (a) as usize },
            CircOp::KSq { a: (in_z) as usize, r: (z1sq) as usize },
            CircOp::KSq { a: (z1sq) as usize, r: (z1_4) as usize },
            CircOp::KSq { a: (in_x) as usize, r: (x1sq) as usize },
            CircOp::Add { a: (x1sq) as usize, b: (d) as usize },
            CircOp::Add { a: (x1sq) as usize, b: (d) as usize },
            CircOp::Add { a: (x1sq) as usize, b: (d) as usize },
            CircOp::Add { a: (z1_4) as usize, b: (d) as usize },
        ]
        },
        ops_ok(ctx, final(ops)@),
{
    let a: usize = ws;
    let z1sq: usize = ws + n;
    let z1_4: usize = ws + 2 * n;
    let x1sq: usize = ws + 3 * n;
    let d: usize = ws + 4 * n;
    let b: usize = ws + 5 * n;
    let c: usize = ws + 6 * n;
    let a_sq: usize = ws + 7 * n;
    let d_sq: usize = ws + 8 * n;
    let temp: usize = ws + 9 * n;
    let ct: usize = ws + 10 * n;
    let mw: usize = ws + 11 * n + 1;
    let ghost o0 = ops@;
    proof {
        reveal_with_fuel(crate::reversible::circuit_ops::op_ok, 2);
    }
    push_op(ops, Ghost(ctx), CircOp::KSq { a: in_y, r: a });
    push_op(ops, Ghost(ctx), CircOp::KSq { a: in_z, r: z1sq });
    push_op(ops, Ghost(ctx), CircOp::KSq { a: z1sq, r: z1_4 });
    push_op(ops, Ghost(ctx), CircOp::KSq { a: in_x, r: x1sq });
    push_op(ops, Ghost(ctx), CircOp::Add { a: x1sq, b: d });
    push_op(ops, Ghost(ctx), CircOp::Add { a: x1sq, b: d });
    push_op(ops, Ghost(ctx), CircOp::Add { a: x1sq, b: d });
    push_op(ops, Ghost(ctx), CircOp::Add { a: z1_4, b: d });
    proof {
        assert(ops@ =~= o0 + {
            let a = ws;
            let z1sq = ws + n;
            let z1_4 = ws + 2 * n;
            let x1sq = ws + 3 * n;
            let d = ws + 4 * n;
            let b = ws + 5 * n;
            let c = ws + 6 * n;
            let a_sq = ws + 7 * n;
            let d_sq = ws + 8 * n;
            let temp = ws + 9 * n;
            let ct = ws + 10 * n;
            let mw = ws + 11 * n + 1;
        seq![
            CircOp::KSq { a: (in_y) as usize, r: (a) as usize },
            CircOp::KSq { a: (in_z) as usize, r: (z1sq) as usize },
            CircOp::KSq { a: (z1sq) as usize, r: (z1_4) as usize },
            CircOp::KSq { a: (in_x) as usize, r: (x1sq) as usize },
            CircOp::Add { a: (x1sq) as usize, b: (d) as usize },
            CircOp::Add { a: (x1sq) as usize, b: (d) as usize },
            CircOp::Add { a: (x1sq) as usize, b: (d) as usize },
            CircOp::Add { a: (z1_4) as usize, b: (d) as usize },
        ]
        });
    }
}

/// Appends steps 8..16.
#[verifier::rlimit(40)]
fn push_part_1(ops: &mut Vec<CircOp>, Ghost(ctx): Ghost<OpCtx>, n: usize, in_x: usize, in_y: usize, in_z: usize, out_x: usize, out_y: usize, out_z: usize, ws: usize)
    requires
        ops_ok(ctx, old(ops)@),
        ctx_ok(ctx),
        ctx.n == n,
        in_x + n <= usize::MAX,
        in_y + n <= usize::MAX,
        in_z + n <= usize::MAX,
        out_x + n <= usize::MAX,
        out_y + n <= usize::MAX,
        out_z + n <= usize::MAX,
        ws + 14 * n + 2 <= usize::MAX,
    ensures
        final(ops)@ == old(ops)@ + {
            let a = ws;
            let z1sq = ws + n;
            let z1_4 = ws + 2 * n;
            let x1sq = ws + 3 * n;
            let d = ws + 4 * n;
            let b = ws + 5 * n;
            let c = ws + 6 * n;
            let a_sq = ws + 7 * n;
            let d_sq = ws + 8 * n;
            let temp = ws + 9 * n;
            let ct = ws + 10 * n;
            let mw = ws + 11 * n + 1;
        seq![
            CircOp::KMul { a: (in_x) as usize, b: (a) as usize, r: (ct) as usize },
            CircOp::Add { a: (ct) as usize, b: (b) as usize },
            CircOp::Add { a: (ct) as usize, b: (b) as usize },
            CircOp::Add { a: (ct) as usize, b: (b) as usize },
            CircOp::Add { a: (ct) as usize, b: (b) as usize },
            CircOp::KSq { a: (a) as usize, r: (a_sq) as usize },
            CircOp::Add { a: (a_sq) as usize, b: (c) as usize },
            CircOp::Add { a: (a_sq) as usize, b: (c) as usize },
        ]
        },
        ops_ok(ctx, final(ops)@),
{
    let a: usize = ws;
    let z1sq: usize = ws + n;
    let z1_4: usize = ws + 2 * n;
    let x1sq: usize = ws + 3 * n;
    let d: usize = ws + 4 * n;
    let b: usize = ws + 5 * n;
    let c: usize = ws + 6 * n;
    let a_sq: usize = ws + 7 * n;
    let d_sq: usize = ws + 8 * n;
    let temp: usize = ws + 9 * n;
    let ct: usize = ws + 10 * n;
    let mw: usize = ws + 11 * n + 1;
    let ghost o0 = ops@;
    proof {
        reveal_with_fuel(crate::reversible::circuit_ops::op_ok, 2);
    }
    push_op(ops, Ghost(ctx), CircOp::KMul { a: in_x, b: a, r: ct });
    push_op(ops, Ghost(ctx), CircOp::Add { a: ct, b: b });
    push_op(ops, Ghost(ctx), CircOp::Add { a: ct, b: b });
    push_op(ops, Ghost(ctx), CircOp::Add { a: ct, b: b });
    push_op(ops, Ghost(ctx), CircOp::Add { a: ct, b: b });
    push_op(ops, Ghost(ctx), CircOp::KSq { a: a, r: a_sq });
    push_op(ops, Ghost(ctx), CircOp::Add { a: a_sq, b: c });
    push_op(ops, Ghost(ctx), CircOp::Add { a: a_sq, b: c });
    proof {
        assert(ops@ =~= o0 + {
            let a = ws;
            let z1sq = ws + n;
            let z1_4 = ws + 2 * n;
            let x1sq = ws + 3 * n;
            let d = ws + 4 * n;
            let b = ws + 5 * n;
            let c = ws + 6 * n;
            let a_sq = ws + 7 * n;
            let d_sq = ws + 8 * n;
            let temp = ws + 9 * n;
            let ct = ws + 10 * n;
            let mw = ws + 11 * n + 1;
        seq![
            CircOp::KMul { a: (in_x) as usize, b: (a) as usize, r: (ct) as usize },
            CircOp::Add { a: (ct) as usize, b: (b) as usize },
            CircOp::Add { a: (ct) as usize, b: (b) as usize },
            CircOp::Add { a: (ct) as usize, b: (b) as usize },
            CircOp::Add { a: (ct) as usize, b: (b) as usize },
            CircOp::KSq { a: (a) as usize, r: (a_sq) as usize },
            CircOp::Add { a: (a_sq) as usize, b: (c) as usize },
            CircOp::Add { a: (a_sq) as usize, b: (c) as usize },
        ]
        });
    }
}

/// Appends steps 16..24.
#[verifier::rlimit(40)]
fn push_part_2(ops: &mut Vec<CircOp>, Ghost(ctx): Ghost<OpCtx>, n: usize, in_x: usize, in_y: usize, in_z: usize, out_x: usize, out_y: usize, out_z: usize, ws: usize)
    requires
        ops_ok(ctx, old(ops)@),
        ctx_ok(ctx),
        ctx.n == n,
        in_x + n <= usize::MAX,
        in_y + n <= usize::MAX,
        in_z + n <= usize::MAX,
        out_x + n <= usize::MAX,
        out_y + n <= usize::MAX,
        out_z + n <= usize::MAX,
        ws + 14 * n + 2 <= usize::MAX,
    ensures
        final(ops)@ == old(ops)@ + {
            let a = ws;
            let z1sq = ws + n;
            let z1_4 = ws + 2 * n;
            let x1sq = ws + 3 * n;
            let d = ws + 4 * n;
            let b = ws + 5 * n;
            let c = ws + 6 * n;
            let a_sq = ws + 7 * n;
            let d_sq = ws + 8 * n;
            let temp = ws + 9 * n;
            let ct = ws + 10 * n;
            let mw = ws + 11 * n + 1;
        seq![
            CircOp::Add { a: (a_sq) as usize, b: (c) as usize },
            CircOp::Add { a: (a_sq) as usize, b: (c) as usize },
            CircOp::Add { a: (a_sq) as usize, b: (c) as usize },
            CircOp::Add { a: (a_sq) as usize, b: (c) as usize },
            CircOp::Add { a: (a_sq) as usize, b: (c) as usize },
            CircOp::Add { a: (a_sq) as usize, b: (c) as usize },
            CircOp::KSq { a: (d) as usize, r: (d_sq) as usize },
            CircOp::Copy { src: (d_sq) as usize, dst: (out_x) as usize },
        ]
        },
        ops_ok(ctx, final(ops)@),
{
    let a: usize = ws;
    let z1sq: usize = ws + n;
    let z1_4: usize = ws + 2 * n;
    let x1sq: usize = ws + 3 * n;
    let d: usize = ws + 4 * n;
    let b: usize = ws + 5 * n;
    let c: usize = ws + 6 * n;
    let a_sq: usize = ws + 7 * n;
    let d_sq: usize = ws + 8 * n;
    let temp: usize = ws + 9 * n;
    let ct: usize = ws + 10 * n;
    let mw: usize = ws + 11 * n + 1;
    let ghost o0 = ops@;
    proof {
        reveal_with_fuel(crate::reversible::circuit_ops::op_ok, 2);
    }
    push_op(ops, Ghost(ctx), CircOp::Add { a: a_sq, b: c });
    push_op(ops, Ghost(ctx), CircOp::Add { a: a_sq, b: c });
    push_op(ops, Ghost(ctx), CircOp::Add { a: a_sq, b: c });
    push_op(ops, Ghost(ctx), CircOp::Add { a: a_sq, b: c });
    push_op(ops, Ghost(ctx), CircOp::Add { a: a_sq, b: c });
    push_op(ops, Ghost(ctx), CircOp::Add { a: a_sq, b: c });
    push_op(ops, Ghost(ctx), CircOp::KSq { a: d, r: d_sq });
    push_op(ops, Ghost(ctx), CircOp::Copy { src: d_sq, dst: out_x });
    proof {
        assert(ops@ =~= o0 + {
            let a = ws;
            let z1sq = ws + n;
            let z1_4 = ws + 2 * n;
            let x1sq = ws + 3 * n;
            let d = ws + 4 * n;
            let b = ws + 5 * n;
            let c = ws + 6 * n;
            let a_sq = ws + 7 * n;
            let d_sq = ws + 8 * n;
            let temp = ws + 9 * n;
            let ct = ws + 10 * n;
            let mw = ws + 11 * n + 1;
        seq![
            CircOp::Add { a: (a_sq) as usize, b: (c) as usize },
            CircOp::Add { a: (a_sq) as usize, b: (c) as usize },
            CircOp::Add { a: (a_sq) as usize, b: (c) as usize },
            CircOp::Add { a: (a_sq) as usize, b: (c) as usize },
            CircOp::Add { a: (a_sq) as usize, b: (c) as usize },
            CircOp::Add { a: (a_sq) as usize, b: (c) as usize },
            CircOp::KSq { a: (d) as usize, r: (d_sq) as usize },
            CircOp::Copy { src: (d_sq) as usize, dst: (out_x) as usize },
        ]
        });
    }
}

/// Appends steps 24..32.
#[verifier::rlimit(40)]
fn push_part_3(ops: &mut Vec<CircOp>, Ghost(ctx): Ghost<OpCtx>, n: usize, in_x: usize, in_y: usize, in_z: usize, out_x: usize, out_y: usize, out_z: usize, ws: usize)
    requires
        ops_ok(ctx, old(ops)@),
        ctx_ok(ctx),
        ctx.n == n,
        in_x + n <= usize::MAX,
        in_y + n <= usize::MAX,
        in_z + n <= usize::MAX,
        out_x + n <= usize::MAX,
        out_y + n <= usize::MAX,
        out_z + n <= usize::MAX,
        ws + 14 * n + 2 <= usize::MAX,
    ensures
        final(ops)@ == old(ops)@ + {
            let a = ws;
            let z1sq = ws + n;
            let z1_4 = ws + 2 * n;
            let x1sq = ws + 3 * n;
            let d = ws + 4 * n;
            let b = ws + 5 * n;
            let c = ws + 6 * n;
            let a_sq = ws + 7 * n;
            let d_sq = ws + 8 * n;
            let temp = ws + 9 * n;
            let ct = ws + 10 * n;
            let mw = ws + 11 * n + 1;
        seq![
            CircOp::Sub { a: (b) as usize, b: (out_x) as usize },
            CircOp::Sub { a: (b) as usize, b: (out_x) as usize },
            CircOp::Copy { src: (b) as usize, dst: (temp) as usize },
            CircOp::Sub { a: (out_x) as usize, b: (temp) as usize },
            CircOp::KMul { a: (d) as usize, b: (temp) as usize, r: (out_y) as usize },
            CircOp::Sub { a: (c) as usize, b: (out_y) as usize },
            CircOp::KMul { a: (in_y) as usize, b: (in_z) as usize, r: (out_z) as usize },
            CircOp::Copy { src: (out_z) as usize, dst: (mw) as usize },
        ]
        },
        ops_ok(ctx, final(ops)@),
{
    let a: usize = ws;
    let z1sq: usize = ws + n;
    let z1_4: usize = ws + 2 * n;
    let x1sq: usize = ws + 3 * n;
    let d: usize = ws + 4 * n;
    let b: usize = ws + 5 * n;
    let c: usize = ws + 6 * n;
    let a_sq: usize = ws + 7 * n;
    let d_sq: usize = ws + 8 * n;
    let temp: usize = ws + 9 * n;
    let ct: usize = ws + 10 * n;
    let mw: usize = ws + 11 * n + 1;
    let ghost o0 = ops@;
    proof {
        reveal_with_fuel(crate::reversible::circuit_ops::op_ok, 2);
    }
    push_op(ops, Ghost(ctx), CircOp::Sub { a: b, b: out_x });
    push_op(ops, Ghost(ctx), CircOp::Sub { a: b, b: out_x });
    push_op(ops, Ghost(ctx), CircOp::Copy { src: b, dst: temp });
    push_op(ops, Ghost(ctx), CircOp::Sub { a: out_x, b: temp });
    push_op(ops, Ghost(ctx), CircOp::KMul { a: d, b: temp, r: out_y });
    push_op(ops, Ghost(ctx), CircOp::Sub { a: c, b: out_y });
    push_op(ops, Ghost(ctx), CircOp::KMul { a: in_y, b: in_z, r: out_z });
    push_op(ops, Ghost(ctx), CircOp::Copy { src: out_z, dst: mw });
    proof {
        assert(ops@ =~= o0 + {
            let a = ws;
            let z1sq = ws + n;
            let z1_4 = ws + 2 * n;
            let x1sq = ws + 3 * n;
            let d = ws + 4 * n;
            let b = ws + 5 * n;
            let c = ws + 6 * n;
            let a_sq = ws + 7 * n;
            let d_sq = ws + 8 * n;
            let temp = ws + 9 * n;
            let ct = ws + 10 * n;
            let mw = ws + 11 * n + 1;
        seq![
            CircOp::Sub { a: (b) as usize, b: (out_x) as usize },
            CircOp::Sub { a: (b) as usize, b: (out_x) as usize },
            CircOp::Copy { src: (b) as usize, dst: (temp) as usize },
            CircOp::Sub { a: (out_x) as usize, b: (temp) as usize },
            CircOp::KMul { a: (d) as usize, b: (temp) as usize, r: (out_y) as usize },
            CircOp::Sub { a: (c) as usize, b: (out_y) as usize },
            CircOp::KMul { a: (in_y) as usize, b: (in_z) as usize, r: (out_z) as usize },
            CircOp::Copy { src: (out_z) as usize, dst: (mw) as usize },
        ]
        });
    }
}

/// Appends steps 32..35.
#[verifier::rlimit(40)]
fn push_part_4(ops: &mut Vec<CircOp>, Ghost(ctx): Ghost<OpCtx>, n: usize, in_x: usize, in_y: usize, in_z: usize, out_x: usize, out_y: usize, out_z: usize, ws: usize)
    requires
        ops_ok(ctx, old(ops)@),
        ctx_ok(ctx),
        ctx.n == n,
        in_x + n <= usize::MAX,
        in_y + n <= usize::MAX,
        in_z + n <= usize::MAX,
        out_x + n <= usize::MAX,
        out_y + n <= usize::MAX,
        out_z + n <= usize::MAX,
        ws + 14 * n + 2 <= usize::MAX,
    ensures
        final(ops)@ == old(ops)@ + {
            let a = ws;
            let z1sq = ws + n;
            let z1_4 = ws + 2 * n;
            let x1sq = ws + 3 * n;
            let d = ws + 4 * n;
            let b = ws + 5 * n;
            let c = ws + 6 * n;
            let a_sq = ws + 7 * n;
            let d_sq = ws + 8 * n;
            let temp = ws + 9 * n;
            let ct = ws + 10 * n;
            let mw = ws + 11 * n + 1;
        seq![
            CircOp::Add { a: (mw) as usize, b: (out_z) as usize },
            CircOp::UnSub { a: (out_x) as usize, b: (temp) as usize },
            CircOp::CopyDesc { src: (b) as usize, dst: (temp) as usize },
        ]
        },
        ops_ok(ctx, final(ops)@),
{
    let a: usize = ws;
    let z1sq: usize = ws + n;
    let z1_4: usize = ws + 2 * n;
    let x1sq: usize = ws + 3 * n;
    let d: usize = ws + 4 * n;
    let b: usize = ws + 5 * n;
    let c: usize = ws + 6 * n;
    let a_sq: usize = ws + 7 * n;
    let d_sq: usize = ws + 8 * n;
    let temp: usize = ws + 9 * n;
    let ct: usize = ws + 10 * n;
    let mw: usize = ws + 11 * n + 1;
    let ghost o0 = ops@;
    proof {
        reveal_with_fuel(crate::reversible::circuit_ops::op_ok, 2);
    }
    push_op(ops, Ghost(ctx), CircOp::Add { a: mw, b: out_z });
    push_op(ops, Ghost(ctx), CircOp::UnSub { a: out_x, b: temp });
    push_op(ops, Ghost(ctx), CircOp::CopyDesc { src: b, dst: temp });
    proof {
        assert(ops@ =~= o0 + {
            let a = ws;
            let z1sq = ws + n;
            let z1_4 = ws + 2 * n;
            let x1sq = ws + 3 * n;
            let d = ws + 4 * n;
            let b = ws + 5 * n;
            let c = ws + 6 * n;
            let a_sq = ws + 7 * n;
            let d_sq = ws + 8 * n;
            let temp = ws + 9 * n;
            let ct = ws + 10 * n;
            let mw = ws + 11 * n + 1;
        seq![
            CircOp::Add { a: (mw) as usize, b: (out_z) as usize },
            CircOp::UnSub { a: (out_x) as usize, b: (temp) as usize },
            CircOp::CopyDesc { src: (b) as usize, dst: (temp) as usize },
        ]
        });
    }
}

impl ReversibleJacobianDouble {
    pub fn new(n: usize) -> (r: Self)
        ensures
            r.n == n,
    {
        Self { n }
    }

    /// The circuit's gates (the steps listed above), with a workspace of
    /// 14 * n + 2 qubits allocated around them.
    pub fn forward_gates(
        &self,
        in_x: usize,
        in_y: usize,
        in_z: usize,
        out_x: usize,
        out_y: usize,
        out_z: usize,
        workspace_offset: usize,
        counter: &mut ResourceCounter,
    ) -> (r: Vec<Gate>)
        requires
            ctx_ok(ec_double_jacobian_ctx(self.n as int, workspace_offset as int)),
            in_x + self.n <= usize::MAX,
            in_y + self.n <= usize::MAX,
            in_z + self.n <= usize::MAX,
            out_x + self.n <= usize::MAX,
            out_y + self.n <= usize::MAX,
            out_z + self.n <= usize::MAX,
            workspace_offset + 14 * self.n + 2 <= usize::MAX,
            workspace_room(ec_double_jacobian_ctx(self.n as int, workspace_offset as int), ec_double_jacobian_ops(self.n as int, in_x as int, in_y as int, in_z as int, out_x as int, out_y as int, out_z as int, workspace_offset as int), *old(counter), 14 * self.n + 2),
        ensures
            r@ == ops_gates(ec_double_jacobian_ctx(self.n as int, workspace_offset as int), ec_double_jacobian_ops(self.n as int, in_x as int, in_y as int, in_z as int, out_x as int, out_y as int, out_z as int, workspace_offset as int)),
            gates_recorded(*old(counter), *final(counter), ops_gates(ec_double_jacobian_ctx(self.n as int, workspace_offset as int), ec_double_jacobian_ops(self.n as int, in_x as int, in_y as int, in_z as int, out_x as int, out_y as int, out_z as int, workspace_offset as int))),
            workspace_effect(*old(counter), *final(counter), 14 * self.n + 2, ops_effect(ec_double_jacobian_ctx(self.n as int, workspace_offset as int), ec_double_jacobian_ops(self.n as int, in_x as int, in_y as int, in_z as int, out_x as int, out_y as int, out_z as int, workspace_offset as int))),
    {
        let n = self.n;
        let ws = workspace_offset;
        let ctx = OpCtx { n, carry: ws + 11 * n, mw: ws + 11 * n + 1 };
        proof {
            assert(ctx == ec_double_jacobian_ctx(n as int, ws as int));
        }
        let mut ops: Vec<CircOp> = Vec::new();
        push_part_0(&mut ops, Ghost(ctx), n, in_x, in_y, in_z, out_x, out_y, out_z, ws);
        push_part_1(&mut ops, Ghost(ctx), n, in_x, in_y, in_z, out_x, out_y, out_z, ws);
        push_part_2(&mut ops, Ghost(ctx), n, in_x, in_y, in_z, out_x, out_y, out_z, ws);
        push_part_3(&mut ops, Ghost(ctx), n, in_x, in_y, in_z, out_x, out_y, out_z, ws);
        push_part_4(&mut ops, Ghost(ctx), n, in_x, in_y, in_z, out_x, out_y, out_z, ws);
        proof {
            assert(ops@ =~= ec_double_jacobian_ops(n as int, in_x as int, in_y as int, in_z as int, out_x as int, out_y as int, out_z as int, ws as int));
        }
        run_in_workspace(&ctx, &ops, 14 * n + 2, counter)
    }

    /// Rough resource estimate: (qubits, Toffoli gates) = (20n + 2, 2·9·n²)
    /// for 6 squarings and 3 multiplications.
    pub fn estimated_resources(&self) -> (r: (usize, usize))
        requires
            2 * 9 * (self.n * self.n) <= usize::MAX,
            20 * self.n + 2 <= usize::MAX,
        ensures
            r.0 == 20 * self.n + 2,
            r.1 == 2 * 9 * (self.n * self.n),
    {
        let muls: usize = 9;
        proof {
            assert(self.n * self.n <= 2 * 9 * (self.n * self.n)) by (nonlinear_arith);
        }
        let toffoli_per_mul = self.n * self.n;
        let qubits = 6 * self.n + 14 * self.n + 2;
        let toffoli = 2 * muls * toffoli_per_mul;
        (qubits, toffoli)
    }
}



} // verus!

