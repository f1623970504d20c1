//! Reversible modified-Jacobian elliptic-curve point doubling.
use crate::reversible::circuit_ops::{
    ctx_ok, ops_effect, ops_gates, ops_ok, push_op, run_in_workspace, workspace_effect, workspace_room,
    CircOp, OpCtx,
};
use crate::reversible::gates::Gate;
use crate::reversible::inverter::fermat_ops;
use crate::reversible::multiplier::karatsuba_total_ws;
use crate::reversible::resource_counter::{gates_recorded, ResourceCounter};
use vstd::prelude::*;

verus! {

/// The layout shared by the steps: field width, adder carry and multiplier
/// workspace.
pub open spec fn ec_double_jacobian_v3_ctx(n: int, ws: int) -> OpCtx {
    OpCtx { n: n as usize, carry: (ws + 9 * n) as usize, mw: (ws + 9 * n + 1) as usize }
}

/// The steps of the doubling: X1², M = 3X1² + aZ⁴, Y1², X1·Y1², S = 4·X1·Y1², M², X3 = M² − 2S, Y1⁴, T = 8·Y1⁴, Y3 = M·(S − X3) − T, Z3 = 2·Y1·Z1, aZ3⁴ = 2·T·aZ⁴, then the temporary S − X3 undone.
pub open spec fn ec_double_jacobian_v3_ops(n: int, in_x: int, in_y: int, in_z: int, in_az4: int, out_x: int, out_y: int, out_z: int, out_az4: int, ws: int) -> Seq<CircOp> {
    let x1_sq = ws;
    let m = ws + n;
    let y1_sq = ws + 2 * n;
    let ct = ws + 3 * n;
    let s = ws + 4 * n;
    let m_sq = ws + 5 * n;
    let y1_4 = ws + 6 * n;
    let t = ws + 7 * n;
    let temp = ws + 8 * n;
    let mw = ws + 9 * n + 1;
    seq![
        CircOp::KSq { a: (in_x) as usize, r: (x1_sq) as usize },
        CircOp::Add { a: (x1_sq) as usize, b: (m) as usize },
        CircOp::Add { a: (x1_sq) as usize, b: (m) as usize },
        CircOp::Add { a: (x1_sq) as usize, b: (m) as usize },
        CircOp::Add { a: (in_az4) as usize, b: (m) as usize },
        CircOp::KSq { a: (in_y) as usize, r: (y1_sq) as usize },
        CircOp::KMul { a: (in_x) as usize, b: (y1_sq) as usize, r: (ct) as usize },
        CircOp::Add { a: (ct) as usize, b: (s) as usize },
        CircOp::Add { a: (ct) as usize, b: (s) as usize },
        CircOp::Add { a: (ct) as usize, b: (s) as usize },
        CircOp::Add { a: (ct) as usize, b: (s) as usize },
        CircOp::KSq { a: (m) as usize, r: (m_sq) as usize },
        CircOp::Copy { src: (m_sq) as usize, dst: (out_x) as usize },
        CircOp::Sub { a: (s) as usize, b: (out_x) as usize },
        CircOp::Sub { a: (s) as usize, b: (out_x) as usize },
        CircOp::KSq { a: (y1_sq) as usize, r: (y1_4) as usize },
        CircOp::Add { a: (y1_4) as usize, b: (t) as usize },
        CircOp::Add { a: (y1_4) as usize, b: (t) as usize },
        CircOp::Add { a: (y1_4) as usize, b: (t) as usize },
        CircOp::Add { a: (y1_4) as usize, b: (t) as usize },
        CircOp::Add { a: (y1_4) as usize, b: (t) as usize },
        CircOp::Add { a: (y1_4) as usize, b: (t) as usize },
        CircOp::Add { a: (y1_4) as usize, b: (t) as usize },
        CircOp::Add { a: (y1_4) as usize, b: (t) as usize },
        CircOp::Copy { src: (s) as usize, dst: (temp) as usize },
        CircOp::Sub { a: (out_x) as usize, b: (temp) as usize },
        CircOp::KMul { a: (m) as usize, b: (temp) as usize, r: (out_y) as usize },
        CircOp::Sub { a: (t) as usize, b: (out_y) as usize },
        CircOp::KMul { a: (in_y) as usize, b: (in_z) as usize, r: (out_z) as usize },
        CircOp::Copy { src: (out_z) as usize, dst: (mw) as usize },
        CircOp::Add { a: (mw) as usize, b: (out_z) as usize },
        CircOp::KMul { a: (t) as usize, b: (in_az4) as usize, r: (out_az4) as usize },
        CircOp::Copy { src: (out_az4) as usize, dst: (mw) as usize },
        CircOp::Add { a: (mw) as usize, b: (out_az4) as usize },
        CircOp::UnSub { a: (out_x) as usize, b: (temp) as usize },
        CircOp::CopyDesc { src: (s) as usize, dst: (temp) as usize },
    ]
}

/// Reversible modified-Jacobian point doubling: (X, Y, Z, aZ⁴) to
/// (X3, Y3, Z3, aZ3⁴), reusing the cached aZ⁴ so no squaring of Z is needed.
pub struct ReversibleJacobianDoubleV3 {
    pub n: usize,
}

/// Appends steps 0..8.
#[verifier::rlimit(40)]
fn push_part_0(ops: &mut Vec<CircOp>, Ghost(ctx): Ghost<OpCtx>, n: usize, in_x: usize, in_y: usize, in_z: usize, in_az4: usize, out_x: usize, out_y: usize, out_z: usize, out_az4: usize, ws: usize)
    requires
        ops_ok(ctx, old(ops)@),
        ctx_ok(ctx),
        ctx.n == n,
        in_x + n <= usize::MAX,
        in_y + n <= usize::MAX,
        in_z + n <= usize::MAX,
        in_az4 + n <= usize::MAX,
        out_x + n <= usize::MAX,
        out_y + n <= usize::MAX,
        out_z + n <= usize::MAX,
        out_az4 + n <= usize::MAX,
        ws + 12 * n + 2 <= usize::MAX,
    ensures
        final(ops)@ == old(ops)@ + {
            let x1_sq = ws;
            let m = ws + n;
            let y1_sq = ws + 2 * n;
            let ct = ws + 3 * n;
            let s = ws + 4 * n;
            let m_sq = ws + 5 * n;
            let y1_4 = ws + 6 * n;
            let t = ws + 7 * n;
            let temp = ws + 8 * n;
            let mw = ws + 9 * n + 1;
        seq![
            CircOp::KSq { a: (in_x) as usize, r: (x1_sq) as usize },
            CircOp::Add { a: (x1_sq) as usize, b: (m) as usize },
            CircOp::Add { a: (x1_sq) as usize, b: (m) as usize },
            CircOp::Add { a: (x1_sq) as usize, b: (m) as usize },
            CircOp::Add { a: (in_az4) as usize, b: (m) as usize },
            CircOp::KSq { a: (in_y) as usize, r: (y1_sq) as usize },
            CircOp::KMul { a: (in_x) as usize, b: (y1_sq) as usize, r: (ct) as usize },
            CircOp::Add { a: (ct) as usize, b: (s) as usize },
        ]
        },
        ops_ok(ctx, final(ops)@),
{
    let x1_sq: usize = ws;
    let m: usize = ws + n;
    let y1_sq: usize = ws + 2 * n;
    let ct: usize = ws + 3 * n;
    let s: usize = ws + 4 * n;
    let m_sq: usize = ws + 5 * n;
    let y1_4: usize = ws + 6 * n;
    let t: usize = ws + 7 * n;
    let temp: usize = ws + 8 * n;
    let mw: usize = ws + 9 * n + 1;
    let ghost o0 = ops@;
    proof {
        reveal_with_fuel(crate::reversible::circuit_ops::op_ok, 2);
    }
    push_op(ops, Ghost(ctx), CircOp::KSq { a: in_x, r: x1_sq });
    push_op(ops, Ghost(ctx), CircOp::Add { a: x1_sq, b: m });
    push_op(ops, Ghost(ctx), CircOp::Add { a: x1_sq, b: m });
    push_op(ops, Ghost(ctx), CircOp::Add { a: x1_sq, b: m });
    push_op(ops, Ghost(ctx), CircOp::Add { a: in_az4, b: m });
    push_op(ops, Ghost(ctx), CircOp::KSq { a: in_y, r: y1_sq });
    push_op(ops, Ghost(ctx), CircOp::KMul { a: in_x, b: y1_sq, r: ct });
    push_op(ops, Ghost(ctx), CircOp::Add { a: ct, b: s });
    proof {
        assert(ops@ =~= o0 + {
            let x1_sq = ws;
            let m = ws + n;
            let y1_sq = ws + 2 * n;
            let ct = ws + 3 * n;
            let s = ws + 4 * n;
            let m_sq = ws + 5 * n;
            let y1_4 = ws + 6 * n;
            let t = ws + 7 * n;
            let temp = ws + 8 * n;
            let mw = ws + 9 * n + 1;
        seq![
            CircOp::KSq { a: (in_x) as usize, r: (x1_sq) as usize },
            CircOp::Add { a: (x1_sq) as usize, b: (m) as usize },
            CircOp::Add { a: (x1_sq) as usize, b: (m) as usize },
            CircOp::Add { a: (x1_sq) as usize, b: (m) as usize },
            CircOp::Add { a: (in_az4) as usize, b: (m) as usize },
            CircOp::KSq { a: (in_y) as usize, r: (y1_sq) as usize },
            CircOp::KMul { a: (in_x) as usize, b: (y1_sq) as usize, r: (ct) as usize },
            CircOp::Add { a: (ct) as usize, b: (s) as usize },
        ]
        });
    }
}

/// Appends steps 8..16.
#[verifier::rlimit(40)]
fn push_part_1(ops: &mut Vec<CircOp>, Ghost(ctx): Ghost<OpCtx>, n: usize, in_x: usize, in_y: usize, in_z: usize, in_az4: usize, out_x: usize, out_y: usize, out_z: usize, out_az4: usize, ws: usize)
    requires
        ops_ok(ctx, old(ops)@),
        ctx_ok(ctx),
        ctx.n == n,
        in_x + n <= usize::MAX,
        in_y + n <= usize::MAX,
        in_z + n <= usize::MAX,
        in_az4 + n <= usize::MAX,
        out_x + n <= usize::MAX,
        out_y + n <= usize::MAX,
        out_z + n <= usize::MAX,
        out_az4 + n <= usize::MAX,
        ws + 12 * n + 2 <= usize::MAX,
    ensures
        final(ops)@ == old(ops)@ + {
            let x1_sq = ws;
            let m = ws + n;
            let y1_sq = ws + 2 * n;
            let ct = ws + 3 * n;
            let s = ws + 4 * n;
            let m_sq = ws + 5 * n;
            let y1_4 = ws + 6 * n;
            let t = ws + 7 * n;
            let temp = ws + 8 * n;
            let mw = ws + 9 * n + 1;
        seq![
            CircOp::Add { a: (ct) as usize, b: (s) as usize },
            CircOp::Add { a: (ct) as usize, b: (s) as usize },
            CircOp::Add { a: (ct) as usize, b: (s) as usize },
            CircOp::KSq { a: (m) as usize, r: (m_sq) as usize },
            CircOp::Copy { src: (m_sq) as usize, dst: (out_x) as usize },
            CircOp::Sub { a: (s) as usize, b: (out_x) as usize },
            CircOp::Sub { a: (s) as usize, b: (out_x) as usize },
            CircOp::KSq { a: (y1_sq) as usize, r: (y1_4) as usize },
        ]
        },
        ops_ok(ctx, final(ops)@),
{
    let x1_sq: usize = ws;
    let m: usize = ws + n;
    let y1_sq: usize = ws + 2 * n;
    let ct: usize = ws + 3 * n;
    let s: usize = ws + 4 * n;
    let m_sq: usize = ws + 5 * n;
    let y1_4: usize = ws + 6 * n;
    let t: usize = ws + 7 * n;
    let temp: usize = ws + 8 * n;
    let mw: usize = ws + 9 * n + 1;
    let ghost o0 = ops@;
    proof {
        reveal_with_fuel(crate::reversible::circuit_ops::op_ok, 2);
    }
    push_op(ops, Ghost(ctx), CircOp::Add { a: ct, b: s });
    push_op(ops, Ghost(ctx), CircOp::Add { a: ct, b: s });
    push_op(ops, Ghost(ctx), CircOp::Add { a: ct, b: s });
    push_op(ops, Ghost(ctx), CircOp::KSq { a: m, r: m_sq });
    push_op(ops, Ghost(ctx), CircOp::Copy { src: m_sq, dst: out_x });
    push_op(ops, Ghost(ctx), CircOp::Sub { a: s, b: out_x });
    push_op(ops, Ghost(ctx), CircOp::Sub { a: s, b: out_x });
    push_op(ops, Ghost(ctx), CircOp::KSq { a: y1_sq, r: y1_4 });
    proof {
        assert(ops@ =~= o0 + {
            let x1_sq = ws;
            let m = ws + n;
            let y1_sq = ws + 2 * n;
            let ct = ws + 3 * n;
            let s = ws + 4 * n;
            let m_sq = ws + 5 * n;
            let y1_4 = ws + 6 * n;
            let t = ws + 7 * n;
            let temp = ws + 8 * n;
            let mw = ws + 9 * n + 1;
        seq![
            CircOp::Add { a: (ct) as usize, b: (s) as usize },
            CircOp::Add { a: (ct) as usize, b: (s) as usize },
            CircOp::Add { a: (ct) as usize, b: (s) as usize },
            CircOp::KSq { a: (m) as usize, r: (m_sq) as usize },
            CircOp::Copy { src: (m_sq) as usize, dst: (out_x) as usize },
            CircOp::Sub { a: (s) as usize, b: (out_x) as usize },
            CircOp::Sub { a: (s) as usize, b: (out_x) as usize },
            CircOp::KSq { a: (y1_sq) as usize, r: (y1_4) as usize },
        ]
        });
    }
}

/// Appends steps 16..24.
#[verifier::rlimit(40)]
fn push_part_2(ops: &mut Vec<CircOp>, Ghost(ctx): Ghost<OpCtx>, n: usize, in_x: usize, in_y: usize, in_z: usize, in_az4: usize, out_x: usize, out_y: usize, out_z: usize, out_az4: usize, ws: usize)
    requires
        ops_ok(ctx, old(ops)@),
        ctx_ok(ctx),
        ctx.n == n,
        in_x + n <= usize::MAX,
        in_y + n <= usize::MAX,
        in_z + n <= usize::MAX,
        in_az4 + n <= usize::MAX,
        out_x + n <= usize::MAX,
        out_y + n <= usize::MAX,
        out_z + n <= usize::MAX,
        out_az4 + n <= usize::MAX,
        ws + 12 * n + 2 <= usize::MAX,
    ensures
        final(ops)@ == old(ops)@ + {
            let x1_sq = ws;
            let m = ws + n;
            let y1_sq = ws + 2 * n;
            let ct = ws + 3 * n;
            let s = ws + 4 * n;
            let m_sq = ws + 5 * n;
            let y1_4 = ws + 6 * n;
            let t = ws + 7 * n;
            let temp = ws + 8 * n;
            let mw = ws + 9 * n + 1;
        seq![
            CircOp::Add { a: (y1_4) as usize, b: (t) as usize },
            CircOp::Add { a: (y1_4) as usize, b: (t) as usize },
            CircOp::Add { a: (y1_4) as usize, b: (t) as usize },
            CircOp::Add { a: (y1_4) as usize, b: (t) as usize },
            CircOp::Add { a: (y1_4) as usize, b: (t) as usize },
            CircOp::Add { a: (y1_4) as usize, b: (t) as usize },
            CircOp::Add { a: (y1_4) as usize, b: (t) as usize },
            CircOp::Add { a: (y1_4) as usize, b: (t) as usize },
        ]
        },
        ops_ok(ctx, final(ops)@),
{
    let x1_sq: usize = ws;
    let m: usize = ws + n;
    let y1_sq: usize = ws + 2 * n;
    let ct: usize = ws + 3 * n;
    let s: usize = ws + 4 * n;
    let m_sq: usize = ws + 5 * n;
    let y1_4: usize = ws + 6 * n;
    let t: usize = ws + 7 * n;
    let temp: usize = ws + 8 * n;
    let mw: usize = ws + 9 * n + 1;
    let ghost o0 = ops@;
    proof {
        reveal_with_fuel(crate::reversible::circuit_ops::op_ok, 2);
    }
    push_op(ops, Ghost(ctx), CircOp::Add { a: y1_4, b: t });
    push_op(ops, Ghost(ctx), CircOp::Add { a: y1_4, b: t });
    push_op(ops, Ghost(ctx), CircOp::Add { a: y1_4, b: t });
    push_op(ops, Ghost(ctx), CircOp::Add { a: y1_4, b: t });
    push_op(ops, Ghost(ctx), CircOp::Add { a: y1_4, b: t });
    push_op(ops, Ghost(ctx), CircOp::Add { a: y1_4, b: t });
    push_op(ops, Ghost(ctx), CircOp::Add { a: y1_4, b: t });
    push_op(ops, Ghost(ctx), CircOp::Add { a: y1_4, b: t });
    proof {
        assert(ops@ =~= o0 + {
            let x1_sq = ws;
            let m = ws + n;
            let y1_sq = ws + 2 * n;
            let ct = ws + 3 * n;
            let s = ws + 4 * n;
            let m_sq = ws + 5 * n;
            let y1_4 = ws + 6 * n;
            let t = ws + 7 * n;
            let temp = ws + 8 * n;
            let mw = ws + 9 * n + 1;
        seq![
            CircOp::Add { a: (y1_4) as usize, b: (t) as usize },
            CircOp::Add { a: (y1_4) as usize, b: (t) as usize },
            CircOp::Add { a: (y1_4) as usize, b: (t) as usize },
            CircOp::Add { a: (y1_4) as usize, b: (t) as usize },
            CircOp::Add { a: (y1_4) as usize, b: (t) as usize },
            CircOp::Add { a: (y1_4) as usize, b: (t) as usize },
            CircOp::Add { a: (y1_4) as usize, b: (t) as usize },
            CircOp::Add { a: (y1_4) as usize, b: (t) as usize },
        ]
        });
    }
}

/// Appends steps 24..32.
#[verifier::rlimit(40)]
fn push_part_3(ops: &mut Vec<CircOp>, Ghost(ctx): Ghost<OpCtx>, n: usize, in_x: usize, in_y: usize, in_z: usize, in_az4: usize, out_x: usize, out_y: usize, out_z: usize, out_az4: usize, ws: usize)
    requires
        ops_ok(ctx, old(ops)@),
        ctx_ok(ctx),
        ctx.n == n,
        in_x + n <= usize::MAX,
        in_y + n <= usize::MAX,
        in_z + n <= usize::MAX,
        in_az4 + n <= usize::MAX,
        out_x + n <= usize::MAX,
        out_y + n <= usize::MAX,
        out_z + n <= usize::MAX,
        out_az4 + n <= usize::MAX,
        ws + 12 * n + 2 <= usize::MAX,
    ensures
        final(ops)@ == old(ops)@ + {
            let x1_sq = ws;
            let m = ws + n;
            let y1_sq = ws + 2 * n;
            let ct = ws + 3 * n;
            let s = ws + 4 * n;
            let m_sq = ws + 5 * n;
            let y1_4 = ws + 6 * n;
            let t = ws + 7 * n;
            let temp = ws + 8 * n;
            let mw = ws + 9 * n + 1;
        seq![
            CircOp::Copy { src: (s) as usize, dst: (temp) as usize },
            CircOp::Sub { a: (out_x) as usize, b: (temp) as usize },
            CircOp::KMul { a: (m) as usize, b: (temp) as usize, r: (out_y) as usize },
            CircOp::Sub { a: (t) as usize, b: (out_y) as usize },
            CircOp::KMul { a: (in_y) as usize, b: (in_z) as usize, r: (out_z) as usize },
            CircOp::Copy { src: (out_z) as usize, dst: (mw) as usize },
            CircOp::Add { a: (mw) as usize, b: (out_z) as usize },
            CircOp::KMul { a: (t) as usize, b: (in_az4) as usize, r: (out_az4) as usize },
        ]
        },
        ops_ok(ctx, final(ops)@),
{
    let x1_sq: usize = ws;
    let m: usize = ws + n;
    let y1_sq: usize = ws + 2 * n;
    let ct: usize = ws + 3 * n;
    let s: usize = ws + 4 * n;
    let m_sq: usize = ws + 5 * n;
    let y1_4: usize = ws + 6 * n;
    let t: usize = ws + 7 * n;
    let temp: usize = ws + 8 * n;
    let mw: usize = ws + 9 * n + 1;
    let ghost o0 = ops@;
    proof {
        reveal_with_fuel(crate::reversible::circuit_ops::op_ok, 2);
    }
    push_op(ops, Ghost(ctx), CircOp::Copy { src: s, dst: temp });
    push_op(ops, Ghost(ctx), CircOp::Sub { a: out_x, b: temp });
    push_op(ops, Ghost(ctx), CircOp::KMul { a: m, b: temp, r: out_y });
    push_op(ops, Ghost(ctx), CircOp::Sub { a: t, b: out_y });
    push_op(ops, Ghost(ctx), CircOp::KMul { a: in_y, b: in_z, r: out_z });
    push_op(ops, Ghost(ctx), CircOp::Copy { src: out_z, dst: mw });
    push_op(ops, Ghost(ctx), CircOp::Add { a: mw, b: out_z });
    push_op(ops, Ghost(ctx), CircOp::KMul { a: t, b: in_az4, r: out_az4 });
    proof {
        assert(ops@ =~= o0 + {
            let x1_sq = ws;
            let m = ws + n;
            let y1_sq = ws + 2 * n;
            let ct = ws + 3 * n;
            let s = ws + 4 * n;
            let m_sq = ws + 5 * n;
            let y1_4 = ws + 6 * n;
            let t = ws + 7 * n;
            let temp = ws + 8 * n;
            let mw = ws + 9 * n + 1;
        seq![
            CircOp::Copy { src: (s) as usize, dst: (temp) as usize },
            CircOp::Sub { a: (out_x) as usize, b: (temp) as usize },
            CircOp::KMul { a: (m) as usize, b: (temp) as usize, r: (out_y) as usize },
            CircOp::Sub { a: (t) as usize, b: (out_y) as usize },
            CircOp::KMul { a: (in_y) as usize, b: (in_z) as usize, r: (out_z) as usize },
            CircOp::Copy { src: (out_z) as usize, dst: (mw) as usize },
            CircOp::Add { a: (mw) as usize, b: (out_z) as usize },
            CircOp::KMul { a: (t) as usize, b: (in_az4) as usize, r: (out_az4) as usize },
        ]
        });
    }
}

/// Appends steps 32..36.
#[verifier::rlimit(40)]
fn push_part_4(ops: &mut Vec<CircOp>, Ghost(ctx): Ghost<OpCtx>, n: usize, in_x: usize, in_y: usize, in_z: usize, in_az4: usize, out_x: usize, out_y: usize, out_z: usize, out_az4: usize, ws: usize)
    requires
        ops_ok(ctx, old(ops)@),
        ctx_ok(ctx),
        ctx.n == n,
        in_x + n <= usize::MAX,
        in_y + n <= usize::MAX,
        in_z + n <= usize::MAX,
        in_az4 + n <= usize::MAX,
        out_x + n <= usize::MAX,
        out_y + n <= usize::MAX,
        out_z + n <= usize::MAX,
        out_az4 + n <= usize::MAX,
        ws + 12 * n + 2 <= usize::MAX,
    ensures
        final(ops)@ == old(ops)@ + {
            let x1_sq = ws;
            let m = ws + n;
            let y1_sq = ws + 2 * n;
            let ct = ws + 3 * n;
            let s = ws + 4 * n;
            let m_sq = ws + 5 * n;
            let y1_4 = ws + 6 * n;
            let t = ws + 7 * n;
            let temp = ws + 8 * n;
            let mw = ws + 9 * n + 1;
        seq![
            CircOp::Copy { src: (out_az4) as usize, dst: (mw) as usize },
            CircOp::Add { a: (mw) as usize, b: (out_az4) as usize },
            CircOp::UnSub { a: (out_x) as usize, b: (temp) as usize },
            CircOp::CopyDesc { src: (s) as usize, dst: (temp) as usize },
        ]
        },
        ops_ok(ctx, final(ops)@),
{
    let x1_sq: usize = ws;
    let m: usize = ws + n;
    let y1_sq: usize = ws + 2 * n;
    let ct: usize = ws + 3 * n;
    let s: usize = ws + 4 * n;
    let m_sq: usize = ws + 5 * n;
    let y1_4: usize = ws + 6 * n;
    let t: usize = ws + 7 * n;
    let temp: usize = ws + 8 * n;
    let mw: usize = ws + 9 * n + 1;
    let ghost o0 = ops@;
    proof {
        reveal_with_fuel(crate::reversible::circuit_ops::op_ok, 2);
    }
    push_op(ops, Ghost(ctx), CircOp::Copy { src: out_az4, dst: mw });
    push_op(ops, Ghost(ctx), CircOp::Add { a: mw, b: out_az4 });
    push_op(ops, Ghost(ctx), CircOp::UnSub { a: out_x, b: temp });
    push_op(ops, Ghost(ctx), CircOp::CopyDesc { src: s, dst: temp });
    proof {
        assert(ops@ =~= o0 + {
            let x1_sq = ws;
            let m = ws + n;
            let y1_sq = ws + 2 * n;
            let ct = ws + 3 * n;
            let s = ws + 4 * n;
            let m_sq = ws + 5 * n;
            let y1_4 = ws + 6 * n;
            let t = ws + 7 * n;
            let temp = ws + 8 * n;
            let mw = ws + 9 * n + 1;
        seq![
            CircOp::Copy { src: (out_az4) as usize, dst: (mw) as usize },
            CircOp::Add { a: (mw) as usize, b: (out_az4) as usize },
            CircOp::UnSub { a: (out_x) as usize, b: (temp) as usize },
            CircOp::CopyDesc { src: (s) as usize, dst: (temp) as usize },
        ]
        });
    }
}

impl ReversibleJacobianDoubleV3 {
    pub fn new(n: usize) -> (r: Self)
        ensures
            r.n == n,
    {
        Self { n }
    }

    /// The circuit's gates (the steps listed above), with a workspace of
    /// 12 * n + 2 qubits allocated around them.
    pub fn forward_gates(
        &self,
        in_x: usize,
        in_y: usize,
        in_z: usize,
        in_az4: usize,
        out_x: usize,
        out_y: usize,
        out_z: usize,
        out_az4: usize,
        workspace_offset: usize,
        counter: &mut ResourceCounter,
    ) -> (r: Vec<Gate>)
        requires
            ctx_ok(ec_double_jacobian_v3_ctx(self.n as int, workspace_offset as int)),
            in_x + self.n <= usize::MAX,
            in_y + self.n <= usize::MAX,
            in_z + self.n <= usize::MAX,
            in_az4 + self.n <= usize::MAX,
            out_x + self.n <= usize::MAX,
            out_y + self.n <= usize::MAX,
            out_z + self.n <= usize::MAX,
            out_az4 + self.n <= usize::MAX,
            workspace_offset + 12 * self.n + 2 <= usize::MAX,
            workspace_room(ec_double_jacobian_v3_ctx(self.n as int, workspace_offset as int), ec_double_jacobian_v3_ops(self.n as int, in_x as int, in_y as int, in_z as int, in_az4 as int, out_x as int, out_y as int, out_z as int, out_az4 as int, workspace_offset as int), *old(counter), 12 * self.n + 2),
        ensures
            r@ == ops_gates(ec_double_jacobian_v3_ctx(self.n as int, workspace_offset as int), ec_double_jacobian_v3_ops(self.n as int, in_x as int, in_y as int, in_z as int, in_az4 as int, out_x as int, out_y as int, out_z as int, out_az4 as int, workspace_offset as int)),
            gates_recorded(*old(counter), *final(counter), ops_gates(ec_double_jacobian_v3_ctx(self.n as int, workspace_offset as int), ec_double_jacobian_v3_ops(self.n as int, in_x as int, in_y as int, in_z as int, in_az4 as int, out_x as int, out_y as int, out_z as int, out_az4 as int, workspace_offset as int))),
            workspace_effect(*old(counter), *final(counter), 12 * self.n + 2, ops_effect(ec_double_jacobian_v3_ctx(self.n as int, workspace_offset as int), ec_double_jacobian_v3_ops(self.n as int, in_x as int, in_y as int, in_z as int, in_az4 as int, out_x as int, out_y as int, out_z as int, out_az4 as int, workspace_offset as int))),
    {
        let n = self.n;
        let ws = workspace_offset;
        let ctx = OpCtx { n, carry: ws + 9 * n, mw: ws + 9 * n + 1 };
        proof {
            assert(ctx == ec_double_jacobian_v3_ctx(n as int, ws as int));
        }
        let mut ops: Vec<CircOp> = Vec::new();
        push_part_0(&mut ops, Ghost(ctx), n, in_x, in_y, in_z, in_az4, out_x, out_y, out_z, out_az4, ws);
        push_part_1(&mut ops, Ghost(ctx), n, in_x, in_y, in_z, in_az4, out_x, out_y, out_z, out_az4, ws);
        push_part_2(&mut ops, Ghost(ctx), n, in_x, in_y, in_z, in_az4, out_x, out_y, out_z, out_az4, ws);
        push_part_3(&mut ops, Ghost(ctx), n, in_x, in_y, in_z, in_az4, out_x, out_y, out_z, out_az4, ws);
        push_part_4(&mut ops, Ghost(ctx), n, in_x, in_y, in_z, in_az4, out_x, out_y, out_z, out_az4, ws);
        proof {
            assert(ops@ =~= ec_double_jacobian_v3_ops(n as int, in_x as int, in_y as int, in_z as int, in_az4 as int, out_x as int, out_y as int, out_z as int, out_az4 as int, ws as int));
        }
        run_in_workspace(&ctx, &ops, 12 * n + 2, counter)
    }

    /// Workspace qubits: 12n + 2.
    pub fn workspace_size(n: usize) -> (r: usize)
        requires
            12 * n + 2 <= usize::MAX,
        ensures
            r == 12 * n + 2,
    {
        12 * n + 2
    }

    /// Rough resource estimate: (qubits, Toffoli gates) = (8n + 12n + 2,
    /// 2·8·n²) for 8 multiplications.
    pub fn estimated_resources(&self) -> (r: (usize, usize))
        requires
            2 * 8 * (self.n * self.n) <= usize::MAX,
            20 * self.n + 2 <= usize::MAX,
        ensures
            r.0 == 8 * self.n + 12 * self.n + 2,
            r.1 == 2 * 8 * (self.n * self.n),
    {
        let muls: usize = 8;
        proof {
            assert(self.n * self.n <= 2 * 8 * (self.n * self.n)) by (nonlinear_arith);
        }
        let toffoli_per_mul = self.n * self.n;
        let qubits = 8 * self.n + Self::workspace_size(self.n);
        let toffoli = 2 * muls * toffoli_per_mul;
        (qubits, toffoli)
    }
}



} // verus!

