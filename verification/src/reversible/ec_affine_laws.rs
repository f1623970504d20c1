//! What the affine point addition and doubling compute, step by step on
//! classical bit vectors: the coordinates they write from λ, λ² and the
//! input coordinates.
use crate::reversible::adder::{cuccaro_gates, goldilocks_p, not_gate};
use crate::reversible::adder_laws::{adder_layout, bit_int, lemma_cuccaro_adds};
use crate::reversible::blocks::{concat_map, copy_gates, lemma_concat_map_prefix, not_step};
use crate::reversible::circuit_ops::{lemma_ops_gates_concat, ops_gates, CircOp};
use crate::reversible::ec_add_affine::{ec_add_affine_ctx, ec_add_affine_ops};
use crate::reversible::ec_double_affine::{ec_double_affine_ctx, ec_double_affine_ops};
use crate::reversible::gates::{apply_gates, lemma_apply_gates_concat};
use crate::reversible::modmul_laws::{lemma_copy_effect, lemma_modmul_computes_product};
use crate::reversible::modular_adder_laws::reg;
use crate::reversible::multiplier_laws::ranges_apart;
use crate::reversible::register::bits_value;
use vstd::arithmetic::power2::pow2;
use vstd::prelude::*;

verus! {

/// Where the gates that write x3 begin: after the differences, the
/// inversion, λ and λ².
pub open spec fn ec_add_x3_start(n: int, x1: int, y1: int, x2: int, y2: int, x3: int, y3: int, ws: int) -> int {
    ops_gates(ec_add_affine_ctx(n, ws), ec_add_affine_ops(n, x1, y1, x2, y2, x3, y3, ws).take(13)).len() as int
}

/// The affine addition writes x3 ← x3 ⊕ λ² ⊕ x1 ⊕ x2: its 3n gates from
/// `ec_add_x3_start` flip each bit of x3 by the bits of λ² (the register at
/// ws + 4n), of x1 and of x2 at that position, and leave every other qubit
/// as it was; so x3 depends on both input x-coordinates.
#[verifier::rlimit(60)]
#[verifier::spinoff_prover]
pub proof fn lemma_ec_add_x3(
    n: int,
    x1: int,
    y1: int,
    x2: int,
    y2: int,
    x3: int,
    y3: int,
    ws: int,
    bits: Seq<bool>,
)
    requires
        n >= 1,
        0 <= x1 && x1 + n <= bits.len(),
        0 <= x2 && x2 + n <= bits.len(),
        0 <= x3 && x3 + n <= bits.len(),
        0 <= ws && ws + 5 * n <= bits.len(),
        bits.len() <= usize::MAX,
        ranges_apart(x3, n, x1, n),
        ranges_apart(x3, n, x2, n),
        ranges_apart(x3, n, ws + 4 * n, n),
    ensures
        ({
            let g = ops_gates(ec_add_affine_ctx(n, ws), ec_add_affine_ops(n, x1, y1, x2, y2, x3, y3, ws));
            let k = ec_add_x3_start(n, x1, y1, x2, y2, x3, y3, ws);
            let out = apply_gates(g.subrange(k, k + 3 * n), bits);
            &&& 0 <= k && k + 3 * n <= g.len()
            &&& out.len() == bits.len()
            &&& forall|i: int|
                0 <= i < n ==> #[trigger] out[x3 + i] == (((bits[x3 + i] != bits[ws + 4 * n + i]) != bits[x1 + i])
                    != bits[x2 + i])
            &&& forall|t: int| 0 <= t < bits.len() && !(x3 <= t < x3 + n) ==> #[trigger] out[t] == bits[t]
        }),
{
    let ctx = ec_add_affine_ctx(n, ws);
    let ops = ec_add_affine_ops(n, x1, y1, x2, y2, x3, y3, ws);
    let lsq = ws + 4 * n;
    let c1 = CircOp::Copy { src: lsq as usize, dst: x3 as usize };
    let c2 = CircOp::Copy { src: x1 as usize, dst: x3 as usize };
    let c3 = CircOp::Copy { src: x2 as usize, dst: x3 as usize };
    assert(ops.len() == 35);
    assert(ops.subrange(13, 16) =~= seq![c1, c2, c3]);
    assert(ops =~= ops.take(13) + ops.subrange(13, 16) + ops.skip(16));
    lemma_ops_gates_concat(ctx, ops.take(13) + ops.subrange(13, 16), ops.skip(16));
    lemma_ops_gates_concat(ctx, ops.take(13), ops.subrange(13, 16));
    assert(seq![c1, c2, c3] =~= seq![c1] + seq![c2] + seq![c3]);
    lemma_ops_gates_concat(ctx, seq![c1] + seq![c2], seq![c3]);
    lemma_ops_gates_concat(ctx, seq![c1], seq![c2]);
    reveal_with_fuel(ops_gates, 2);
    assert(seq![c1].drop_last() =~= Seq::<CircOp>::empty());
    assert(seq![c2].drop_last() =~= Seq::<CircOp>::empty());
    assert(seq![c3].drop_last() =~= Seq::<CircOp>::empty());
    let g1 = copy_gates(lsq, x3, n);
    let g2 = copy_gates(x1, x3, n);
    let g3 = copy_gates(x2, x3, n);
    assert(ops_gates(ctx, seq![c1]) =~= g1);
    assert(ops_gates(ctx, seq![c2]) =~= g2);
    assert(ops_gates(ctx, seq![c3]) =~= g3);
    crate::reversible::blocks::lemma_block_lens(lsq, x3, 0, n);
    crate::reversible::blocks::lemma_block_lens(x1, x3, 0, n);
    crate::reversible::blocks::lemma_block_lens(x2, x3, 0, n);
    let pre = ops_gates(ctx, ops.take(13));
    let g = ops_gates(ctx, ops);
    assert(g == pre + (g1 + g2 + g3) + ops_gates(ctx, ops.skip(16)));
    let k = pre.len() as int;
    assert(g.subrange(k, k + 3 * n) =~= g1 + g2 + g3);
    lemma_apply_gates_concat(g1 + g2, g3, bits);
    lemma_apply_gates_concat(g1, g2, bits);
    lemma_copy_effect(bits, lsq, x3, n);
    let s1 = apply_gates(g1, bits);
    lemma_copy_effect(s1, x1, x3, n);
    let s2 = apply_gates(g2, s1);
    lemma_copy_effect(s2, x2, x3, n);
    let out = apply_gates(g3, s2);
    assert forall|i: int| 0 <= i < n implies #[trigger] out[x3 + i] == (((bits[x3 + i] != bits[lsq + i]) != bits[x1
        + i]) != bits[x2 + i]) by {
        assert(s1[x1 + i] == bits[x1 + i]);
        assert(s2[x2 + i] == s1[x2 + i]);
        assert(s1[x2 + i] == bits[x2 + i]);
    }
}

/// The steps of the affine addition that write y3: temp ← x1 ⊕ x3,
/// y3 ← λ·temp mod p, y3 ^= y1.
pub open spec fn ec_add_y3_steps(x1: int, y1: int, x2: int, y2: int, x3: int, y3: int, ws: int) -> Seq<CircOp> {
    ec_add_affine_ops(64, x1, y1, x2, y2, x3, y3, ws).subrange(16, 20)
}

/// For 64-bit coordinates the affine addition writes y3 ⊕ y1 = λ·(x1 ⊕ x3)
/// mod p: its gates from the start of those steps, applied to bits with a
/// zero temp register (ws + 5n), a zero y3 and a zero multiplier workspace
/// (ws + 6n, 322 qubits), leave in y3 the bits whose exclusive or with y1
/// is the product modulo the Goldilocks prime of λ (the register at ws + 3n)
/// and x1 ⊕ x3.
#[verifier::rlimit(60)]
#[verifier::spinoff_prover]
pub proof fn lemma_ec_add_y3(
    x1: int,
    y1: int,
    x2: int,
    y2: int,
    x3: int,
    y3: int,
    ws: int,
    bits: Seq<bool>,
)
    requires
        0 <= x1 && x1 + 64 <= bits.len(),
        0 <= y1 && y1 + 64 <= bits.len(),
        0 <= x3 && x3 + 64 <= bits.len(),
        0 <= y3 && y3 + 64 <= bits.len(),
        0 <= ws && ws + 706 <= bits.len(),
        bits.len() <= usize::MAX,
        ranges_apart(x1, 64, ws + 320, 64),
        ranges_apart(x3, 64, ws + 320, 64),
        ranges_apart(y3, 64, ws + 192, 64),
        ranges_apart(y3, 64, ws + 320, 64),
        ranges_apart(y3, 64, ws + 384, 322),
        ranges_apart(y3, 64, y1, 64),
        ranges_apart(y1, 64, ws + 320, 64),
        forall|i: int| 0 <= i < 64 ==> !#[trigger] bits[ws + 320 + i],
        forall|i: int| 0 <= i < 64 ==> !#[trigger] bits[y3 + i],
        forall|i: int| 0 <= i < 322 ==> !#[trigger] bits[ws + 384 + i],
    ensures
        ({
            let ctx = ec_add_affine_ctx(64, ws);
            let ops = ec_add_affine_ops(64, x1, y1, x2, y2, x3, y3, ws);
            let g = ops_gates(ctx, ops);
            let k = ops_gates(ctx, ops.take(16)).len() as int;
            let m = ops_gates(ctx, ec_add_y3_steps(x1, y1, x2, y2, x3, y3, ws)).len() as int;
            let out = apply_gates(g.subrange(k, k + m), bits);
            &&& 0 <= k && k + m <= g.len()
            &&& bits_value(Seq::new(64, |i: int| out[y3 + i] != bits[y1 + i])) == (reg(bits, ws + 192, 64)
                * bits_value(Seq::new(64, |i: int| bits[x1 + i] != bits[x3 + i]))) % (goldilocks_p() as int)
        }),
{
    let n = 64int;
    let ctx = ec_add_affine_ctx(n, ws);
    let ops = ec_add_affine_ops(n, x1, y1, x2, y2, x3, y3, ws);
    let lam = ws + 3 * n;
    let temp = ws + 5 * n;
    let mw = ws + 6 * n;
    let t1 = CircOp::Copy { src: x1 as usize, dst: temp as usize };
    let t2 = CircOp::Copy { src: x3 as usize, dst: temp as usize };
    let sm = CircOp::SMul { a: lam as usize, b: temp as usize, r: y3 as usize };
    let cy = CircOp::Copy { src: y1 as usize, dst: y3 as usize };
    let seg = ec_add_y3_steps(x1, y1, x2, y2, x3, y3, ws);
    assert(ops.len() == 35);
    assert(seg =~= seq![t1, t2, sm, cy]);
    assert(ops =~= ops.take(16) + seg + ops.skip(20));
    lemma_ops_gates_concat(ctx, ops.take(16) + seg, ops.skip(20));
    lemma_ops_gates_concat(ctx, ops.take(16), seg);
    assert(seg =~= seq![t1] + seq![t2] + seq![sm] + seq![cy]);
    lemma_ops_gates_concat(ctx, seq![t1] + seq![t2] + seq![sm], seq![cy]);
    lemma_ops_gates_concat(ctx, seq![t1] + seq![t2], seq![sm]);
    lemma_ops_gates_concat(ctx, seq![t1], seq![t2]);
    reveal_with_fuel(ops_gates, 2);
    assert(seq![t1].drop_last() =~= Seq::<CircOp>::empty());
    assert(seq![t2].drop_last() =~= Seq::<CircOp>::empty());
    assert(seq![sm].drop_last() =~= Seq::<CircOp>::empty());
    assert(seq![cy].drop_last() =~= Seq::<CircOp>::empty());
    let g1 = copy_gates(x1, temp, n);
    let g2 = copy_gates(x3, temp, n);
    let g3 = crate::reversible::multiplier::schoolbook_modmul_gates(n, lam, temp, y3, mw);
    let g4 = copy_gates(y1, y3, n);
    assert(ops_gates(ctx, seq![t1]) =~= g1);
    assert(ops_gates(ctx, seq![t2]) =~= g2);
    assert(ops_gates(ctx, seq![sm]) =~= g3);
    assert(ops_gates(ctx, seq![cy]) =~= g4);
    let pre = ops_gates(ctx, ops.take(16));
    let g = ops_gates(ctx, ops);
    assert(ops_gates(ctx, seg) == g1 + g2 + g3 + g4);
    assert(g == pre + (g1 + g2 + g3 + g4) + ops_gates(ctx, ops.skip(20)));
    let k = pre.len() as int;
    let m = (g1 + g2 + g3 + g4).len() as int;
    assert(g.subrange(k, k + m) =~= g1 + g2 + g3 + g4);
    lemma_apply_gates_concat(g1 + g2 + g3, g4, bits);
    lemma_apply_gates_concat(g1 + g2, g3, bits);
    lemma_apply_gates_concat(g1, g2, bits);
    // temp ← x1 ⊕ x3
    lemma_copy_effect(bits, x1, temp, n);
    let s1 = apply_gates(g1, bits);
    lemma_copy_effect(s1, x3, temp, n);
    let s2 = apply_gates(g2, s1);
    let tv = Seq::new(64, |i: int| bits[x1 + i] != bits[x3 + i]);
    assert forall|i: int| 0 <= i < 64 implies #[trigger] s2.subrange(temp, temp + n)[i] == tv[i] by {
        assert(!bits[ws + 320 + i]);
        assert(s1[x3 + i] == bits[x3 + i]);
    }
    assert(s2.subrange(temp, temp + n) =~= tv);
    // y3 ← λ·temp mod p
    assert forall|i: int| 0 <= i < 64 implies !#[trigger] s2[y3 + i] by {
        assert(!bits[y3 + i]);
    }
    assert forall|i: int| 0 <= i < 322 implies !#[trigger] s2[mw + i] by {
        assert(!bits[ws + 384 + i]);
    }
    lemma_modmul_computes_product(s2, lam, temp, y3, mw);
    let s3 = apply_gates(g3, s2);
    assert(s2.subrange(lam, lam + n) =~= bits.subrange(lam, lam + n));
    // y3 ^= y1
    lemma_copy_effect(s3, y1, y3, n);
    let out = apply_gates(g4, s3);
    assert(Seq::new(64, |i: int| out[y3 + i] != bits[y1 + i]) =~= s3.subrange(y3, y3 + n)) by {
        assert forall|i: int| 0 <= i < 64 implies #[trigger] s3[y1 + i] == bits[y1 + i] by {
            assert(s3[y1 + i] == s2[y1 + i]);
            assert(s2[y1 + i] == s1[y1 + i]);
        }
    }
}

/// The gates of the doubling's first four steps: x1², its copy into the
/// numerator and two additions of x1² to it.
#[verifier::rlimit(60)]
#[verifier::spinoff_prover]
proof fn lemma_double_prefix_gates(x1: int, y1: int, x3: int, y3: int, ws: int)
    requires
        0 <= x1 && x1 + 64 <= usize::MAX,
        0 <= ws && ws + 770 <= usize::MAX,
    ensures
        ({
            let ctx = ec_double_affine_ctx(64, ws);
            let ops = ec_double_affine_ops(64, x1, y1, x3, y3, ws);
            let m = ops_gates(ctx, ops.take(4)).len() as int;
            let g2 = cuccaro_gates(64, ws, ws + 64, ws + 642);
            &&& m <= ops_gates(ctx, ops).len()
            &&& ops_gates(ctx, ops).take(m) == crate::reversible::multiplier::schoolbook_modmul_gates(
                64,
                x1,
                x1,
                ws,
                ws + 448,
            ) + copy_gates(ws, ws + 64, 64) + g2 + g2
        }),
{
    let n = 64int;
    let ctx = ec_double_affine_ctx(n, ws);
    let ops = ec_double_affine_ops(n, x1, y1, x3, y3, ws);
    let o0 = CircOp::SSq { a: x1 as usize, r: ws as usize };
    let o1 = CircOp::Copy { src: ws as usize, dst: (ws + n) as usize };
    let o2 = CircOp::Add { a: ws as usize, b: (ws + n) as usize };
    let seg = ops.take(4);
    assert(seg =~= seq![o0] + seq![o1] + seq![o2] + seq![o2]);
    assert(ops =~= seg + ops.skip(4));
    lemma_ops_gates_concat(ctx, seg, ops.skip(4));
    lemma_ops_gates_concat(ctx, seq![o0] + seq![o1] + seq![o2], seq![o2]);
    lemma_ops_gates_concat(ctx, seq![o0] + seq![o1], seq![o2]);
    lemma_ops_gates_concat(ctx, seq![o0], seq![o1]);
    reveal_with_fuel(ops_gates, 2);
    assert(seq![o0].drop_last() =~= Seq::<CircOp>::empty());
    assert(seq![o1].drop_last() =~= Seq::<CircOp>::empty());
    assert(seq![o2].drop_last() =~= Seq::<CircOp>::empty());
    let g0 = crate::reversible::multiplier::schoolbook_modmul_gates(n, x1, x1, ws, ws + 448);
    let g1 = copy_gates(ws, ws + n, n);
    let g2 = cuccaro_gates(n, ws, ws + n, ws + 642);
    assert(ops_gates(ctx, seq![o0]) =~= g0);
    assert(ops_gates(ctx, seq![o1]) =~= g1);
    assert(ops_gates(ctx, seq![o2]) =~= g2);
    let m = ops_gates(ctx, seg).len() as int;
    assert(ops_gates(ctx, seg) == g0 + g1 + g2 + g2);
    assert(ops_gates(ctx, ops).take(m) =~= g0 + g1 + g2 + g2);
}

/// x1² mod p, its copy and two additions into the numerator.
#[verifier::rlimit(60)]
#[verifier::spinoff_prover]
proof fn lemma_numerator_effect(x1: int, ws: int, bits: Seq<bool>)
    requires
        0 <= x1 && x1 + 64 <= bits.len(),
        0 <= ws && ws + 770 <= bits.len(),
        bits.len() <= usize::MAX,
        ranges_apart(x1, 64, ws, 128),
        ranges_apart(x1, 64, ws + 448, 322),
        forall|i: int| 0 <= i < 128 ==> !#[trigger] bits[ws + i],
        forall|i: int| 0 <= i < 322 ==> !#[trigger] bits[ws + 448 + i],
    ensures
        ({
            let g2 = cuccaro_gates(64, ws, ws + 64, ws + 642);
            let gs = crate::reversible::multiplier::schoolbook_modmul_gates(64, x1, x1, ws, ws + 448) + copy_gates(
                ws,
                ws + 64,
                64,
            ) + g2 + g2;
            let out = apply_gates(gs, bits);
            let sq = (reg(bits, x1, 64) * reg(bits, x1, 64)) % (goldilocks_p() as int);
            &&& reg(out, ws, 64) == sq
            &&& reg(out, ws + 64, 64) == (3 * sq) % (pow2(64) as int)
        }),
{
    let n = 64int;
    let x1sq = ws;
    let numer = ws + n;
    let mw = ws + 448;
    let carry = ws + 642;
    let g0 = crate::reversible::multiplier::schoolbook_modmul_gates(n, x1, x1, x1sq, mw);
    let g1 = copy_gates(x1sq, numer, n);
    let g2 = cuccaro_gates(n, x1sq, numer, carry);
    lemma_apply_gates_concat(g0 + g1 + g2, g2, bits);
    lemma_apply_gates_concat(g0 + g1, g2, bits);
    lemma_apply_gates_concat(g0, g1, bits);
    assert forall|i: int| 0 <= i < 64 implies !#[trigger] bits[x1sq + i] by {
        assert(!bits[ws + i]);
    }
    assert forall|i: int| 0 <= i < 322 implies !#[trigger] bits[mw + i] by {
        assert(!bits[ws + 448 + i]);
    }
    lemma_modmul_computes_product(bits, x1, x1, x1sq, mw);
    let s1 = apply_gates(g0, bits);
    let p = goldilocks_p() as int;
    let sq = (reg(bits, x1, 64) * reg(bits, x1, 64)) % p;
    lemma_copy_effect(s1, x1sq, numer, n);
    let s2 = apply_gates(g1, s1);
    assert forall|i: int| 0 <= i < 64 implies #[trigger] s2.subrange(numer, numer + n)[i] == s1.subrange(
        x1sq,
        x1sq + n,
    )[i] by {
        assert(!bits[ws + (64 + i)]);
        assert(s1[numer + i] == bits[numer + i]);
    }
    assert(s2.subrange(numer, numer + n) =~= s1.subrange(x1sq, x1sq + n));
    assert(s2.subrange(x1sq, x1sq + n) =~= s1.subrange(x1sq, x1sq + n));
    assert(!s2[carry]) by {
        assert(!bits[ws + 448 + 194]);
    }
    let m64 = pow2(64) as int;
    vstd::arithmetic::power2::lemma2_to64_rest();
    assert(adder_layout(n, x1sq, numer, carry, bits.len() as int));
    lemma_cuccaro_adds(s2, n, x1sq, numer, carry);
    let s3 = apply_gates(g2, s2);
    assert(s3.subrange(x1sq, x1sq + n) =~= s2.subrange(x1sq, x1sq + n));
    assert(bit_int(s2[carry]) == 0);
    lemma_cuccaro_adds(s3, n, x1sq, numer, carry);
    let out = apply_gates(g2, s3);
    assert(out.subrange(x1sq, x1sq + n) =~= s3.subrange(x1sq, x1sq + n));
    assert(bit_int(s3[carry]) == 0);
    assert(0 <= sq);
    vstd::arithmetic::div_mod::lemma_add_mod_noop(sq, sq + sq, m64);
    vstd::arithmetic::div_mod::lemma_mod_twice(sq + sq, m64);
    vstd::arithmetic::div_mod::lemma_small_mod(sq as nat, m64 as nat);
    assert(reg(out, numer, 64) == (sq + (sq + sq) % m64) % m64);
}

/// For 64-bit coordinates the doubling's first four steps compute the
/// numerator of λ: from a zero x1² register (ws), a zero numerator register
/// (ws + n) and a zero multiplier workspace (ws + 7n, 322 qubits, the adder
/// carry among them), they leave x1² mod p in the first and 3·(x1² mod p)
/// mod 2^64 in the second.
pub proof fn lemma_ec_double_numerator(x1: int, y1: int, x3: int, y3: int, ws: int, bits: Seq<bool>)
    requires
        0 <= x1 && x1 + 64 <= bits.len(),
        0 <= ws && ws + 770 <= bits.len(),
        bits.len() <= usize::MAX,
        ranges_apart(x1, 64, ws, 128),
        ranges_apart(x1, 64, ws + 448, 322),
        forall|i: int| 0 <= i < 128 ==> !#[trigger] bits[ws + i],
        forall|i: int| 0 <= i < 322 ==> !#[trigger] bits[ws + 448 + i],
    ensures
        ({
            let ctx = ec_double_affine_ctx(64, ws);
            let ops = ec_double_affine_ops(64, x1, y1, x3, y3, ws);
            let m = ops_gates(ctx, ops.take(4)).len() as int;
            let out = apply_gates(ops_gates(ctx, ops).take(m), bits);
            let sq = (reg(bits, x1, 64) * reg(bits, x1, 64)) % (goldilocks_p() as int);
            &&& m <= ops_gates(ctx, ops).len()
            &&& reg(out, ws, 64) == sq
            &&& reg(out, ws + 64, 64) == (3 * sq) % (pow2(64) as int)
        }),
{
    lemma_double_prefix_gates(x1, y1, x3, y3, ws);
    lemma_numerator_effect(x1, ws, bits);
}

/// Where the gates of the doubling that write x3 begin: after the
/// numerator, 2y1, the inversion, λ and λ².
pub open spec fn ec_double_x3_start(n: int, x1: int, y1: int, x3: int, y3: int, ws: int) -> int {
    ops_gates(ec_double_affine_ctx(n, ws), ec_double_affine_ops(n, x1, y1, x3, y3, ws).take(9)).len() as int
}

/// The affine doubling writes x3 ← x3 ⊕ λ² ⊕ x1 ⊕ x1: its 3n gates from
/// `ec_double_x3_start` flip each bit of x3 by the bits of λ² (the register
/// at ws + 5n) and twice by x1, and leave every other qubit as it was.
#[verifier::rlimit(60)]
#[verifier::spinoff_prover]
pub proof fn lemma_ec_double_x3(
    n: int,
    x1: int,
    y1: int,
    x3: int,
    y3: int,
    ws: int,
    bits: Seq<bool>,
)
    requires
        n >= 1,
        0 <= x1 && x1 + n <= bits.len(),
        0 <= x3 && x3 + n <= bits.len(),
        0 <= ws && ws + 6 * n <= bits.len(),
        bits.len() <= usize::MAX,
        ranges_apart(x3, n, x1, n),
        ranges_apart(x3, n, ws + 5 * n, n),
    ensures
        ({
            let g = ops_gates(ec_double_affine_ctx(n, ws), ec_double_affine_ops(n, x1, y1, x3, y3, ws));
            let k = ec_double_x3_start(n, x1, y1, x3, y3, ws);
            let out = apply_gates(g.subrange(k, k + 3 * n), bits);
            &&& 0 <= k && k + 3 * n <= g.len()
            &&& out.len() == bits.len()
            &&& forall|i: int|
                0 <= i < n ==> #[trigger] out[x3 + i] == (((bits[x3 + i] != bits[ws + 5 * n + i]) != bits[x1 + i])
                    != bits[x1 + i])
            &&& forall|t: int| 0 <= t < bits.len() && !(x3 <= t < x3 + n) ==> #[trigger] out[t] == bits[t]
        }),
{
    let ctx = ec_double_affine_ctx(n, ws);
    let ops = ec_double_affine_ops(n, x1, y1, x3, y3, ws);
    let lsq = ws + 5 * n;
    let c1 = CircOp::Copy { src: lsq as usize, dst: x3 as usize };
    let c2 = CircOp::Copy { src: x1 as usize, dst: x3 as usize };
    let c3 = CircOp::Copy { src: x1 as usize, dst: x3 as usize };
    assert(ops.len() == 27);
    assert(ops.subrange(9, 12) =~= seq![c1, c2, c3]);
    assert(ops =~= ops.take(9) + ops.subrange(9, 12) + ops.skip(12));
    lemma_ops_gates_concat(ctx, ops.take(9) + ops.subrange(9, 12), ops.skip(12));
    lemma_ops_gates_concat(ctx, ops.take(9), ops.subrange(9, 12));
    assert(seq![c1, c2, c3] =~= seq![c1] + seq![c2] + seq![c3]);
    lemma_ops_gates_concat(ctx, seq![c1] + seq![c2], seq![c3]);
    lemma_ops_gates_concat(ctx, seq![c1], seq![c2]);
    reveal_with_fuel(ops_gates, 2);
    assert(seq![c1].drop_last() =~= Seq::<CircOp>::empty());
    assert(seq![c2].drop_last() =~= Seq::<CircOp>::empty());
    assert(seq![c3].drop_last() =~= Seq::<CircOp>::empty());
    let g1 = copy_gates(lsq, x3, n);
    let g2 = copy_gates(x1, x3, n);
    let g3 = copy_gates(x1, x3, n);
    assert(ops_gates(ctx, seq![c1]) =~= g1);
    assert(ops_gates(ctx, seq![c2]) =~= g2);
    assert(ops_gates(ctx, seq![c3]) =~= g3);
    crate::reversible::blocks::lemma_block_lens(lsq, x3, 0, n);
    crate::reversible::blocks::lemma_block_lens(x1, x3, 0, n);
    
    let pre = ops_gates(ctx, ops.take(9));
    let g = ops_gates(ctx, ops);
    assert(g == pre + (g1 + g2 + g3) + ops_gates(ctx, ops.skip(12)));
    let k = pre.len() as int;
    assert(g.subrange(k, k + 3 * n) =~= g1 + g2 + g3);
    lemma_apply_gates_concat(g1 + g2, g3, bits);
    lemma_apply_gates_concat(g1, g2, bits);
    lemma_copy_effect(bits, lsq, x3, n);
    let s1 = apply_gates(g1, bits);
    lemma_copy_effect(s1, x1, x3, n);
    let s2 = apply_gates(g2, s1);
    lemma_copy_effect(s2, x1, x3, n);
    let out = apply_gates(g3, s2);
    assert forall|i: int| 0 <= i < n implies #[trigger] out[x3 + i] == (((bits[x3 + i] != bits[lsq + i]) != bits[x1
        + i]) != bits[x1 + i]) by {
        assert(s1[x1 + i] == bits[x1 + i]);
        assert(s2[x1 + i] == s1[x1 + i]);
    }
}

/// The steps of the affine doubling that write y3: temp ← x1 ⊕ x3,
/// y3 ← λ·temp mod p, y3 ^= y1.
pub open spec fn ec_double_y3_steps(x1: int, y1: int, x3: int, y3: int, ws: int) -> Seq<CircOp> {
    ec_double_affine_ops(64, x1, y1, x3, y3, ws).subrange(12, 16)
}

/// For 64-bit coordinates the affine doubling writes y3 ⊕ y1 = λ·(x1 ⊕ x3)
/// mod p: its gates from the start of those steps, applied to bits with a
/// zero temp register (ws + 6n), a zero y3 and a zero multiplier workspace
/// (ws + 7n, 322 qubits), leave in y3 the bits whose exclusive or with y1
/// is the product modulo the Goldilocks prime of λ (the register at ws + 4n)
/// and x1 ⊕ x3.
#[verifier::rlimit(60)]
#[verifier::spinoff_prover]
pub proof fn lemma_ec_double_y3(
    x1: int,
    y1: int,
    x3: int,
    y3: int,
    ws: int,
    bits: Seq<bool>,
)
    requires
        0 <= x1 && x1 + 64 <= bits.len(),
        0 <= y1 && y1 + 64 <= bits.len(),
        0 <= x3 && x3 + 64 <= bits.len(),
        0 <= y3 && y3 + 64 <= bits.len(),
        0 <= ws && ws + 770 <= bits.len(),
        bits.len() <= usize::MAX,
        ranges_apart(x1, 64, ws + 384, 64),
        ranges_apart(x3, 64, ws + 384, 64),
        ranges_apart(y3, 64, ws + 256, 64),
        ranges_apart(y3, 64, ws + 384, 64),
        ranges_apart(y3, 64, ws + 448, 322),
        ranges_apart(y3, 64, y1, 64),
        ranges_apart(y1, 64, ws + 384, 64),
        forall|i: int| 0 <= i < 64 ==> !#[trigger] bits[ws + 384 + i],
        forall|i: int| 0 <= i < 64 ==> !#[trigger] bits[y3 + i],
        forall|i: int| 0 <= i < 322 ==> !#[trigger] bits[ws + 448 + i],
    ensures
        ({
            let ctx = ec_double_affine_ctx(64, ws);
            let ops = ec_double_affine_ops(64, x1, y1, x3, y3, ws);
            let g = ops_gates(ctx, ops);
            let k = ops_gates(ctx, ops.take(12)).len() as int;
            let m = ops_gates(ctx, ec_double_y3_steps(x1, y1, x3, y3, ws)).len() as int;
            let out = apply_gates(g.subrange(k, k + m), bits);
            &&& 0 <= k && k + m <= g.len()
            &&& bits_value(Seq::new(64, |i: int| out[y3 + i] != bits[y1 + i])) == (reg(bits, ws + 256, 64)
                * bits_value(Seq::new(64, |i: int| bits[x1 + i] != bits[x3 + i]))) % (goldilocks_p() as int)
        }),
{
    let n = 64int;
    let ctx = ec_double_affine_ctx(n, ws);
    let ops = ec_double_affine_ops(n, x1, y1, x3, y3, ws);
    let lam = ws + 4 * n;
    let temp = ws + 6 * n;
    let mw = ws + 7 * n;
    let t1 = CircOp::Copy { src: x1 as usize, dst: temp as usize };
    let t2 = CircOp::Copy { src: x3 as usize, dst: temp as usize };
    let sm = CircOp::SMul { a: lam as usize, b: temp as usize, r: y3 as usize };
    let cy = CircOp::Copy { src: y1 as usize, dst: y3 as usize };
    let seg = ec_double_y3_steps(x1, y1, x3, y3, ws);
    assert(ops.len() == 27);
    assert(seg =~= seq![t1, t2, sm, cy]);
    assert(ops =~= ops.take(12) + seg + ops.skip(16));
    lemma_ops_gates_concat(ctx, ops.take(12) + seg, ops.skip(16));
    lemma_ops_gates_concat(ctx, ops.take(12), seg);
    assert(seg =~= seq![t1] + seq![t2] + seq![sm] + seq![cy]);
    lemma_ops_gates_concat(ctx, seq![t1] + seq![t2] + seq![sm], seq![cy]);
    lemma_ops_gates_concat(ctx, seq![t1] + seq![t2], seq![sm]);
    lemma_ops_gates_concat(ctx, seq![t1], seq![t2]);
    reveal_with_fuel(ops_gates, 2);
    assert(seq![t1].drop_last() =~= Seq::<CircOp>::empty());
    assert(seq![t2].drop_last() =~= Seq::<CircOp>::empty());
    assert(seq![sm].drop_last() =~= Seq::<CircOp>::empty());
    assert(seq![cy].drop_last() =~= Seq::<CircOp>::empty());
    let g1 = copy_gates(x1, temp, n);
    let g2 = copy_gates(x3, temp, n);
    let g3 = crate::reversible::multiplier::schoolbook_modmul_gates(n, lam, temp, y3, mw);
    let g4 = copy_gates(y1, y3, n);
    assert(ops_gates(ctx, seq![t1]) =~= g1);
    assert(ops_gates(ctx, seq![t2]) =~= g2);
    assert(ops_gates(ctx, seq![sm]) =~= g3);
    assert(ops_gates(ctx, seq![cy]) =~= g4);
    let pre = ops_gates(ctx, ops.take(12));
    let g = ops_gates(ctx, ops);
    assert(ops_gates(ctx, seg) == g1 + g2 + g3 + g4);
    assert(g == pre + (g1 + g2 + g3 + g4) + ops_gates(ctx, ops.skip(16)));
    let k = pre.len() as int;
    let m = (g1 + g2 + g3 + g4).len() as int;
    assert(g.subrange(k, k + m) =~= g1 + g2 + g3 + g4);
    lemma_apply_gates_concat(g1 + g2 + g3, g4, bits);
    lemma_apply_gates_concat(g1 + g2, g3, bits);
    lemma_apply_gates_concat(g1, g2, bits);
    // temp ← x1 ⊕ x3
    lemma_copy_effect(bits, x1, temp, n);
    let s1 = apply_gates(g1, bits);
    lemma_copy_effect(s1, x3, temp, n);
    let s2 = apply_gates(g2, s1);
    let tv = Seq::new(64, |i: int| bits[x1 + i] != bits[x3 + i]);
    assert forall|i: int| 0 <= i < 64 implies #[trigger] s2.subrange(temp, temp + n)[i] == tv[i] by {
        assert(!bits[ws + 384 + i]);
        assert(s1[x3 + i] == bits[x3 + i]);
    }
    assert(s2.subrange(temp, temp + n) =~= tv);
    // y3 ← λ·temp mod p
    assert forall|i: int| 0 <= i < 64 implies !#[trigger] s2[y3 + i] by {
        assert(!bits[y3 + i]);
    }
    assert forall|i: int| 0 <= i < 322 implies !#[trigger] s2[mw + i] by {
        assert(!bits[ws + 448 + i]);
    }
    lemma_modmul_computes_product(s2, lam, temp, y3, mw);
    let s3 = apply_gates(g3, s2);
    assert(s2.subrange(lam, lam + n) =~= bits.subrange(lam, lam + n));
    // y3 ^= y1
    lemma_copy_effect(s3, y1, y3, n);
    let out = apply_gates(g4, s3);
    assert(Seq::new(64, |i: int| out[y3 + i] != bits[y1 + i]) =~= s3.subrange(y3, y3 + n)) by {
        assert forall|i: int| 0 <= i < 64 implies #[trigger] s3[y1 + i] == bits[y1 + i] by {
            assert(s3[y1 + i] == s2[y1 + i]);
            assert(s2[y1 + i] == s1[y1 + i]);
        }
    }
}

/// NOT gates on every qubit of a register flip exactly that register.
proof fn lemma_not_all_effect(bits: Seq<bool>, d: int, n: int)
    requires
        0 <= n,
        0 <= d && d + n <= bits.len(),
        bits.len() <= usize::MAX,
    ensures
        apply_gates(concat_map(not_step(d), 0, n), bits) == Seq::new(
            bits.len(),
            |t: int|
                if d <= t < d + n {
                    !bits[t]
                } else {
                    bits[t]
                },
        ),
    decreases n,
{
    let f = not_step(d);
    if n == 0 {
        assert(concat_map(f, 0, 0) =~= Seq::<crate::reversible::gates::Gate>::empty());
        assert(apply_gates(concat_map(f, 0, n), bits) =~= Seq::new(
            bits.len(),
            |t: int|
                if d <= t < d + n {
                    !bits[t]
                } else {
                    bits[t]
                },
        ));
    } else {
        lemma_not_all_effect(bits, d, n - 1);
        lemma_concat_map_prefix(f, 0, n - 1, n);
        lemma_apply_gates_concat(concat_map(f, 0, n - 1), f(n - 1), bits);
        let mid = apply_gates(concat_map(f, 0, n - 1), bits);
        crate::reversible::modular_adder_laws::lemma_not_effect(mid, d + n - 1);
        assert(f(n - 1) == seq![not_gate(d + n - 1)]);
        assert(apply_gates(concat_map(f, 0, n), bits) =~= Seq::new(
            bits.len(),
            |t: int|
                if d <= t < d + n {
                    !bits[t]
                } else {
                    bits[t]
                },
        ));
    }
}

/// The gates of the addition's first five steps, Δx ← x2 − x1.
#[verifier::rlimit(60)]
#[verifier::spinoff_prover]
proof fn lemma_dx_gates(n: int, x1: int, y1: int, x2: int, y2: int, x3: int, y3: int, ws: int)
    requires
        n >= 1,
        0 <= x1 && x1 + n <= usize::MAX,
        0 <= x2 && x2 + n <= usize::MAX,
        0 <= ws && ws + 10 * n + 2 <= usize::MAX,
    ensures
        ({
            let ctx = ec_add_affine_ctx(n, ws);
            let ops = ec_add_affine_ops(n, x1, y1, x2, y2, x3, y3, ws);
            let m = ops_gates(ctx, ops.take(5)).len() as int;
            let nc = seq![not_gate(ws + 9 * n + 1)];
            &&& m <= ops_gates(ctx, ops).len()
            &&& ops_gates(ctx, ops).take(m) == concat_map(not_step(ws), 0, n) + copy_gates(x1, ws, n) + nc
                + cuccaro_gates(n, x2, ws, ws + 9 * n + 1) + nc
        }),
{
    let ctx = ec_add_affine_ctx(n, ws);
    let ops = ec_add_affine_ops(n, x1, y1, x2, y2, x3, y3, ws);
    let c = ws + 9 * n + 1;
    let o1 = CircOp::NotAll { d: ws as usize };
    let o2 = CircOp::Copy { src: x1 as usize, dst: ws as usize };
    let o3 = CircOp::NotOne { t: c as usize };
    let o4 = CircOp::Add { a: x2 as usize, b: ws as usize };
    let seg = ops.take(5);
    assert(seg =~= seq![o1] + seq![o2] + seq![o3] + seq![o4] + seq![o3]);
    assert(ops =~= seg + ops.skip(5));
    lemma_ops_gates_concat(ctx, seg, ops.skip(5));
    lemma_ops_gates_concat(ctx, seq![o1] + seq![o2] + seq![o3] + seq![o4], seq![o3]);
    lemma_ops_gates_concat(ctx, seq![o1] + seq![o2] + seq![o3], seq![o4]);
    lemma_ops_gates_concat(ctx, seq![o1] + seq![o2], seq![o3]);
    lemma_ops_gates_concat(ctx, seq![o1], seq![o2]);
    reveal_with_fuel(ops_gates, 2);
    assert(seq![o1].drop_last() =~= Seq::<CircOp>::empty());
    assert(seq![o2].drop_last() =~= Seq::<CircOp>::empty());
    assert(seq![o3].drop_last() =~= Seq::<CircOp>::empty());
    assert(seq![o4].drop_last() =~= Seq::<CircOp>::empty());
    let g1 = concat_map(not_step(ws), 0, n);
    let g2 = copy_gates(x1, ws, n);
    let nc = seq![not_gate(c)];
    let g4 = cuccaro_gates(n, x2, ws, c);
    assert(ops_gates(ctx, seq![o1]) =~= g1);
    assert(ops_gates(ctx, seq![o2]) =~= g2);
    assert(ops_gates(ctx, seq![o3]) =~= nc);
    assert(ops_gates(ctx, seq![o4]) =~= g4);
    let m = ops_gates(ctx, seg).len() as int;
    assert(ops_gates(ctx, seg) == g1 + g2 + nc + g4 + nc);
    assert(ops_gates(ctx, ops).take(m) =~= g1 + g2 + nc + g4 + nc);
}

/// Complement Δx, add x1, set the carry, add x2, clear the carry.
#[verifier::rlimit(60)]
#[verifier::spinoff_prover]
proof fn lemma_dx_effect(n: int, x1: int, x2: int, d: int, c: int, bits: Seq<bool>)
    requires
        n >= 1,
        0 <= x1 && x1 + n <= bits.len(),
        0 <= x2 && x2 + n <= bits.len(),
        0 <= d && d + n <= bits.len(),
        0 <= c < bits.len(),
        bits.len() <= usize::MAX,
        ranges_apart(d, n, x1, n),
        ranges_apart(d, n, x2, n),
        !(x1 <= c < x1 + n),
        !(x2 <= c < x2 + n),
        !(d <= c < d + n),
        forall|i: int| 0 <= i < n ==> !#[trigger] bits[d + i],
        !bits[c],
    ensures
        ({
            let nc = seq![not_gate(c)];
            let out = apply_gates(
                concat_map(not_step(d), 0, n) + copy_gates(x1, d, n) + nc + cuccaro_gates(n, x2, d, c) + nc,
                bits,
            );
            &&& reg(out, d, n) == (reg(bits, x2, n) - reg(bits, x1, n)) % (pow2(n as nat) as int)
            &&& !out[c]
        }),
{
    let g1 = concat_map(not_step(d), 0, n);
    let g2 = copy_gates(x1, d, n);
    let nc = seq![not_gate(c)];
    let g4 = cuccaro_gates(n, x2, d, c);
    lemma_apply_gates_concat(g1 + g2 + nc + g4, nc, bits);
    lemma_apply_gates_concat(g1 + g2 + nc, g4, bits);
    lemma_apply_gates_concat(g1 + g2, nc, bits);
    lemma_apply_gates_concat(g1, g2, bits);
    lemma_not_all_effect(bits, d, n);
    let s1 = apply_gates(g1, bits);
    lemma_copy_effect(s1, x1, d, n);
    let s2 = apply_gates(g2, s1);
    assert forall|i: int| 0 <= i < n implies #[trigger] s2.subrange(d, d + n)[i] == !bits.subrange(x1, x1 + n)[i] by {
        assert(!bits[d + i]);
        assert(s1[x1 + i] == bits[x1 + i]);
    }
    crate::reversible::modular_adder_laws::lemma_complement_value(bits.subrange(x1, x1 + n), s2.subrange(d, d + n));
    crate::reversible::modular_adder_laws::lemma_not_effect(s2, c);
    let s3 = apply_gates(nc, s2);
    assert(s3.subrange(d, d + n) =~= s2.subrange(d, d + n));
    assert(s3.subrange(x2, x2 + n) =~= bits.subrange(x2, x2 + n));
    assert(adder_layout(n, x2, d, c, bits.len() as int));
    lemma_cuccaro_adds(s3, n, x2, d, c);
    let s4 = apply_gates(g4, s3);
    assert(bit_int(s3[c]) == 1);
    crate::reversible::modular_adder_laws::lemma_not_effect(s4, c);
    let out = apply_gates(nc, s4);
    assert(out.subrange(d, d + n) =~= s4.subrange(d, d + n));
    let md = pow2(n as nat) as int;
    let a1 = reg(bits, x1, n);
    let a2 = reg(bits, x2, n);
    assert(reg(s4, d, n) == (a2 + (md - 1 - a1) + 1) % md);
    assert(a2 + (md - 1 - a1) + 1 == md * 1 + (a2 - a1));
    vstd::arithmetic::div_mod::lemma_mod_multiples_vanish(1, a2 - a1, md);
}

/// The affine addition's first five steps compute Δx = x2 − x1 (mod 2^n)
/// in two's complement: from a zero Δx register (ws) and a zero carry
/// (ws + 9n + 1), they leave x2 − x1 modulo 2^n in Δx and the carry at zero.
pub proof fn lemma_ec_add_dx(
    n: int,
    x1: int,
    y1: int,
    x2: int,
    y2: int,
    x3: int,
    y3: int,
    ws: int,
    bits: Seq<bool>,
)
    requires
        n >= 1,
        0 <= x1 && x1 + n <= bits.len(),
        0 <= x2 && x2 + n <= bits.len(),
        0 <= ws && ws + 10 * n + 2 <= bits.len(),
        bits.len() <= usize::MAX,
        ranges_apart(x1, n, ws, 10 * n + 2),
        ranges_apart(x2, n, ws, 10 * n + 2),
        forall|i: int| 0 <= i < n ==> !#[trigger] bits[ws + i],
        !bits[ws + 9 * n + 1],
    ensures
        ({
            let ctx = ec_add_affine_ctx(n, ws);
            let ops = ec_add_affine_ops(n, x1, y1, x2, y2, x3, y3, ws);
            let m = ops_gates(ctx, ops.take(5)).len() as int;
            let out = apply_gates(ops_gates(ctx, ops).take(m), bits);
            &&& m <= ops_gates(ctx, ops).len()
            &&& reg(out, ws, n) == (reg(bits, x2, n) - reg(bits, x1, n)) % (pow2(n as nat) as int)
            &&& !out[ws + 9 * n + 1]
        }),
{
    lemma_dx_gates(n, x1, y1, x2, y2, x3, y3, ws);
    lemma_dx_effect(n, x1, x2, ws, ws + 9 * n + 1, bits);
}

} // verus!
