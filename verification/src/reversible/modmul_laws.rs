//! The schoolbook modular multiplier computes a·b mod p: the reduction
//! steps add 2^j mod p into the result register for every set bit j of the
//! accumulator, so that its forward pass leaves the integer product in the
//! accumulator and that product modulo the Goldilocks prime in the reduced
//! register.
use crate::reversible::adder::{cnot_where_set, goldilocks_p, modular_adder_gates};
use crate::reversible::adder_laws::{bit_int, lemma_bits_value_take_step};
use crate::reversible::blocks::{concat_map, copy_gates, copy_step, lemma_concat_map_prefix};
use crate::reversible::gate_wf::lemma_ok_modmul_forward;
use crate::reversible::gates::{apply_gates, lemma_apply_gates_concat, lemma_reverse_undoes, Gate};
use crate::reversible::modular_adder_laws::{
    flipped_where, lemma_cnot_where_set_effect, lemma_loaded_value, lemma_modular_adder_adds,
    lemma_same_value_same_bits, reg,
};
use crate::reversible::multiplier::{
    fold_const, mod_reduce_gates, mod_reduce_step, schoolbook_gates, schoolbook_modmul_forward, schoolbook_modmul_gates,
};
use crate::reversible::multiplier_laws::{lemma_bits_value_zero, lemma_schoolbook_product, mul_layout, ranges_apart};
use crate::reversible::register::bits_value;
use vstd::arithmetic::div_mod::{lemma_add_mod_noop, lemma_mod_twice, lemma_small_mod};
use vstd::arithmetic::power2::pow2;
use vstd::prelude::*;

verus! {

/// The sum, over the set bits j < k of the register at `acc`, of 2^j mod p.
pub open spec fn folded_sum(bits: Seq<bool>, acc: int, k: int) -> int
    decreases k,
{
    if k <= 0 {
        0
    } else {
        folded_sum(bits, acc, k - 1) + if bits[acc + k - 1] {
            fold_const(k - 1) as int
        } else {
            0
        }
    }
}

/// The layout of the reduction for 64-bit operands: the 128-bit accumulator
/// at acc, the partial-product register pp, the reduced register r, the
/// carry qubit c and the modular adder's 65-qubit workspace mw, pairwise
/// disjoint inside a vector of `len` bits.
pub open spec fn reduce_layout(acc: int, pp: int, r: int, c: int, mw: int, len: int) -> bool {
    &&& 0 <= acc && acc + 128 <= len
    &&& 0 <= pp && pp + 64 <= len
    &&& 0 <= r && r + 64 <= len
    &&& 0 <= c < len
    &&& 0 <= mw && mw + 65 <= len
    &&& len <= usize::MAX
    &&& ranges_apart(acc, 128, pp, 64)
    &&& ranges_apart(acc, 128, r, 64)
    &&& ranges_apart(acc, 128, mw, 65)
    &&& ranges_apart(pp, 64, r, 64)
    &&& ranges_apart(pp, 64, mw, 65)
    &&& ranges_apart(r, 64, mw, 65)
    &&& !(acc <= c < acc + 128)
    &&& !(pp <= c < pp + 64)
    &&& !(r <= c < r + 64)
    &&& !(mw <= c < mw + 65)
}

/// The workspace of the reduction (pp, the carry and mw) is zero.
pub open spec fn reduce_ws_clear(bits: Seq<bool>, pp: int, c: int, mw: int) -> bool {
    &&& forall|i: int| 0 <= i < 64 ==> !#[trigger] bits[pp + i]
    &&& !bits[c]
    &&& forall|i: int| 0 <= i < 65 ==> !#[trigger] bits[mw + i]
}

/// 2^j mod p is below p.
proof fn lemma_fold_const_small(j: int)
    ensures
        fold_const(j) < goldilocks_p(),
{
}

/// One reduction step adds 2^j mod p into r (modulo p) when accumulator bit
/// j is set and leaves every other qubit as it was.
proof fn lemma_mod_reduce_step_effect(bits: Seq<bool>, acc: int, pp: int, r: int, c: int, mw: int, j: int)
    requires
        reduce_layout(acc, pp, r, c, mw, bits.len() as int),
        0 <= j < 128,
        reduce_ws_clear(bits, pp, c, mw),
        reg(bits, r, 64) < goldilocks_p(),
    ensures
        ({
            let out = apply_gates(mod_reduce_step(64, acc, pp, r, c, mw)(j), bits);
            &&& out.len() == bits.len()
            &&& forall|t: int| 0 <= t < bits.len() && !(r <= t < r + 64) ==> #[trigger] out[t] == bits[t]
            &&& reg(out, r, 64) == (reg(bits, r, 64) + if bits[acc + j] {
                fold_const(j) as int
            } else {
                0
            }) % (goldilocks_p() as int)
        }),
{
    let fc = fold_const(j);
    let p = goldilocks_p() as int;
    let on = bits[acc + j];
    let x = cnot_where_set(fc, acc + j, pp, 64);
    let y = modular_adder_gates(64, pp, r, c, mw);
    assert(mod_reduce_step(64, acc, pp, r, c, mw)(j) == x + y + x);
    lemma_apply_gates_concat(x + y, x, bits);
    lemma_apply_gates_concat(x, y, bits);
    lemma_fold_const_small(j);
    vstd::arithmetic::power2::lemma2_to64_rest();
    // pp ← fc when the accumulator bit is set
    lemma_cnot_where_set_effect(bits, fc, acc + j, pp, 64);
    let s1 = flipped_where(bits, fc, pp, 64, on);
    if on {
        lemma_loaded_value(bits, fc, pp, 64);
        lemma_small_mod(fc, pow2(64));
    } else {
        assert(s1 =~= bits);
        assert forall|i: int| 0 <= i < 64 implies !#[trigger] bits.subrange(pp, pp + 64)[i] by {
            assert(!bits[pp + i]);
        }
        lemma_bits_value_zero(bits.subrange(pp, pp + 64));
    }
    let v = if on {
        fc as int
    } else {
        0
    };
    assert(reg(s1, pp, 64) == v);
    assert(s1.subrange(r, r + 64) =~= bits.subrange(r, r + 64));
    assert forall|i: int| 0 <= i < 65 implies !#[trigger] s1[mw + i] by {
        assert(!bits[mw + i]);
    }
    // r ← (r + pp) mod p
    lemma_modular_adder_adds(s1, pp, r, c, mw);
    let s2 = apply_gates(y, s1);
    assert(s2[acc + j] == on);
    // pp ← 0
    lemma_cnot_where_set_effect(s2, fc, acc + j, pp, 64);
    let s3 = flipped_where(s2, fc, pp, 64, on);
    assert(s3.subrange(r, r + 64) =~= s2.subrange(r, r + 64));
    assert forall|t: int| 0 <= t < bits.len() && !(r <= t < r + 64) implies #[trigger] s3[t] == bits[t] by {
        assert(s2[t] == s1[t]);
    }
}

/// The first k reduction steps leave r + (the folded sum of the first k
/// accumulator bits) modulo p in r and every other qubit as it was.
proof fn lemma_mod_reduce_prefix(bits: Seq<bool>, acc: int, pp: int, r: int, c: int, mw: int, k: int)
    requires
        reduce_layout(acc, pp, r, c, mw, bits.len() as int),
        0 <= k <= 128,
        reduce_ws_clear(bits, pp, c, mw),
        reg(bits, r, 64) < goldilocks_p(),
    ensures
        ({
            let out = apply_gates(concat_map(mod_reduce_step(64, acc, pp, r, c, mw), 0, k), bits);
            &&& out.len() == bits.len()
            &&& forall|t: int| 0 <= t < bits.len() && !(r <= t < r + 64) ==> #[trigger] out[t] == bits[t]
            &&& reg(out, r, 64) == (reg(bits, r, 64) + folded_sum(bits, acc, k)) % (goldilocks_p() as int)
        }),
    decreases k,
{
    let f = mod_reduce_step(64, acc, pp, r, c, mw);
    let p = goldilocks_p() as int;
    if k == 0 {
        assert(concat_map(f, 0, 0) =~= Seq::<Gate>::empty());
        lemma_small_mod(reg(bits, r, 64) as nat, p as nat);
    } else {
        lemma_mod_reduce_prefix(bits, acc, pp, r, c, mw, k - 1);
        lemma_concat_map_prefix(f, 0, k - 1, 128);
        let front = concat_map(f, 0, k - 1);
        lemma_apply_gates_concat(front, f(k - 1), bits);
        let mid = apply_gates(front, bits);
        assert forall|i: int| 0 <= i < 64 implies !#[trigger] mid[pp + i] by {
            assert(mid[pp + i] == bits[pp + i]);
        }
        assert forall|i: int| 0 <= i < 65 implies !#[trigger] mid[mw + i] by {
            assert(mid[mw + i] == bits[mw + i]);
        }
        assert(mid[c] == bits[c]);
        assert(mid[acc + k - 1] == bits[acc + k - 1]);
        lemma_mod_reduce_step_effect(mid, acc, pp, r, c, mw, k - 1);
        let out = apply_gates(f(k - 1), mid);
        let y = if bits[acc + k - 1] {
            fold_const(k - 1) as int
        } else {
            0
        };
        lemma_fold_const_small(k - 1);
        let rs = reg(bits, r, 64) + folded_sum(bits, acc, k - 1);
        assert(rs >= 0) by {
            lemma_folded_sum_nonneg(bits, acc, k - 1);
        }
        lemma_add_mod_noop(rs, y, p);
        lemma_small_mod(y as nat, p as nat);
        lemma_mod_twice(rs, p);
        assert(reg(out, r, 64) == (rs + y) % p);
    }
}

proof fn lemma_folded_sum_nonneg(bits: Seq<bool>, acc: int, k: int)
    ensures
        folded_sum(bits, acc, k) >= 0,
    decreases k,
{
    if k > 0 {
        lemma_folded_sum_nonneg(bits, acc, k - 1);
    }
}

/// The folded sum agrees with the register's value modulo p.
proof fn lemma_folded_sum_value(bits: Seq<bool>, acc: int, k: int)
    requires
        0 <= acc,
        0 <= k,
        acc + k <= bits.len(),
    ensures
        folded_sum(bits, acc, k) % (goldilocks_p() as int) == bits_value(bits.subrange(acc, acc + k)) as int
            % (goldilocks_p() as int),
    decreases k,
{
    let p = goldilocks_p() as int;
    if k == 0 {
        assert(bits.subrange(acc, acc) =~= Seq::<bool>::empty());
    } else {
        lemma_folded_sum_value(bits, acc, k - 1);
        let s = bits.subrange(acc, acc + k);
        lemma_bits_value_take_step(s, (k - 1) as nat);
        assert(s.take(k) =~= s);
        assert(s.take(k - 1) =~= bits.subrange(acc, acc + k - 1));
        let fs = folded_sum(bits, acc, k - 1);
        let vs = bits_value(bits.subrange(acc, acc + k - 1)) as int;
        let e = pow2((k - 1) as nat) as int;
        let on = bits[acc + k - 1];
        assert(s[k - 1] == on);
        lemma_folded_sum_nonneg(bits, acc, k - 1);
        if on {
            lemma_add_mod_noop(fs, e % p, p);
            lemma_add_mod_noop(vs, e, p);
            lemma_mod_twice(e, p);
            assert(fold_const(k - 1) as int == e % p);
            assert(bit_int(s[k - 1]) == 1);
        } else {
            assert(bit_int(s[k - 1]) == 0);
        }
    }
}

/// The forward pass of the schoolbook modular multiplier on 64-bit
/// operands: from a zero workspace of 5·64 + 2 qubits at ws it leaves the
/// integer product a·b in the accumulator ws[0..128), a·b mod p in the
/// reduced register ws[193..257), the carry, partial-product and adder
/// workspace qubits at zero, and every qubit outside the workspace as it
/// was.
pub proof fn lemma_modmul_forward(bits: Seq<bool>, a: int, b: int, ws: int)
    requires
        0 <= a && a + 64 <= bits.len(),
        0 <= b && b + 64 <= bits.len(),
        0 <= ws && ws + 322 <= bits.len(),
        bits.len() <= usize::MAX,
        ranges_apart(a, 64, ws, 322),
        ranges_apart(b, 64, ws, 322),
        forall|i: int| 0 <= i < 322 ==> !#[trigger] bits[ws + i],
    ensures
        ({
            let out = apply_gates(schoolbook_modmul_forward(64, a, b, ws), bits);
            &&& out.len() == bits.len()
            &&& forall|t: int| 0 <= t < bits.len() && !(ws <= t < ws + 322) ==> #[trigger] out[t] == bits[t]
            &&& bits_value(out.subrange(ws, ws + 128)) == reg(bits, a, 64) * reg(bits, b, 64)
            &&& reg(out, ws + 193, 64) == (reg(bits, a, 64) * reg(bits, b, 64)) % (goldilocks_p() as int)
            &&& forall|i: int| 128 <= i < 193 ==> !#[trigger] out[ws + i]
            &&& forall|i: int| 257 <= i < 322 ==> !#[trigger] out[ws + i]
        }),
{
    let acc = ws;
    let c = ws + 128;
    let pp = ws + 129;
    let r = ws + 193;
    let mw = ws + 257;
    let p = goldilocks_p() as int;
    let sb = schoolbook_gates(64, a, b, acc, pp, c);
    let rd = mod_reduce_gates(64, acc, pp, r, c, mw);
    assert(schoolbook_modmul_forward(64, a, b, ws) == sb + rd);
    lemma_apply_gates_concat(sb, rd, bits);
    // the integer product
    assert(mul_layout(64, a, b, acc, pp, c, bits.len() as int));
    assert forall|j: int| 0 <= j < 64 implies !#[trigger] bits[pp + j] by {
        assert(!bits[ws + (129 + j)]);
    }
    assert forall|j: int| 0 <= j < 128 implies !#[trigger] bits[acc + j] by {
        assert(!bits[ws + j]);
    }
    assert(!bits[ws + 128]);
    lemma_schoolbook_product(bits, 64, a, b, acc, pp, c);
    let s1 = apply_gates(sb, bits);
    let prod = reg(bits, a, 64) * reg(bits, b, 64);
    // the reduction
    assert(reduce_layout(acc, pp, r, c, mw, bits.len() as int));
    assert forall|i: int| 0 <= i < 64 implies !#[trigger] s1[pp + i] by {
        assert(s1[pp + i] == bits[pp + i]);
    }
    assert forall|i: int| 0 <= i < 65 implies !#[trigger] s1[mw + i] by {
        assert(s1[mw + i] == bits[mw + i]);
        assert(!bits[ws + (257 + i)]);
    }
    assert(s1[c] == bits[c]);
    assert forall|i: int| 0 <= i < 64 implies !#[trigger] s1.subrange(r, r + 64)[i] by {
        assert(s1[r + i] == bits[r + i]);
        assert(!bits[ws + (193 + i)]);
    }
    lemma_bits_value_zero(s1.subrange(r, r + 64));
    lemma_mod_reduce_prefix(s1, acc, pp, r, c, mw, 128);
    let out = apply_gates(rd, s1);
    lemma_folded_sum_value(s1, acc, 128);
    lemma_folded_sum_nonneg(s1, acc, 128);
    lemma_mod_twice(folded_sum(s1, acc, 128), p);
    assert(s1.subrange(a, a + 64) =~= bits.subrange(a, a + 64));
    assert(s1.subrange(b, b + 64) =~= bits.subrange(b, b + 64));
    assert(out.subrange(acc, acc + 128) =~= s1.subrange(acc, acc + 128));
    assert forall|t: int| 0 <= t < bits.len() && !(ws <= t < ws + 322) implies #[trigger] out[t] == bits[t] by {
        assert(out[t] == s1[t]);
    }
    assert forall|i: int| 128 <= i < 193 implies !#[trigger] out[ws + i] by {
        assert(out[ws + i] == s1[ws + i]);
        assert(s1[ws + i] == bits[ws + i]);
    }
    assert forall|i: int| 257 <= i < 322 implies !#[trigger] out[ws + i] by {
        assert(out[ws + i] == s1[ws + i]);
        assert(s1[ws + i] == bits[ws + i]);
    }
}

/// A register copy flips each destination qubit by its source qubit.
pub proof fn lemma_copy_effect(bits: Seq<bool>, src: int, dst: int, n: int)
    requires
        0 <= n,
        0 <= src && src + n <= bits.len(),
        0 <= dst && dst + n <= bits.len(),
        bits.len() <= usize::MAX,
        ranges_apart(src, n, dst, n),
    ensures
        apply_gates(copy_gates(src, dst, n), bits) == Seq::new(
            bits.len(),
            |t: int|
                if dst <= t < dst + n {
                    bits[t] != bits[src + (t - dst)]
                } else {
                    bits[t]
                },
        ),
    decreases n,
{
    let f = copy_step(src, dst);
    if n == 0 {
        assert(concat_map(f, 0, 0) =~= Seq::<Gate>::empty());
        assert(apply_gates(copy_gates(src, dst, n), bits) =~= Seq::new(
            bits.len(),
            |t: int|
                if dst <= t < dst + n {
                    bits[t] != bits[src + (t - dst)]
                } else {
                    bits[t]
                },
        ));
    } else {
        lemma_copy_effect(bits, src, dst, n - 1);
        lemma_concat_map_prefix(f, 0, n - 1, n);
        lemma_apply_gates_concat(concat_map(f, 0, n - 1), f(n - 1), bits);
        let mid = apply_gates(concat_map(f, 0, n - 1), bits);
        reveal_with_fuel(apply_gates, 2);
        assert(f(n - 1).drop_last() =~= Seq::<Gate>::empty());
        assert(apply_gates(copy_gates(src, dst, n), bits) =~= Seq::new(
            bits.len(),
            |t: int|
                if dst <= t < dst + n {
                    bits[t] != bits[src + (t - dst)]
                } else {
                    bits[t]
                },
        ));
    }
}

/// The schoolbook modular multiplier computes a·b mod p: on 64-bit
/// operands, with a zero result register and a zero workspace of 322
/// qubits (the register layout of `ReversibleMultiplier::forward_gates`),
/// its gates leave (a·b) mod p in the result register and every other
/// qubit, the operands and the workspace included, as it was.
pub proof fn lemma_modmul_computes_product(bits: Seq<bool>, a: int, b: int, result: int, ws: int)
    requires
        0 <= a && a + 64 <= bits.len(),
        0 <= b && b + 64 <= bits.len(),
        0 <= result && result + 64 <= bits.len(),
        0 <= ws && ws + 322 <= bits.len(),
        bits.len() <= usize::MAX,
        ranges_apart(a, 64, ws, 322),
        ranges_apart(b, 64, ws, 322),
        ranges_apart(result, 64, ws, 322),
        ranges_apart(result, 64, a, 64),
        ranges_apart(result, 64, b, 64),
        forall|i: int| 0 <= i < 64 ==> !#[trigger] bits[result + i],
        forall|i: int| 0 <= i < 322 ==> !#[trigger] bits[ws + i],
    ensures
        ({
            let out = apply_gates(schoolbook_modmul_gates(64, a, b, result, ws), bits);
            &&& out.len() == bits.len()
            &&& forall|t: int| 0 <= t < bits.len() && !(result <= t < result + 64) ==> #[trigger] out[t] == bits[t]
            &&& reg(out, result, 64) == (reg(bits, a, 64) * reg(bits, b, 64)) % (goldilocks_p() as int)
        }),
{
    let len = bits.len() as int;
    let rr = ws + 193;
    let fwd = schoolbook_modmul_forward(64, a, b, ws);
    let cp = copy_gates(rr, result, 64);
    assert(schoolbook_modmul_gates(64, a, b, result, ws) == fwd + cp + fwd.reverse());
    lemma_apply_gates_concat(fwd + cp, fwd.reverse(), bits);
    lemma_apply_gates_concat(fwd, cp, bits);
    lemma_modmul_forward(bits, a, b, ws);
    let mid = apply_gates(fwd, bits);
    lemma_copy_effect(mid, rr, result, 64);
    let copied = apply_gates(cp, mid);
    // the input that the forward pass maps onto the copied state
    let bits2 = Seq::new(
        bits.len(),
        |t: int|
            if result <= t < result + 64 {
                mid[rr + (t - result)]
            } else {
                bits[t]
            },
    );
    assert forall|i: int| 0 <= i < 322 implies !#[trigger] bits2[ws + i] by {
        assert(!bits[ws + i]);
    }
    assert(bits2.subrange(a, a + 64) =~= bits.subrange(a, a + 64));
    assert(bits2.subrange(b, b + 64) =~= bits.subrange(b, b + 64));
    lemma_modmul_forward(bits2, a, b, ws);
    let mid2 = apply_gates(fwd, bits2);
    lemma_same_value_same_bits(mid2.subrange(ws, ws + 128), mid.subrange(ws, ws + 128));
    lemma_same_value_same_bits(mid2.subrange(rr, rr + 64), mid.subrange(rr, rr + 64));
    assert forall|t: int| 0 <= t < len implies #[trigger] mid2[t] == copied[t] by {
        if ws <= t < ws + 322 {
            let i = t - ws;
            if i < 128 {
                assert(mid2.subrange(ws, ws + 128)[i] == mid.subrange(ws, ws + 128)[i]);
            } else if i < 193 {
                assert(!mid2[ws + i]);
                assert(!mid[ws + i]);
            } else if i < 257 {
                assert(mid2.subrange(rr, rr + 64)[i - 193] == mid.subrange(rr, rr + 64)[i - 193]);
            } else {
                assert(!mid2[ws + i]);
                assert(!mid[ws + i]);
            }
        } else if result <= t < result + 64 {
            assert(!bits[result + (t - result)]);
            assert(mid[t] == bits[t]);
        } else {
            assert(mid[t] == bits[t]);
        }
    }
    assert(mid2 =~= copied);
    lemma_ok_modmul_forward(a, b, ws, len);
    lemma_reverse_undoes(fwd, bits2);
    let out = apply_gates(schoolbook_modmul_gates(64, a, b, result, ws), bits);
    assert(out =~= bits2);
    assert(out.subrange(result, result + 64) =~= mid.subrange(rr, rr + 64));
}

/// The register layout of the 64-bit multiplier in a vector of `len`
/// bits: operands a and b (which may coincide), the result register and
/// the 322-qubit workspace, the result and the workspace apart from each
/// other and from the operands.
pub open spec fn modmul_layout(a: int, b: int, result: int, ws: int, len: int) -> bool {
    &&& 0 <= a && a + 64 <= len
    &&& 0 <= b && b + 64 <= len
    &&& 0 <= result && result + 64 <= len
    &&& 0 <= ws && ws + 322 <= len
    &&& len <= usize::MAX
    &&& ranges_apart(a, 64, ws, 322)
    &&& ranges_apart(b, 64, ws, 322)
    &&& ranges_apart(result, 64, ws, 322)
    &&& ranges_apart(result, 64, a, 64)
    &&& ranges_apart(result, 64, b, 64)
}

/// On every input with a zero result register and a zero workspace, the
/// gates leave (a·b) mod p in the result register and every other qubit as
/// it was.
pub open spec fn computes_product_mod_p(gs: Seq<Gate>, a: int, b: int, result: int, ws: int) -> bool {
    forall|bits: Seq<bool>|
        #![trigger apply_gates(gs, bits)]
        modmul_layout(a, b, result, ws, bits.len() as int) && (forall|i: int| 0 <= i < 64 ==> !#[trigger] bits[result + i])
            && (forall|i: int| 0 <= i < 322 ==> !#[trigger] bits[ws + i]) ==> {
            let out = apply_gates(gs, bits);
            &&& out.len() == bits.len()
            &&& forall|t: int| 0 <= t < bits.len() && !(result <= t < result + 64) ==> #[trigger] out[t] == bits[t]
            &&& reg(out, result, 64) == (reg(bits, a, 64) * reg(bits, b, 64)) % (goldilocks_p() as int)
        }
}

/// The schoolbook multiplier's gates compute the product modulo p on every
/// such input.
pub proof fn lemma_modmul_gates_compute(a: int, b: int, result: int, ws: int)
    ensures
        computes_product_mod_p(schoolbook_modmul_gates(64, a, b, result, ws), a, b, result, ws),
{
    let gs = schoolbook_modmul_gates(64, a, b, result, ws);
    assert forall|bits: Seq<bool>|
        modmul_layout(a, b, result, ws, bits.len() as int) && (forall|i: int| 0 <= i < 64 ==> !#[trigger] bits[result + i])
            && (forall|i: int| 0 <= i < 322 ==> !#[trigger] bits[ws + i]) implies {
        let out = apply_gates(gs, bits);
        &&& out.len() == bits.len()
        &&& forall|t: int| 0 <= t < bits.len() && !(result <= t < result + 64) ==> #[trigger] out[t] == bits[t]
        &&& reg(out, result, 64) == (reg(bits, a, 64) * reg(bits, b, 64)) % (goldilocks_p() as int)
    } by {
        lemma_modmul_computes_product(bits, a, b, result, ws);
    }
}

} // verus!
