//! The modular adder adds modulo the Goldilocks prime: on classical bit
//! vectors its gates leave (a + b) mod p in b and restore a, the carry and
//! the workspace.
use crate::reversible::adder::{
    capture_adder_gates, cnot_where_set, correction_gates, cuccaro_gates, flag_clear_gates, goldilocks_p,
    modular_adder_gates, neg_p_const, not_gate, not_where_set, ones64,
};
use crate::reversible::adder_laws::{adder_layout, bit_int, lemma_capture_adds, lemma_cuccaro_adds};
use crate::reversible::gates::{apply_gates, lemma_apply_gates_concat, Gate};
use crate::reversible::multiplier_laws::{lemma_bits_value_zero, ranges_apart};
use crate::reversible::register::{bit_of, bits_value, lemma_bits_value_of_word};
use vstd::arithmetic::power2::pow2;
use vstd::prelude::*;

verus! {

/// The qubits base..base+hi whose bit of v is set flipped when `on`, the
/// rest as in `bits`.
pub open spec fn flipped_where(bits: Seq<bool>, v: nat, base: int, hi: int, on: bool) -> Seq<bool> {
    Seq::new(
        bits.len(),
        |t: int|
            if base <= t < base + hi && on && bit_of(v, (t - base) as nat) {
                !bits[t]
            } else {
                bits[t]
            },
    )
}

/// The value of the n-qubit register at `off`.
pub open spec fn reg(bits: Seq<bool>, off: int, n: int) -> int {
    bits_value(bits.subrange(off, off + n)) as int
}

/// NOT gates where the bits of v are set flip exactly those qubits.
proof fn lemma_not_where_set_effect(bits: Seq<bool>, v: nat, base: int, hi: int)
    requires
        0 <= base,
        0 <= hi,
        base + hi <= bits.len(),
        bits.len() <= usize::MAX,
    ensures
        apply_gates(not_where_set(v, base, hi), bits) == flipped_where(bits, v, base, hi, true),
    decreases hi,
{
    if hi == 0 {
        assert(flipped_where(bits, v, base, 0, true) =~= bits);
    } else {
        lemma_not_where_set_effect(bits, v, base, hi - 1);
        let front = not_where_set(v, base, hi - 1);
        let last = if bit_of(v, (hi - 1) as nat) {
            seq![not_gate(base + hi - 1)]
        } else {
            Seq::<Gate>::empty()
        };
        lemma_apply_gates_concat(front, last, bits);
        reveal_with_fuel(apply_gates, 2);
        if bit_of(v, (hi - 1) as nat) {
            assert(last.drop_last() =~= Seq::<Gate>::empty());
        }
        assert(apply_gates(last, flipped_where(bits, v, base, hi - 1, true)) =~= flipped_where(
            bits,
            v,
            base,
            hi,
            true,
        ));
    }
}

/// CNOT gates from `ctrl` where the bits of v are set flip those qubits
/// when the control is set.
pub proof fn lemma_cnot_where_set_effect(bits: Seq<bool>, v: nat, ctrl: int, base: int, hi: int)
    requires
        0 <= base,
        0 <= hi,
        base + hi <= bits.len(),
        0 <= ctrl < bits.len(),
        !(base <= ctrl < base + hi),
        bits.len() <= usize::MAX,
    ensures
        apply_gates(cnot_where_set(v, ctrl, base, hi), bits) == flipped_where(bits, v, base, hi, bits[ctrl]),
    decreases hi,
{
    if hi == 0 {
        assert(flipped_where(bits, v, base, 0, bits[ctrl]) =~= bits);
    } else {
        lemma_cnot_where_set_effect(bits, v, ctrl, base, hi - 1);
        let front = cnot_where_set(v, ctrl, base, hi - 1);
        let last = if bit_of(v, (hi - 1) as nat) {
            seq![crate::reversible::adder::cnot(ctrl, base + hi - 1)]
        } else {
            Seq::<Gate>::empty()
        };
        lemma_apply_gates_concat(front, last, bits);
        reveal_with_fuel(apply_gates, 2);
        if bit_of(v, (hi - 1) as nat) {
            assert(last.drop_last() =~= Seq::<Gate>::empty());
        }
        assert(apply_gates(last, flipped_where(bits, v, base, hi - 1, bits[ctrl])) =~= flipped_where(
            bits,
            v,
            base,
            hi,
            bits[ctrl],
        ));
    }
}

/// A single NOT gate flips its qubit.
pub proof fn lemma_not_effect(bits: Seq<bool>, t: int)
    requires
        0 <= t < bits.len(),
        bits.len() <= usize::MAX,
    ensures
        apply_gates(seq![not_gate(t)], bits) == bits.update(t, !bits[t]),
{
    reveal_with_fuel(apply_gates, 2);
    assert(seq![not_gate(t)].drop_last() =~= Seq::<Gate>::empty());
}

/// A zero register flipped by the bits of v holds v mod 2^n.
pub proof fn lemma_loaded_value(bits: Seq<bool>, v: nat, base: int, n: int)
    requires
        0 <= base,
        0 <= n,
        base + n <= bits.len(),
        forall|i: int| 0 <= i < n ==> !#[trigger] bits[base + i],
    ensures
        reg(flipped_where(bits, v, base, n, true), base, n) == v % pow2(n as nat),
{
    let s = flipped_where(bits, v, base, n, true).subrange(base, base + n);
    assert forall|i: int| 0 <= i < n implies #[trigger] s[i] == bit_of(v, i as nat) by {
        assert(!bits[base + i]);
    }
    lemma_bits_value_of_word(s, v, n as nat);
    assert(s.take(n) =~= s);
}

/// Complementing every bit of a register of n bits gives 2^n − 1 minus its
/// value.
pub proof fn lemma_complement_value(s: Seq<bool>, t: Seq<bool>)
    requires
        s.len() == t.len(),
        forall|i: int| 0 <= i < s.len() ==> #[trigger] t[i] == !s[i],
    ensures
        bits_value(t) == pow2(s.len()) - 1 - bits_value(s),
    decreases s.len(),
{
    vstd::arithmetic::power2::lemma_pow2_pos(s.len());
    if s.len() == 0 {
        vstd::arithmetic::power2::lemma2_to64();
    } else {
        lemma_complement_value(s.drop_last(), t.drop_last());
        vstd::arithmetic::power2::lemma_pow2_unfold(s.len());
    }
}

/// Every bit of 2^64 − 1 below 64 is set.
proof fn lemma_ones_bit(i: nat)
    requires
        i < 64,
    ensures
        bit_of(ones64(), i),
{
    let v: u64 = 0xFFFF_FFFF_FFFF_FFFF;
    let iu = i as u64;
    vstd::bits::lemma_u64_shr_is_div(v, iu);
    assert((v >> iu) & 1 == 1) by (bit_vector)
        requires
            iu < 64,
            v == 0xFFFF_FFFF_FFFF_FFFFu64,
    ;
    assert((v >> iu) & 1 == (v >> iu) % 2) by (bit_vector);
}

/// The integer facts behind the modular adder, for a, b < p and
/// m = 2^64, K = 2^32 − 1 = m − p: after s = (a + b) mod m with f1 the
/// carry-out and s' = (s + K) mod m with c2 the carry-out, the flag
/// f1 ⊕ c2 tells a + b ≥ p, the corrected value is (a + b) mod p, and the
/// flag equals [r < a].
proof fn lemma_modadd_arith(a: int, b: int)
    requires
        0 <= a < 0xFFFF_FFFF_0000_0001,
        0 <= b < 0xFFFF_FFFF_0000_0001,
    ensures
        ({
            let m = 0x1_0000_0000_0000_0000int;
            let p = 0xFFFF_FFFF_0000_0001int;
            let k = 0xFFFF_FFFFint;
            let s = (a + b) % m;
            let f1 = a + b >= m;
            let s2 = (k + s) % m;
            let c2 = k + s >= m;
            let f = f1 != c2;
            let r = if f {
                s2
            } else {
                (s2 + p) % m
            };
            &&& f == (a + b >= p)
            &&& r == (a + b) % p
            &&& f == (r < a)
        }),
{
}

/// The correction of the modular adder: with the workspace and carry zero,
/// under ¬f it adds p to b (mod 2^n); the workspace, the carry and f end as
/// they began, and nothing outside b changes.
proof fn lemma_correction(bits: Seq<bool>, n: int, b: int, c: int, w: int, f: int)
    requires
        1 <= n <= 64,
        0 <= b,
        b + n <= bits.len(),
        0 <= w,
        w + n <= bits.len(),
        0 <= c < bits.len(),
        0 <= f < bits.len(),
        bits.len() <= usize::MAX,
        ranges_apart(b, n, w, n),
        !(b <= c < b + n),
        !(w <= c < w + n),
        !(b <= f < b + n),
        !(w <= f < w + n),
        c != f,
        !bits[c],
        forall|i: int| 0 <= i < n ==> !#[trigger] bits[w + i],
    ensures
        ({
            let out = apply_gates(correction_gates(n, b, c, w, f), bits);
            &&& out.len() == bits.len()
            &&& forall|t: int| 0 <= t < bits.len() && !(b <= t < b + n) ==> #[trigger] out[t] == bits[t]
            &&& reg(out, b, n) == if bits[f] {
                reg(bits, b, n)
            } else {
                (reg(bits, b, n) + goldilocks_p() % pow2(n as nat)) % (pow2(n as nat) as int)
            }
        }),
{
    let p = goldilocks_p();
    let x = seq![not_gate(f)];
    let y = cnot_where_set(p, f, w, n);
    let z = cuccaro_gates(n, w, b, c);
    assert(correction_gates(n, b, c, w, f) == x + y + x + z + x + y + x);
    lemma_apply_gates_concat(x + y + x + z + x + y, x, bits);
    lemma_apply_gates_concat(x + y + x + z + x, y, bits);
    lemma_apply_gates_concat(x + y + x + z, x, bits);
    lemma_apply_gates_concat(x + y + x, z, bits);
    lemma_apply_gates_concat(x + y, x, bits);
    lemma_apply_gates_concat(x, y, bits);
    // ¬f
    lemma_not_effect(bits, f);
    let s1 = bits.update(f, !bits[f]);
    // w ← p under ¬f
    lemma_cnot_where_set_effect(s1, p, f, w, n);
    let s2 = flipped_where(s1, p, w, n, s1[f]);
    // f back
    lemma_not_effect(s2, f);
    let s3 = s2.update(f, !s2[f]);
    assert(s3[f] == bits[f]);
    // b += w
    assert(adder_layout(n, w, b, c, bits.len() as int));
    lemma_cuccaro_adds(s3, n, w, b, c);
    let s4 = apply_gates(z, s3);
    let wv = reg(s3, w, n);
    if !bits[f] {
        lemma_loaded_value(s1, p, w, n);
        assert(s3.subrange(w, w + n) =~= s2.subrange(w, w + n));
    } else {
        assert(s3.subrange(w, w + n) =~= bits.subrange(w, w + n));
        assert forall|j: int| 0 <= j < n implies !#[trigger] bits.subrange(w, w + n)[j] by {
            assert(!bits[w + j]);
        }
        lemma_bits_value_zero(bits.subrange(w, w + n));
    }
    assert(s3.subrange(b, b + n) =~= bits.subrange(b, b + n));
    // w ← 0 under ¬f
    lemma_not_effect(s4, f);
    let s5 = s4.update(f, !s4[f]);
    lemma_cnot_where_set_effect(s5, p, f, w, n);
    let s6 = flipped_where(s5, p, w, n, s5[f]);
    lemma_not_effect(s6, f);
    let s7 = s6.update(f, !s6[f]);
    assert forall|t: int| 0 <= t < bits.len() && !(b <= t < b + n) implies #[trigger] s7[t] == bits[t] by {
        if w <= t < w + n {
            assert(s4[t] == s3[t]);
        } else if t == f {
        } else {
            assert(s4[t] == s3[t]);
        }
    }
    assert(s7.subrange(b, b + n) =~= s4.subrange(b, b + n));
    assert(bit_int(s3[c]) == 0);
    lemma_bits_value_bound_reg(bits, b, n);
    vstd::arithmetic::div_mod::lemma_small_mod(reg(bits, b, n) as nat, pow2(n as nat));
    assert(reg(s4, b, n) == (wv + reg(bits, b, n)) % (pow2(n as nat) as int));
    if bits[f] {
        assert(wv == 0);
    } else {
        assert(wv == p % pow2(n as nat));
    }
}

/// Clearing the flag: with the carry zero, result r in b and the flag f,
/// the steps leave b, a and the carry as they were and flip f by
/// 1 ⊕ [r ≥ a].
proof fn lemma_flag_clear(bits: Seq<bool>, a: int, b: int, c: int, f: int)
    requires
        0 <= a,
        a + 64 <= bits.len(),
        0 <= b,
        b + 64 <= bits.len(),
        0 <= c < bits.len(),
        0 <= f < bits.len(),
        bits.len() <= usize::MAX,
        ranges_apart(a, 64, b, 64),
        !(a <= c < a + 64),
        !(b <= c < b + 64),
        !(a <= f < a + 64),
        !(b <= f < b + 64),
        c != f,
        !bits[c],
    ensures
        ({
            let out = apply_gates(flag_clear_gates(64, a, b, c, f), bits);
            &&& out.len() == bits.len()
            &&& forall|t: int| 0 <= t < bits.len() && t != f ==> #[trigger] out[t] == bits[t]
            &&& out[f] == (bits[f] == (reg(bits, b, 64) >= reg(bits, a, 64)))
        }),
{
    let n = 64int;
    let m = pow2(64) as int;
    vstd::arithmetic::power2::lemma2_to64_rest();
    let ones = not_where_set(ones64(), a, n);
    let nc = seq![not_gate(c)];
    let cap = capture_adder_gates(n, a, b, c, f);
    let nf = seq![not_gate(f)];
    let add = cuccaro_gates(n, a, b, c);
    assert(seq![not_gate(f), not_gate(c)] == nf + nc);
    assert(flag_clear_gates(n, a, b, c, f) == ones + nc + cap + (nf + nc) + ones + add);
    assert(ones + nc + cap + (nf + nc) + ones + add == ones + nc + cap + nf + nc + ones + add);
    lemma_apply_gates_concat(ones + nc + cap + nf + nc + ones, add, bits);
    lemma_apply_gates_concat(ones + nc + cap + nf + nc, ones, bits);
    lemma_apply_gates_concat(ones + nc + cap + nf, nc, bits);
    lemma_apply_gates_concat(ones + nc + cap, nf, bits);
    lemma_apply_gates_concat(ones + nc, cap, bits);
    lemma_apply_gates_concat(ones, nc, bits);
    let av = reg(bits, a, n);
    let r = reg(bits, b, n);
    // a ← ¬a
    lemma_not_where_set_effect(bits, ones64(), a, n);
    let s1 = flipped_where(bits, ones64(), a, n, true);
    assert forall|i: int| 0 <= i < n implies #[trigger] s1.subrange(a, a + n)[i] == !bits.subrange(a, a + n)[i] by {
        lemma_ones_bit(i as nat);
    }
    lemma_complement_value(bits.subrange(a, a + n), s1.subrange(a, a + n));
    // carry ← 1
    lemma_not_effect(s1, c);
    let s2 = s1.update(c, !s1[c]);
    assert(s2.subrange(a, a + n) =~= s1.subrange(a, a + n));
    assert(s2.subrange(b, b + n) =~= bits.subrange(b, b + n));
    // b ← b + ¬a + 1, f flipped by the carry-out
    assert(adder_layout(n, a, b, c, bits.len() as int));
    lemma_capture_adds(s2, n, a, b, c, f);
    let s3 = apply_gates(cap, s2);
    assert(bit_int(s2[c]) == 1);
    let total = (m - 1 - av) + r + 1;
    assert(s3[f] == (bits[f] ^ (total >= m)));
    // f ← ¬f, carry ← 0
    lemma_not_effect(s3, f);
    let s4 = s3.update(f, !s3[f]);
    lemma_not_effect(s4, c);
    let s5 = s4.update(c, !s4[c]);
    // a restored
    lemma_not_where_set_effect(s5, ones64(), a, n);
    let s6 = flipped_where(s5, ones64(), a, n, true);
    assert forall|t: int| 0 <= t < bits.len() && !(b <= t < b + n) && t != f implies #[trigger] s6[t] == bits[t] by {
        if a <= t < a + n {
            lemma_ones_bit((t - a) as nat);
            assert(s3[t] == s2[t]);
        } else if t == c {
        } else {
            assert(s3[t] == s2[t]);
        }
    }
    assert(s6.subrange(a, a + n) =~= bits.subrange(a, a + n));
    assert(s6.subrange(b, b + n) =~= s3.subrange(b, b + n));
    assert(!s6[c]);
    // b += a
    assert(adder_layout(n, a, b, c, bits.len() as int));
    lemma_cuccaro_adds(s6, n, a, b, c);
    let s7 = apply_gates(add, s6);
    assert(bit_int(s6[c]) == 0);
    lemma_bits_value_bound_reg(bits, a, n);
    lemma_bits_value_bound_reg(bits, b, n);
    let d = total % m;
    assert(reg(s6, b, n) == d);
    assert(reg(s7, b, n) == (d + av) % m);
    assert((d + av) % m == r) by (nonlinear_arith)
        requires
            m == 0x1_0000_0000_0000_0000int,
            d == ((m - 1 - av) + r + 1) % m,
            0 <= av < m,
            0 <= r < m,
    ;
    assert forall|t: int| 0 <= t < bits.len() && t != f implies #[trigger] s7[t] == bits[t] by {
        if b <= t < b + n {
            assert(s7.subrange(b, b + n)[t - b] == s7[t]);
            lemma_same_value_same_bits(s7.subrange(b, b + n), bits.subrange(b, b + n));
            assert(bits.subrange(b, b + n)[t - b] == bits[t]);
        } else {
            assert(s7[t] == s6[t]);
        }
    }
    assert(s7[f] == s6[f]);
    assert(total >= m <==> r >= av);
}

/// A register's value is below 2^n.
proof fn lemma_bits_value_bound_reg(bits: Seq<bool>, off: int, n: int)
    requires
        0 <= off,
        0 <= n,
        off + n <= bits.len(),
    ensures
        0 <= reg(bits, off, n) < pow2(n as nat),
{
    crate::reversible::adder_laws::lemma_bits_value_bound(bits.subrange(off, off + n));
}

/// Bit strings of one length with one value are equal.
pub proof fn lemma_same_value_same_bits(s: Seq<bool>, t: Seq<bool>)
    requires
        s.len() == t.len(),
        bits_value(s) == bits_value(t),
    ensures
        s == t,
    decreases s.len(),
{
    if s.len() > 0 {
        let k = (s.len() - 1) as nat;
        crate::reversible::adder_laws::lemma_bits_value_bound(s.drop_last());
        crate::reversible::adder_laws::lemma_bits_value_bound(t.drop_last());
        if s.last() != t.last() {
            assert(false);
        }
        lemma_same_value_same_bits(s.drop_last(), t.drop_last());
        assert forall|i: int| 0 <= i < s.len() implies s[i] == t[i] by {
            if i < k {
                assert(s[i] == s.drop_last()[i]);
                assert(t[i] == t.drop_last()[i]);
            }
        }
        assert(s =~= t);
    } else {
        assert(s =~= t);
    }
}

/// The modular adder adds modulo p: for a, b < p in 64-bit registers, a
/// zero carry and a zero workspace of 65 qubits, its gates leave
/// (a + b) mod p in b and every other qubit as it was.
pub proof fn lemma_modular_adder_adds(bits: Seq<bool>, a: int, b: int, c: int, w: int)
    requires
        0 <= a,
        a + 64 <= bits.len(),
        0 <= b,
        b + 64 <= bits.len(),
        0 <= c < bits.len(),
        0 <= w,
        w + 65 <= bits.len(),
        bits.len() <= usize::MAX,
        ranges_apart(a, 64, b, 64),
        ranges_apart(a, 64, w, 65),
        ranges_apart(b, 64, w, 65),
        !(a <= c < a + 64),
        !(b <= c < b + 64),
        !(w <= c < w + 65),
        !bits[c],
        forall|i: int| 0 <= i < 65 ==> !#[trigger] bits[w + i],
        reg(bits, a, 64) < goldilocks_p(),
        reg(bits, b, 64) < goldilocks_p(),
    ensures
        ({
            let out = apply_gates(modular_adder_gates(64, a, b, c, w), bits);
            &&& out.len() == bits.len()
            &&& forall|t: int| 0 <= t < bits.len() && !(b <= t < b + 64) ==> #[trigger] out[t] == bits[t]
            &&& reg(out, b, 64) == (reg(bits, a, 64) + reg(bits, b, 64)) % (goldilocks_p() as int)
        }),
{
    let n = 64int;
    let f = w + n;
    let m = pow2(64) as int;
    vstd::arithmetic::power2::lemma2_to64_rest();
    let k = neg_p_const(64);
    let cap1 = capture_adder_gates(n, a, b, c, f);
    let ld = not_where_set(k, w, n);
    let cap2 = capture_adder_gates(n, w, b, c, f);
    let cor = correction_gates(n, b, c, w, f);
    let clr = flag_clear_gates(n, a, b, c, f);
    assert(modular_adder_gates(n, a, b, c, w) == cap1 + ld + cap2 + ld + cor + clr);
    lemma_apply_gates_concat(cap1 + ld + cap2 + ld + cor, clr, bits);
    lemma_apply_gates_concat(cap1 + ld + cap2 + ld, cor, bits);
    lemma_apply_gates_concat(cap1 + ld + cap2, ld, bits);
    lemma_apply_gates_concat(cap1 + ld, cap2, bits);
    lemma_apply_gates_concat(cap1, ld, bits);
    let av = reg(bits, a, n);
    let bv = reg(bits, b, n);
    assert(!bits[w + 64]);
    // b += a, carry-out into f
    assert(adder_layout(n, a, b, c, bits.len() as int));
    lemma_capture_adds(bits, n, a, b, c, f);
    let s1 = apply_gates(cap1, bits);
    assert(bit_int(bits[c]) == 0);
    assert(s1[f] == (av + bv >= m));
    // w ← K
    assert forall|i: int| 0 <= i < n implies !#[trigger] s1[w + i] by {
        assert(!bits[w + i]);
    }
    lemma_not_where_set_effect(s1, k, w, n);
    let s2 = flipped_where(s1, k, w, n, true);
    lemma_loaded_value(s1, k, w, n);
    assert(reg(s2, w, n) == 0xFFFF_FFFF);
    assert(s2.subrange(b, b + n) =~= s1.subrange(b, b + n));
    // b += w, carry-out into f
    assert(adder_layout(n, w, b, c, bits.len() as int));
    lemma_capture_adds(s2, n, w, b, c, f);
    let s3 = apply_gates(cap2, s2);
    assert(bit_int(s2[c]) == 0);
    // w ← 0
    lemma_not_where_set_effect(s3, k, w, n);
    let s4 = flipped_where(s3, k, w, n, true);
    assert forall|i: int| 0 <= i < n implies !#[trigger] s4[w + i] by {
        assert(s3[w + i] == s2[w + i]);
        assert(!bits[w + i]);
    }
    assert(s4.subrange(b, b + n) =~= s3.subrange(b, b + n));
    lemma_modadd_arith(av, bv);
    // correction under ¬f
    lemma_correction(s4, n, b, c, w, f);
    let s5 = apply_gates(cor, s4);
    assert(goldilocks_p() % pow2(64) == goldilocks_p());
    let r = (av + bv) % (goldilocks_p() as int);
    assert(reg(s5, b, n) == r);
    // clear the flag
    assert(!s5[c]);
    assert(s5.subrange(a, a + n) =~= bits.subrange(a, a + n));
    lemma_flag_clear(s5, a, b, c, f);
    let s6 = apply_gates(clr, s5);
    assert(s6.subrange(b, b + n) =~= s5.subrange(b, b + n));
    assert forall|t: int| 0 <= t < bits.len() && !(b <= t < b + n) implies #[trigger] s6[t] == bits[t] by {
        if t == f {
        } else if w <= t < w + n {
            assert(s3[t] == s2[t]);
        } else {
            assert(s3[t] == s2[t]);
        }
    }
}

/// The layout of the 64-bit modular adder in a vector of `len` bits:
/// registers a and b, the carry c and the 65-qubit workspace w, pairwise
/// disjoint.
pub open spec fn mod_adder_layout(a: int, b: int, c: int, w: int, len: int) -> bool {
    &&& 0 <= a && a + 64 <= len
    &&& 0 <= b && b + 64 <= len
    &&& 0 <= c < len
    &&& 0 <= w && w + 65 <= len
    &&& len <= usize::MAX
    &&& ranges_apart(a, 64, b, 64)
    &&& ranges_apart(a, 64, w, 65)
    &&& ranges_apart(b, 64, w, 65)
    &&& !(a <= c < a + 64)
    &&& !(b <= c < b + 64)
    &&& !(w <= c < w + 65)
}

/// On every bit vector with that layout, a zero carry and workspace and
/// a, b < p, the gates leave (a + b) mod p in b and every other qubit as it
/// was.
pub open spec fn computes_sum_mod_p(gs: Seq<Gate>, a: int, b: int, c: int, w: int) -> bool {
    forall|bits: Seq<bool>|
        #![trigger apply_gates(gs, bits)]
        mod_adder_layout(a, b, c, w, bits.len() as int) && !bits[c] && (forall|i: int|
            0 <= i < 65 ==> !#[trigger] bits[w + i]) && reg(bits, a, 64) < goldilocks_p() && reg(bits, b, 64)
            < goldilocks_p() ==> {
            let out = apply_gates(gs, bits);
            &&& out.len() == bits.len()
            &&& forall|t: int| 0 <= t < bits.len() && !(b <= t < b + 64) ==> #[trigger] out[t] == bits[t]
            &&& reg(out, b, 64) == (reg(bits, a, 64) + reg(bits, b, 64)) % (goldilocks_p() as int)
        }
}

/// The modular adder's gates add modulo p on every such bit vector.
pub proof fn lemma_modular_adder_computes(a: int, b: int, c: int, w: int)
    ensures
        computes_sum_mod_p(modular_adder_gates(64, a, b, c, w), a, b, c, w),
{
    assert forall|bits: Seq<bool>|
        mod_adder_layout(a, b, c, w, bits.len() as int) && !bits[c] && (forall|i: int|
            0 <= i < 65 ==> !#[trigger] bits[w + i]) && reg(bits, a, 64) < goldilocks_p() && reg(bits, b, 64)
            < goldilocks_p() implies {
        let out = apply_gates(modular_adder_gates(64, a, b, c, w), bits);
        &&& out.len() == bits.len()
        &&& forall|t: int| 0 <= t < bits.len() && !(b <= t < b + 64) ==> #[trigger] out[t] == bits[t]
        &&& reg(out, b, 64) == (reg(bits, a, 64) + reg(bits, b, 64)) % (goldilocks_p() as int)
    } by {
        lemma_modular_adder_adds(bits, a, b, c, w);
    }
}

} // verus!
