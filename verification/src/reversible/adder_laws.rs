//! The Cuccaro adder adds: on classical bit vectors its gate sequence keeps
//! `a`, replaces `b` with a + b (mod 2^n) and restores the carry qubit.
use crate::reversible::adder::{capture_adder_gates, cnot, cuccaro_gates, maj, maj_ladder, uma, uma_ladder};
use crate::reversible::gates::{apply_gate, apply_gates, lemma_apply_gates_concat, Gate};
use crate::reversible::register::bits_value;
use vstd::arithmetic::power2::{lemma_pow2_unfold, pow2};
use vstd::prelude::*;

verus! {

/// The majority of three bits.
pub open spec fn majority(x: bool, y: bool, z: bool) -> bool {
    (x && y) || (x && z) || (y && z)
}

/// The carry into column k when adding the bits of `sa` and `sb` with
/// carry-in `c0`.
pub open spec fn carry(sa: Seq<bool>, sb: Seq<bool>, c0: bool, k: nat) -> bool
    decreases k,
{
    if k == 0 {
        c0
    } else {
        majority(sa[k - 1], sb[k - 1], carry(sa, sb, c0, (k - 1) as nat))
    }
}

/// The sum bit of column i.
pub open spec fn sum_bit(sa: Seq<bool>, sb: Seq<bool>, c0: bool, i: nat) -> bool {
    sa[i as int] ^ sb[i as int] ^ carry(sa, sb, c0, i)
}

/// Qubit indices that fit the gates' `usize` fields and lie in the vector.
pub open spec fn adder_layout(n: int, a: int, b: int, c: int, len: int) -> bool {
    &&& n >= 1
    &&& 0 <= a
    &&& 0 <= b
    &&& 0 <= c
    &&& a + n <= len
    &&& b + n <= len
    &&& c < len
    &&& len <= usize::MAX
    &&& (a + n <= b || b + n <= a)
    &&& !(a <= c < a + n)
    &&& !(b <= c < b + n)
}

/// The effect of a MAJ block on three distinct in-range qubits.
proof fn lemma_maj_effect(x: int, y: int, z: int, s: Seq<bool>)
    requires
        0 <= x < s.len(),
        0 <= y < s.len(),
        0 <= z < s.len(),
        s.len() <= usize::MAX,
        x != y,
        y != z,
        x != z,
    ensures
        apply_gates(maj(x, y, z), s) == s.update(y, s[y] ^ s[z]).update(x, s[x] ^ s[z]).update(
            z,
            s[z] ^ ((s[x] ^ s[z]) && (s[y] ^ s[z])),
        ),
{
    let g = maj(x, y, z);
    reveal_with_fuel(apply_gates, 4);
    assert(g.drop_last().drop_last().drop_last() =~= Seq::<Gate>::empty());
    let s1 = apply_gate(g[0], s);
    let s2 = apply_gate(g[1], s1);
    let s3 = apply_gate(g[2], s2);
    assert(g.drop_last().drop_last() =~= seq![g[0]]);
    assert(g.drop_last() =~= seq![g[0], g[1]]);
    assert(apply_gates(seq![g[0]], s) == s1) by {
        assert(seq![g[0]].drop_last() =~= Seq::<Gate>::empty());
    }
    assert(s1 =~= s.update(y, s[y] ^ s[z]));
    assert(s2 =~= s1.update(x, s[x] ^ s[z]));
    assert(s3 =~= s2.update(z, s[z] ^ ((s[x] ^ s[z]) && (s[y] ^ s[z]))));
}

/// The effect of a UMA block on three distinct in-range qubits.
proof fn lemma_uma_effect(x: int, y: int, z: int, s: Seq<bool>)
    requires
        0 <= x < s.len(),
        0 <= y < s.len(),
        0 <= z < s.len(),
        s.len() <= usize::MAX,
        x != y,
        y != z,
        x != z,
    ensures
        ({
            let z1 = s[z] ^ (s[x] && s[y]);
            let x1 = s[x] ^ z1;
            apply_gates(uma(x, y, z), s) == s.update(z, z1).update(x, x1).update(y, s[y] ^ x1)
        }),
{
    let g = uma(x, y, z);
    reveal_with_fuel(apply_gates, 4);
    assert(g.drop_last().drop_last().drop_last() =~= Seq::<Gate>::empty());
    assert(g.drop_last().drop_last() =~= seq![g[0]]);
    assert(g.drop_last() =~= seq![g[0], g[1]]);
    let z1 = s[z] ^ (s[x] && s[y]);
    let x1 = s[x] ^ z1;
    let s1 = apply_gate(g[0], s);
    let s2 = apply_gate(g[1], s1);
    let s3 = apply_gate(g[2], s2);
    assert(s1 =~= s.update(z, z1));
    assert(s2 =~= s1.update(x, x1));
    assert(s3 =~= s2.update(y, s[y] ^ x1));
}

/// The state after the MAJ sweep up to column k − 1: the carry qubit holds
/// c ⊕ a₀, a_{i−1} holds carry_i ⊕ a_i for 1 ≤ i < k, a_{k−1} holds
/// carry_k, and b_i holds b_i ⊕ a_i for i < k.
pub open spec fn maj_state(bits: Seq<bool>, n: int, a: int, b: int, c: int, k: int) -> Seq<bool> {
    let sa = bits.subrange(a, a + n);
    let sb = bits.subrange(b, b + n);
    Seq::new(
        bits.len(),
        |t: int|
            if t == c {
                bits[c] ^ bits[a]
            } else if a <= t < a + k - 1 {
                carry(sa, sb, bits[c], (t - a + 1) as nat) ^ bits[t + 1]
            } else if t == a + k - 1 {
                carry(sa, sb, bits[c], k as nat)
            } else if b <= t < b + k {
                bits[t] ^ bits[a + (t - b)]
            } else {
                bits[t]
            },
    )
}

proof fn lemma_maj_first(bits: Seq<bool>, n: int, a: int, b: int, c: int)
    requires
        adder_layout(n, a, b, c, bits.len() as int),
    ensures
        apply_gates(maj(c, b, a) + maj_ladder(a, b, 1, 1), bits) == maj_state(bits, n, a, b, c, 1),
{
    let sa = bits.subrange(a, a + n);
    let sb = bits.subrange(b, b + n);
    let c0 = bits[c];
    assert(maj_ladder(a, b, 1, 1) =~= Seq::<Gate>::empty());
    assert(maj(c, b, a) + maj_ladder(a, b, 1, 1) =~= maj(c, b, a));
    lemma_maj_effect(c, b, a, bits);
    assert(carry(sa, sb, c0, 0) == c0);
    assert(sa[0] == bits[a]);
    assert(sb[0] == bits[b]);
    assert(carry(sa, sb, c0, 1) == majority(bits[a], bits[b], c0));
    let r = apply_gates(maj(c, b, a), bits);
    let m = maj_state(bits, n, a, b, c, 1);
    assert forall|t: int| 0 <= t < bits.len() implies r[t] == m[t] by {
        if t == b {
            assert(b <= t < b + 1);
        }
    }
    assert(r =~= m);
}

proof fn lemma_maj_step(bits: Seq<bool>, n: int, a: int, b: int, c: int, k: int)
    requires
        adder_layout(n, a, b, c, bits.len() as int),
        2 <= k <= n,
    ensures
        apply_gates(maj(a + k - 2, b + k - 1, a + k - 1), maj_state(bits, n, a, b, c, k - 1))
            == maj_state(bits, n, a, b, c, k),
{
    let sa = bits.subrange(a, a + n);
    let sb = bits.subrange(b, b + n);
    let c0 = bits[c];
    let k1 = k - 1;
    let s = maj_state(bits, n, a, b, c, k1);
    lemma_maj_effect(a + k1 - 1, b + k1, a + k1, s);
    assert(s[a + k1 - 1] == carry(sa, sb, c0, k1 as nat));
    assert(s[b + k1] == bits[b + k1]);
    assert(s[a + k1] == bits[a + k1]);
    assert(sa[k1] == bits[a + k1]);
    assert(sb[k1] == bits[b + k1]);
    assert(carry(sa, sb, c0, k as nat) == majority(sa[k1], sb[k1], carry(sa, sb, c0, k1 as nat)));
    let r = apply_gates(maj(a + k1 - 1, b + k1, a + k1), s);
    let m = maj_state(bits, n, a, b, c, k);
    assert forall|t: int| 0 <= t < bits.len() implies r[t] == m[t] by {
        if t == a + k1 - 1 {
            assert(t - a + 1 == k1);
        }
    }
    assert(r =~= m);
}

/// The MAJ sweep of columns 0 … k − 1 leaves `maj_state(k)`.
proof fn lemma_maj_sweep(bits: Seq<bool>, n: int, a: int, b: int, c: int, k: int)
    requires
        adder_layout(n, a, b, c, bits.len() as int),
        1 <= k <= n,
    ensures
        apply_gates(maj(c, b, a) + maj_ladder(a, b, 1, k), bits) == maj_state(bits, n, a, b, c, k),
    decreases k,
{
    if k == 1 {
        lemma_maj_first(bits, n, a, b, c);
    } else {
        let k1 = k - 1;
        lemma_maj_sweep(bits, n, a, b, c, k1);
        let blk = maj(a + k1 - 1, b + k1, a + k1);
        assert(maj(c, b, a) + maj_ladder(a, b, 1, k) =~= (maj(c, b, a) + maj_ladder(a, b, 1, k1)) + blk);
        lemma_apply_gates_concat(maj(c, b, a) + maj_ladder(a, b, 1, k1), blk, bits);
        lemma_maj_step(bits, n, a, b, c, k);
    }
}

/// The state after the UMA sweep down to column j: as after the MAJ sweep
/// below column j, while columns j … n − 1 hold their sum bits in b and
/// their initial bits in a.
pub open spec fn uma_state(bits: Seq<bool>, n: int, a: int, b: int, c: int, j: int) -> Seq<bool> {
    let sa = bits.subrange(a, a + n);
    let sb = bits.subrange(b, b + n);
    Seq::new(
        bits.len(),
        |t: int|
            if t == c {
                bits[c] ^ bits[a]
            } else if a <= t < a + j - 1 {
                carry(sa, sb, bits[c], (t - a + 1) as nat) ^ bits[t + 1]
            } else if t == a + j - 1 {
                carry(sa, sb, bits[c], j as nat)
            } else if b <= t < b + j {
                bits[t] ^ bits[a + (t - b)]
            } else if b + j <= t < b + n {
                sum_bit(sa, sb, bits[c], (t - b) as nat)
            } else {
                bits[t]
            },
    )
}

/// The adder's output: b holds the sum bits, everything else is restored.
pub open spec fn adder_output(bits: Seq<bool>, n: int, a: int, b: int, c: int) -> Seq<bool> {
    let sa = bits.subrange(a, a + n);
    let sb = bits.subrange(b, b + n);
    Seq::new(
        bits.len(),
        |t: int|
            if b <= t < b + n {
                sum_bit(sa, sb, bits[c], (t - b) as nat)
            } else {
                bits[t]
            },
    )
}

proof fn lemma_uma_step(bits: Seq<bool>, n: int, a: int, b: int, c: int, j: int)
    requires
        adder_layout(n, a, b, c, bits.len() as int),
        1 <= j < n,
    ensures
        apply_gates(uma(a + j - 1, b + j, a + j), uma_state(bits, n, a, b, c, j + 1))
            == uma_state(bits, n, a, b, c, j),
{
    let sa = bits.subrange(a, a + n);
    let sb = bits.subrange(b, b + n);
    let c0 = bits[c];
    let s = uma_state(bits, n, a, b, c, j + 1);
    lemma_uma_effect(a + j - 1, b + j, a + j, s);
    assert(s[a + j - 1] == carry(sa, sb, c0, j as nat) ^ bits[a + j]);
    assert(s[b + j] == bits[b + j] ^ bits[a + j]);
    assert(s[a + j] == carry(sa, sb, c0, (j + 1) as nat));
    assert(sa[j] == bits[a + j]);
    assert(sb[j] == bits[b + j]);
    assert(carry(sa, sb, c0, (j + 1) as nat) == majority(sa[j], sb[j], carry(sa, sb, c0, j as nat)));
    let r = apply_gates(uma(a + j - 1, b + j, a + j), s);
    let m = uma_state(bits, n, a, b, c, j);
    assert forall|t: int| 0 <= t < bits.len() implies r[t] == m[t] by {
        if t == a + j - 1 {
            assert(t - a + 1 == j);
        }
    }
    assert(r =~= m);
}

/// The UMA sweep of columns n − 1 down to j after the MAJ sweep.
proof fn lemma_uma_sweep(bits: Seq<bool>, n: int, a: int, b: int, c: int, j: int)
    requires
        adder_layout(n, a, b, c, bits.len() as int),
        1 <= j <= n,
    ensures
        apply_gates(uma_ladder(a, b, j, n), maj_state(bits, n, a, b, c, n)) == uma_state(bits, n, a, b, c, j),
    decreases n - j,
{
    if j == n {
        assert(uma_ladder(a, b, n, n) =~= Seq::<Gate>::empty());
        assert(maj_state(bits, n, a, b, c, n) =~= uma_state(bits, n, a, b, c, n));
    } else {
        lemma_uma_sweep(bits, n, a, b, c, j + 1);
        let blk = uma(a + j - 1, b + j, a + j);
        assert(uma_ladder(a, b, j, n) == uma_ladder(a, b, j + 1, n) + blk);
        lemma_apply_gates_concat(uma_ladder(a, b, j + 1, n), blk, maj_state(bits, n, a, b, c, n));
        lemma_uma_step(bits, n, a, b, c, j);
    }
}

proof fn lemma_uma_last(bits: Seq<bool>, n: int, a: int, b: int, c: int)
    requires
        adder_layout(n, a, b, c, bits.len() as int),
    ensures
        apply_gates(uma(c, b, a), uma_state(bits, n, a, b, c, 1)) == adder_output(bits, n, a, b, c),
{
    let sa = bits.subrange(a, a + n);
    let sb = bits.subrange(b, b + n);
    let c0 = bits[c];
    let s = uma_state(bits, n, a, b, c, 1);
    lemma_uma_effect(c, b, a, s);
    assert(s[c] == c0 ^ bits[a]);
    assert(s[b] == bits[b] ^ bits[a]);
    assert(s[a] == carry(sa, sb, c0, 1));
    assert(carry(sa, sb, c0, 0) == c0);
    assert(sa[0] == bits[a]);
    assert(sb[0] == bits[b]);
    assert(carry(sa, sb, c0, 1) == majority(sa[0], sb[0], c0));
    let r = apply_gates(uma(c, b, a), s);
    let m = adder_output(bits, n, a, b, c);
    assert forall|t: int| 0 <= t < bits.len() implies r[t] == m[t] by {
        if t == b {
            assert(sum_bit(sa, sb, c0, 0) == sa[0] ^ sb[0] ^ c0);
        }
    }
    assert(r =~= m);
}

/// The Cuccaro adder's gates, applied to a bit vector, leave a and the
/// carry qubit unchanged and put the sum bits of a + b + carry into b.
pub proof fn lemma_cuccaro_output(bits: Seq<bool>, n: int, a: int, b: int, c: int)
    requires
        adder_layout(n, a, b, c, bits.len() as int),
    ensures
        apply_gates(cuccaro_gates(n, a, b, c), bits) == adder_output(bits, n, a, b, c),
{
    let m = maj(c, b, a) + maj_ladder(a, b, 1, n);
    let u = uma_ladder(a, b, 1, n);
    let l = uma(c, b, a);
    assert(cuccaro_gates(n, a, b, c) == (m + u) + l);
    lemma_apply_gates_concat(m + u, l, bits);
    lemma_apply_gates_concat(m, u, bits);
    lemma_maj_sweep(bits, n, a, b, c, n);
    lemma_uma_sweep(bits, n, a, b, c, 1);
    lemma_uma_last(bits, n, a, b, c);
}

/// A bit as 0 or 1.
pub open spec fn bit_int(x: bool) -> int {
    if x {
        1
    } else {
        0
    }
}

/// The sum bits of an n-column addition.
pub open spec fn sum_bits(sa: Seq<bool>, sb: Seq<bool>, c0: bool, n: nat) -> Seq<bool> {
    Seq::new(n, |i: int| sum_bit(sa, sb, c0, i as nat))
}

pub proof fn lemma_bits_value_take_step(s: Seq<bool>, k: nat)
    requires
        k < s.len(),
    ensures
        bits_value(s.take(k + 1int)) == bits_value(s.take(k as int)) + bit_int(s[k as int]) * pow2(k),
{
    assert(s.take(k + 1int).drop_last() =~= s.take(k as int));
    assert(s.take(k + 1int).last() == s[k as int]);
}

pub proof fn lemma_bits_value_bound(s: Seq<bool>)
    ensures
        bits_value(s) < pow2(s.len()),
    decreases s.len(),
{
    if s.len() == 0 {
        vstd::arithmetic::power2::lemma2_to64();
    } else {
        lemma_bits_value_bound(s.drop_last());
        lemma_pow2_unfold(s.len());
    }
}

/// Ripple-carry arithmetic: the first k sum bits and the carry into
/// column k add up to the first k bits of a and b plus the carry-in.
proof fn lemma_ripple_sum(sa: Seq<bool>, sb: Seq<bool>, c0: bool, n: nat, k: nat)
    requires
        sa.len() == n,
        sb.len() == n,
        k <= n,
    ensures
        bits_value(sum_bits(sa, sb, c0, n).take(k as int)) + bit_int(carry(sa, sb, c0, k)) * pow2(k)
            == bits_value(sa.take(k as int)) + bits_value(sb.take(k as int)) + bit_int(c0),
    decreases k,
{
    let sums = sum_bits(sa, sb, c0, n);
    if k == 0 {
        assert(sums.take(0) =~= Seq::<bool>::empty());
        assert(sa.take(0) =~= Seq::<bool>::empty());
        assert(sb.take(0) =~= Seq::<bool>::empty());
        vstd::arithmetic::power2::lemma2_to64();
    } else {
        let k1 = (k - 1) as nat;
        lemma_ripple_sum(sa, sb, c0, n, k1);
        lemma_bits_value_take_step(sums, k1);
        lemma_bits_value_take_step(sa, k1);
        lemma_bits_value_take_step(sb, k1);
        lemma_pow2_unfold(k);
        let p = pow2(k1) as int;
        let ck = carry(sa, sb, c0, k1);
        let x = sa[k1 as int];
        let y = sb[k1 as int];
        // full adder: s + 2·carry' = x + y + carry
        assert(bit_int(x ^ y ^ ck) + 2 * bit_int(majority(x, y, ck)) == bit_int(x) + bit_int(y) + bit_int(ck));
        assert(sums[k1 as int] == x ^ y ^ ck);
        assert(carry(sa, sb, c0, k) == majority(x, y, ck));
        assert(bit_int(x ^ y ^ ck) * p + bit_int(majority(x, y, ck)) * (2 * p) == bit_int(x) * p + bit_int(y)
            * p + bit_int(ck) * p) by (nonlinear_arith)
            requires
                bit_int(x ^ y ^ ck) + 2 * bit_int(majority(x, y, ck)) == bit_int(x) + bit_int(y) + bit_int(ck),
        ;
    }
}

/// The Cuccaro adder adds: applied to a bit vector it leaves everything
/// outside b unchanged (a and the carry qubit included) and leaves in b the
/// value (a + b + carry) mod 2^n.
pub proof fn lemma_cuccaro_adds(bits: Seq<bool>, n: int, a: int, b: int, c: int)
    requires
        adder_layout(n, a, b, c, bits.len() as int),
    ensures
        ({
            let out = apply_gates(cuccaro_gates(n, a, b, c), bits);
            &&& out.len() == bits.len()
            &&& forall|t: int| 0 <= t < bits.len() && !(b <= t < b + n) ==> #[trigger] out[t] == bits[t]
            &&& bits_value(out.subrange(b, b + n)) == (bits_value(bits.subrange(a, a + n)) + bits_value(
                bits.subrange(b, b + n),
            ) + bit_int(bits[c])) % (pow2(n as nat) as int)
        }),
{
    lemma_cuccaro_output(bits, n, a, b, c);
    let out = adder_output(bits, n, a, b, c);
    let sa = bits.subrange(a, a + n);
    let sb = bits.subrange(b, b + n);
    let c0 = bits[c];
    let sums = sum_bits(sa, sb, c0, n as nat);
    assert(out.subrange(b, b + n) =~= sums);
    lemma_ripple_sum(sa, sb, c0, n as nat, n as nat);
    assert(sums.take(n) =~= sums);
    assert(sa.take(n) =~= sa);
    assert(sb.take(n) =~= sb);
    lemma_bits_value_bound(sums);
    let total = bits_value(sa) + bits_value(sb) + bit_int(c0);
    let cn = bit_int(carry(sa, sb, c0, n as nat));
    let m = pow2(n as nat) as int;
    assert(total == m * cn + bits_value(sums));
    vstd::arithmetic::div_mod::lemma_mod_multiples_vanish(cn, bits_value(sums) as int, m);
    vstd::arithmetic::div_mod::lemma_small_mod(bits_value(sums), m as nat);
}

/// The capture adder adds like the Cuccaro adder and also flips the
/// carry-out qubit co by the carry out of the top column, that is by
/// whether a + b + carry ≥ 2^n.
pub proof fn lemma_capture_adder_output(bits: Seq<bool>, n: int, a: int, b: int, c: int, co: int)
    requires
        adder_layout(n, a, b, c, bits.len() as int),
        0 <= co < bits.len(),
        co != c,
        !(a <= co < a + n),
        !(b <= co < b + n),
    ensures
        apply_gates(capture_adder_gates(n, a, b, c, co), bits) == adder_output(bits, n, a, b, c).update(
            co,
            bits[co] ^ carry(bits.subrange(a, a + n), bits.subrange(b, b + n), bits[c], n as nat),
        ),
{
    let sa = bits.subrange(a, a + n);
    let sb = bits.subrange(b, b + n);
    let cn = carry(sa, sb, bits[c], n as nat);
    let m = maj(c, b, a) + maj_ladder(a, b, 1, n);
    let x = seq![cnot(a + n - 1, co)];
    let u = uma_ladder(a, b, 1, n);
    let l = uma(c, b, a);
    assert(capture_adder_gates(n, a, b, c, co) == ((m + x) + u) + l);
    lemma_apply_gates_concat((m + x) + u, l, bits);
    lemma_apply_gates_concat(m + x, u, bits);
    lemma_apply_gates_concat(m, x, bits);
    lemma_maj_sweep(bits, n, a, b, c, n);
    let s = maj_state(bits, n, a, b, c, n);
    // the copy of the carry-out
    reveal_with_fuel(apply_gates, 2);
    assert(x.drop_last() =~= Seq::<Gate>::empty());
    assert(s[a + n - 1] == cn);
    let s2 = apply_gates(x, s);
    let bits2 = bits.update(co, bits[co] ^ cn);
    assert(s2 =~= s.update(co, bits[co] ^ cn));
    // the rest runs as on bits with co already flipped
    let sa2 = bits2.subrange(a, a + n);
    let sb2 = bits2.subrange(b, b + n);
    assert(sa2 =~= sa);
    assert(sb2 =~= sb);
    assert(bits2[c] == bits[c]);
    assert(maj_state(bits2, n, a, b, c, n) =~= s2);
    lemma_uma_sweep(bits2, n, a, b, c, 1);
    lemma_uma_last(bits2, n, a, b, c);
    assert(adder_output(bits2, n, a, b, c) =~= adder_output(bits, n, a, b, c).update(co, bits[co] ^ cn));
}


/// The capture adder adds and reports the carry-out: applied to a bit
/// vector it leaves everything outside b and co unchanged, leaves in b the
/// value (a + b + carry) mod 2^n, and flips co exactly when
/// a + b + carry ≥ 2^n.
pub proof fn lemma_capture_adds(bits: Seq<bool>, n: int, a: int, b: int, c: int, co: int)
    requires
        adder_layout(n, a, b, c, bits.len() as int),
        0 <= co < bits.len(),
        co != c,
        !(a <= co < a + n),
        !(b <= co < b + n),
    ensures
        ({
            let out = apply_gates(capture_adder_gates(n, a, b, c, co), bits);
            let total = bits_value(bits.subrange(a, a + n)) + bits_value(bits.subrange(b, b + n)) + bit_int(
                bits[c],
            );
            &&& out.len() == bits.len()
            &&& forall|t: int|
                0 <= t < bits.len() && !(b <= t < b + n) && t != co ==> #[trigger] out[t] == bits[t]
            &&& bits_value(out.subrange(b, b + n)) == total % (pow2(n as nat) as int)
            &&& out[co] == (bits[co] ^ (total >= pow2(n as nat)))
        }),
{
    lemma_capture_adder_output(bits, n, a, b, c, co);
    lemma_cuccaro_output(bits, n, a, b, c);
    lemma_cuccaro_adds(bits, n, a, b, c);
    let out0 = adder_output(bits, n, a, b, c);
    let out = out0.update(co, bits[co] ^ carry(bits.subrange(a, a + n), bits.subrange(b, b + n), bits[c], n as nat));
    assert(out.subrange(b, b + n) =~= out0.subrange(b, b + n));
    let sa = bits.subrange(a, a + n);
    let sb = bits.subrange(b, b + n);
    let c0 = bits[c];
    let sums = sum_bits(sa, sb, c0, n as nat);
    lemma_ripple_sum(sa, sb, c0, n as nat, n as nat);
    assert(sums.take(n) =~= sums);
    assert(sa.take(n) =~= sa);
    assert(sb.take(n) =~= sb);
    lemma_bits_value_bound(sums);
    vstd::arithmetic::power2::lemma_pow2_pos(n as nat);
}

/// On every bit vector with the adder's layout, the gates leave
/// (a + b + carry) mod 2^n in b and every other qubit as it was (closed:
/// `lemma_computes_sum_apply` gives it for one bit vector).
pub closed spec fn computes_sum(gs: Seq<Gate>, n: int, a: int, b: int, c: int) -> bool {
    forall|bits: Seq<bool>|
        #![trigger apply_gates(gs, bits)]
        adder_layout(n, a, b, c, bits.len() as int) ==> {
            let out = apply_gates(gs, bits);
            &&& out.len() == bits.len()
            &&& forall|t: int| 0 <= t < bits.len() && !(b <= t < b + n) ==> #[trigger] out[t] == bits[t]
            &&& bits_value(out.subrange(b, b + n)) == (bits_value(bits.subrange(a, a + n)) + bits_value(
                bits.subrange(b, b + n),
            ) + bit_int(bits[c])) % (pow2(n as nat) as int)
        }
}

/// The Cuccaro adder's gates add on every such bit vector.
pub proof fn lemma_cuccaro_computes_sum(n: int, a: int, b: int, c: int)
    ensures
        computes_sum(cuccaro_gates(n, a, b, c), n, a, b, c),
{
    assert forall|bits: Seq<bool>| adder_layout(n, a, b, c, bits.len() as int) implies {
        let out = apply_gates(cuccaro_gates(n, a, b, c), bits);
        &&& out.len() == bits.len()
        &&& forall|t: int| 0 <= t < bits.len() && !(b <= t < b + n) ==> #[trigger] out[t] == bits[t]
        &&& bits_value(out.subrange(b, b + n)) == (bits_value(bits.subrange(a, a + n)) + bits_value(
            bits.subrange(b, b + n),
        ) + bit_int(bits[c])) % (pow2(n as nat) as int)
    } by {
        lemma_cuccaro_adds(bits, n, a, b, c);
    }
}

/// What `computes_sum` says of one bit vector with the adder's layout.
pub proof fn lemma_computes_sum_apply(gs: Seq<Gate>, n: int, a: int, b: int, c: int, bits: Seq<bool>)
    requires
        computes_sum(gs, n, a, b, c),
        adder_layout(n, a, b, c, bits.len() as int),
    ensures
        ({
            let out = apply_gates(gs, bits);
            &&& out.len() == bits.len()
            &&& forall|t: int| 0 <= t < bits.len() && !(b <= t < b + n) ==> #[trigger] out[t] == bits[t]
            &&& bits_value(out.subrange(b, b + n)) == (bits_value(bits.subrange(a, a + n)) + bits_value(
                bits.subrange(b, b + n),
            ) + bit_int(bits[c])) % (pow2(n as nat) as int)
        }),
{
    assert(apply_gates(gs, bits) == apply_gates(gs, bits));
}

/// The Cuccaro adder run backwards subtracts: on a zero carry its
/// reversed gates leave (b − a) mod 2^n in b and every other qubit as it
/// was.
pub proof fn lemma_cuccaro_subtracts(bits: Seq<bool>, n: int, a: int, b: int, c: int)
    requires
        adder_layout(n, a, b, c, bits.len() as int),
        !bits[c],
    ensures
        ({
            let out = apply_gates(cuccaro_gates(n, a, b, c).reverse(), bits);
            &&& out.len() == bits.len()
            &&& forall|t: int| 0 <= t < bits.len() && !(b <= t < b + n) ==> #[trigger] out[t] == bits[t]
            &&& bits_value(out.subrange(b, b + n)) == (bits_value(bits.subrange(b, b + n)) - bits_value(
                bits.subrange(a, a + n),
            )) % (pow2(n as nat) as int)
        }),
{
    let len = bits.len() as int;
    let m = pow2(n as nat) as int;
    vstd::arithmetic::power2::lemma_pow2_pos(n as nat);
    let av = bits_value(bits.subrange(a, a + n)) as int;
    let bv = bits_value(bits.subrange(b, b + n)) as int;
    let v = ((bv - av) % m) as nat;
    let bits2 = Seq::new(
        bits.len(),
        |t: int|
            if b <= t < b + n {
                crate::reversible::register::bit_of(v, (t - b) as nat)
            } else {
                bits[t]
            },
    );
    let sb = bits2.subrange(b, b + n);
    crate::reversible::register::lemma_bits_value_of_word(sb, v, n as nat);
    assert(sb.take(n) =~= sb);
    vstd::arithmetic::div_mod::lemma_small_mod(v, m as nat);
    assert(bits2.subrange(a, a + n) =~= bits.subrange(a, a + n));
    let cg = cuccaro_gates(n, a, b, c);
    lemma_cuccaro_adds(bits2, n, a, b, c);
    let out2 = apply_gates(cg, bits2);
    lemma_bits_value_bound(bits.subrange(a, a + n));
    lemma_bits_value_bound(bits.subrange(b, b + n));
    vstd::arithmetic::div_mod::lemma_add_mod_noop(av, bv - av, m);
    vstd::arithmetic::div_mod::lemma_small_mod(av as nat, m as nat);
    vstd::arithmetic::div_mod::lemma_small_mod(bv as nat, m as nat);
    vstd::arithmetic::div_mod::lemma_mod_twice(bv - av, m);
    assert(bit_int(bits2[c]) == 0);
    assert(bits_value(out2.subrange(b, b + n)) == bv);
    crate::reversible::modular_adder_laws::lemma_same_value_same_bits(
        out2.subrange(b, b + n),
        bits.subrange(b, b + n),
    );
    assert forall|t: int| 0 <= t < len implies #[trigger] out2[t] == bits[t] by {
        if b <= t < b + n {
            assert(out2.subrange(b, b + n)[t - b] == bits.subrange(b, b + n)[t - b]);
        }
    }
    assert(out2 =~= bits);
    crate::reversible::gate_wf::lemma_ok_adders(n, a, b, c, c, len);
    crate::reversible::gates::lemma_reverse_undoes(cg, bits2);
    let out = apply_gates(cg.reverse(), bits);
    assert(out =~= bits2);
    assert(out.subrange(b, b + n) =~= sb);
}

} // verus!
