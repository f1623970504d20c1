//! What the schoolbook rows do to classical bit vectors: row i adds a[i]·b
//! into the accumulator at column i, with its carry-out, and the n rows
//! leave the integer product a·b in the 2n-bit accumulator.
use crate::reversible::adder::{capture_adder_gates, toffoli};
use crate::reversible::adder_laws::{adder_layout, bit_int, lemma_bits_value_bound, lemma_bits_value_take_step, lemma_capture_adds};
use crate::reversible::blocks::{concat_map, toffoli_row, toffoli_row_gates};
use crate::reversible::gates::{apply_gates, lemma_apply_gates_concat, Gate};
use crate::reversible::multiplier::{mul_row, schoolbook_gates};
use crate::reversible::register::bits_value;
use vstd::arithmetic::power2::pow2;
use vstd::prelude::*;

verus! {

/// The half-open ranges [x, x + nx) and [y, y + ny) do not meet.
pub open spec fn ranges_apart(x: int, nx: int, y: int, ny: int) -> bool {
    x + nx <= y || y + ny <= x
}

/// The schoolbook register layout: operands a[0..n) and b[0..n), the
/// accumulator acc[0..2n), the partial-product row pp[0..n) and the carry
/// qubit c, all inside a vector of `len` bits. The operands may share
/// qubits (squaring); every other pair is disjoint.
pub open spec fn mul_layout(n: int, a: int, b: int, acc: int, pp: int, c: int, len: int) -> bool {
    &&& n >= 1
    &&& 0 <= a && a + n <= len
    &&& 0 <= b && b + n <= len
    &&& 0 <= acc && acc + 2 * n <= len
    &&& 0 <= pp && pp + n <= len
    &&& 0 <= c && c < len
    &&& len <= usize::MAX
    &&& ranges_apart(a, n, acc, 2 * n)
    &&& ranges_apart(a, n, pp, n)
    &&& ranges_apart(b, n, acc, 2 * n)
    &&& ranges_apart(b, n, pp, n)
    &&& ranges_apart(acc, 2 * n, pp, n)
    &&& !(a <= c < a + n)
    &&& !(b <= c < b + n)
    &&& !(acc <= c < acc + 2 * n)
    &&& !(pp <= c < pp + n)
}

/// The qubits t..t+n flipped by x·b[j], the rest as in `bits`.
pub open spec fn row_flipped(bits: Seq<bool>, x: int, b: int, t: int, n: int) -> Seq<bool> {
    Seq::new(
        bits.len(),
        |k: int|
            if t <= k < t + n {
                bits[k] ^ (bits[x] && bits[b + (k - t)])
            } else {
                bits[k]
            },
    )
}

/// A row of Toffolis x, b+j → t+j flips each t+j by x·b[j].
proof fn lemma_toffoli_row_effect(bits: Seq<bool>, x: int, b: int, t: int, n: int)
    requires
        0 <= n,
        0 <= x < bits.len(),
        0 <= b,
        b + n <= bits.len(),
        0 <= t,
        t + n <= bits.len(),
        bits.len() <= usize::MAX,
        !(t <= x < t + n),
        ranges_apart(b, n, t, n),
    ensures
        apply_gates(toffoli_row_gates(x, b, t, n), bits) == row_flipped(bits, x, b, t, n),
    decreases n,
{
    if n == 0 {
        assert(toffoli_row_gates(x, b, t, 0) =~= Seq::<Gate>::empty());
        assert(row_flipped(bits, x, b, t, 0) =~= bits);
    } else {
        lemma_toffoli_row_effect(bits, x, b, t, n - 1);
        let front = toffoli_row_gates(x, b, t, n - 1);
        let last = toffoli_row(x, b, t)(n - 1);
        assert(toffoli_row_gates(x, b, t, n) == front + last);
        lemma_apply_gates_concat(front, last, bits);
        let s = row_flipped(bits, x, b, t, n - 1);
        assert(s[x] == bits[x]);
        assert(s[b + n - 1] == bits[b + n - 1]);
        assert(last == seq![toffoli(x, b + n - 1, t + n - 1)]);
        assert(last.drop_last() =~= Seq::<Gate>::empty());
        reveal_with_fuel(apply_gates, 2);
        assert(apply_gates(last, s) =~= row_flipped(bits, x, b, t, n));
    }
}

/// The value of n zero bits is 0.
pub proof fn lemma_bits_value_zero(s: Seq<bool>)
    requires
        forall|j: int| 0 <= j < s.len() ==> !#[trigger] s[j],
    ensures
        bits_value(s) == 0,
    decreases s.len(),
{
    if s.len() > 0 {
        lemma_bits_value_zero(s.drop_last());
    }
}

/// One schoolbook row i adds a[i]·b into the accumulator window
/// acc[i..i+n) when the partial-product row and the carry qubit start at
/// zero: the window keeps the sum modulo 2^n and the qubit acc[i+n] is
/// flipped by its carry-out; every other qubit (operands, partial-product
/// row and carry included) ends as it began.
pub proof fn lemma_mul_row_adds(bits: Seq<bool>, n: int, a: int, b: int, acc: int, pp: int, c: int, i: int)
    requires
        mul_layout(n, a, b, acc, pp, c, bits.len() as int),
        0 <= i < n,
        forall|j: int| 0 <= j < n ==> !#[trigger] bits[pp + j],
        !bits[c],
    ensures
        ({
            let out = apply_gates(mul_row(n, a, b, acc, pp, c)(i), bits);
            let total = bits_value(bits.subrange(acc + i, acc + i + n)) + if bits[a + i] {
                bits_value(bits.subrange(b, b + n)) as int
            } else {
                0
            };
            &&& out.len() == bits.len()
            &&& forall|t: int|
                0 <= t < bits.len() && !(acc + i <= t <= acc + i + n) ==> #[trigger] out[t] == bits[t]
            &&& bits_value(out.subrange(acc + i, acc + i + n)) == total % (pow2(n as nat) as int)
            &&& out[acc + i + n] == (bits[acc + i + n] ^ (total >= pow2(n as nat)))
        }),
{
    let co = acc + i + n;
    let load = toffoli_row_gates(a + i, b, pp, n);
    let add = capture_adder_gates(n, pp, acc + i, c, co);
    assert(mul_row(n, a, b, acc, pp, c)(i) == load + add + load);
    lemma_apply_gates_concat(load + add, load, bits);
    lemma_apply_gates_concat(load, add, bits);
    // load: pp = a[i]·b
    lemma_toffoli_row_effect(bits, a + i, b, pp, n);
    let s1 = row_flipped(bits, a + i, b, pp, n);
    let pp1 = s1.subrange(pp, pp + n);
    assert forall|j: int| 0 <= j < n implies #[trigger] pp1[j] == (bits[a + i] && bits[b + j]) by {
        assert(pp1[j] == s1[pp + j]);
        assert(!bits[pp + j]);
    }
    if bits[a + i] {
        assert(pp1 =~= bits.subrange(b, b + n));
    } else {
        lemma_bits_value_zero(pp1);
    }
    assert(s1[c] == bits[c]);
    assert(s1[co] == bits[co]);
    assert(s1.subrange(acc + i, acc + i + n) =~= bits.subrange(acc + i, acc + i + n));
    // add: acc window += pp, carry-out into acc[i+n]
    assert(adder_layout(n, pp, acc + i, c, bits.len() as int));
    lemma_capture_adds(s1, n, pp, acc + i, c, co);
    let s2 = apply_gates(add, s1);
    assert(bit_int(s1[c]) == 0);
    // unload: pp back to zero
    assert(s2[a + i] == bits[a + i]);
    lemma_toffoli_row_effect(s2, a + i, b, pp, n);
    let s3 = row_flipped(s2, a + i, b, pp, n);
    assert forall|t: int|
        0 <= t < bits.len() && !(acc + i <= t <= acc + i + n) implies #[trigger] s3[t] == bits[t] by {
        if pp <= t < pp + n {
            assert(s2[t] == s1[t]);
            assert(s2[b + (t - pp)] == s1[b + (t - pp)]);
            assert(s1[b + (t - pp)] == bits[b + (t - pp)]);
        } else {
            assert(s2[t] == s1[t]);
        }
    }
    assert(s3.subrange(acc + i, acc + i + n) =~= s2.subrange(acc + i, acc + i + n));
    assert(s3[co] == s2[co]);
}

/// The value of a bit string splits at any position k: the low k bits plus
/// 2^k times the rest.
pub proof fn lemma_value_split(s: Seq<bool>, k: int)
    requires
        0 <= k <= s.len(),
    ensures
        bits_value(s) == bits_value(s.subrange(0, k)) + pow2(k as nat) * bits_value(s.subrange(k, s.len() as int)),
    decreases s.len(),
{
    vstd::arithmetic::power2::lemma_pow2_pos(k as nat);
    if k == s.len() {
        assert(s.subrange(0, k) =~= s);
        assert(s.subrange(k, s.len() as int) =~= Seq::<bool>::empty());
        assert(bits_value(s.subrange(k, s.len() as int)) == 0);
        assert(pow2(k as nat) * bits_value(s.subrange(k, s.len() as int)) == 0) by (nonlinear_arith)
            requires
                bits_value(s.subrange(k, s.len() as int)) == 0,
        ;
    } else {
        let t = s.drop_last();
        lemma_value_split(t, k);
        assert(t.subrange(0, k) =~= s.subrange(0, k));
        let hi = s.subrange(k, s.len() as int);
        assert(hi.drop_last() =~= t.subrange(k, t.len() as int));
        assert(hi.last() == s.last());
        let e = (hi.len() - 1) as nat;
        vstd::arithmetic::power2::lemma_pow2_adds(k as nat, e);
        assert(k + e == s.len() - 1);
        let x: int = if s.last() {
            pow2(e) as int
        } else {
            0
        };
        let xs: int = if s.last() {
            pow2((s.len() - 1) as nat) as int
        } else {
            0
        };
        assert(bits_value(s) == bits_value(t) + xs);
        assert(bits_value(hi) == bits_value(hi.drop_last()) + x);
        let y = bits_value(hi.drop_last()) as int;
        let pk = pow2(k as nat) as int;
        assert(pk * (y + x) == pk * y + pk * x) by (nonlinear_arith);
        assert(pk * x == xs);
        assert(bits_value(t) == bits_value(s.subrange(0, k)) + pk * y);
        assert(bits_value(hi) == y + x);
        assert(bits_value(s) == bits_value(s.subrange(0, k)) + pk * bits_value(hi));
    }
}

/// A bit string of value 0 has no set bit.
proof fn lemma_value_zero_bits(s: Seq<bool>)
    requires
        bits_value(s) == 0,
    ensures
        forall|j: int| 0 <= j < s.len() ==> !#[trigger] s[j],
    decreases s.len(),
{
    if s.len() > 0 {
        vstd::arithmetic::power2::lemma_pow2_pos((s.len() - 1) as nat);
        lemma_value_zero_bits(s.drop_last());
        assert forall|j: int| 0 <= j < s.len() implies !#[trigger] s[j] by {
            if j < s.len() - 1 {
                assert(s[j] == s.drop_last()[j]);
            }
        }
    }
}

#[verifier::rlimit(100)]
#[verifier::spinoff_prover]
/// After the first k rows, starting from a zero accumulator, the 2n-bit
/// accumulator holds (a mod 2^k)·b exactly, and nothing outside it has
/// changed.
pub proof fn lemma_schoolbook_rows_product(bits: Seq<bool>, n: int, a: int, b: int, acc: int, pp: int, c: int, k: int)
    requires
        mul_layout(n, a, b, acc, pp, c, bits.len() as int),
        0 <= k <= n,
        forall|j: int| 0 <= j < n ==> !#[trigger] bits[pp + j],
        !bits[c],
        forall|j: int| 0 <= j < 2 * n ==> !#[trigger] bits[acc + j],
    ensures
        ({
            let out = apply_gates(concat_map(mul_row(n, a, b, acc, pp, c), 0, k), bits);
            &&& out.len() == bits.len()
            &&& forall|t: int|
                0 <= t < bits.len() && !(acc <= t < acc + 2 * n) ==> #[trigger] out[t] == bits[t]
            &&& bits_value(out.subrange(acc, acc + 2 * n)) == bits_value(bits.subrange(a, a + k)) * bits_value(
                bits.subrange(b, b + n),
            )
        }),
    decreases k,
{
    let f = mul_row(n, a, b, acc, pp, c);
    let bv = bits_value(bits.subrange(b, b + n)) as int;
    if k == 0 {
        assert(concat_map(f, 0, 0) =~= Seq::<Gate>::empty());
        assert forall|j: int| 0 <= j < 2 * n implies !#[trigger] bits.subrange(acc, acc + 2 * n)[j] by {
            assert(!bits[acc + j]);
        }
        lemma_bits_value_zero(bits.subrange(acc, acc + 2 * n));
        assert(bits.subrange(a, a) =~= Seq::<bool>::empty());
        assert(bits_value(bits.subrange(a, a + k)) == 0);
        assert(bits_value(bits.subrange(a, a + k)) * bv == 0) by (nonlinear_arith)
            requires
                bits_value(bits.subrange(a, a + k)) == 0,
        ;
        assert(apply_gates(concat_map(f, 0, 0), bits) == bits);
    } else {
        let i = k - 1;
        lemma_schoolbook_rows_product(bits, n, a, b, acc, pp, c, i);
        let s = apply_gates(concat_map(f, 0, i), bits);
        assert(concat_map(f, 0, k) == concat_map(f, 0, i) + f(i));
        lemma_apply_gates_concat(concat_map(f, 0, i), f(i), bits);
        assert forall|j: int| 0 <= j < n implies !#[trigger] s[pp + j] by {
            assert(!bits[pp + j]);
        }
        assert(s.subrange(b, b + n) =~= bits.subrange(b, b + n));
        assert(s[a + i] == bits[a + i]);
        lemma_mul_row_adds(s, n, a, b, acc, pp, c, i);
        let out = apply_gates(f(i), s);
        // the accumulator before the row: value V = (a mod 2^i)·b < 2^(n+i)
        let av = bits_value(bits.subrange(a, a + i)) as int;
        let sacc = s.subrange(acc, acc + 2 * n);
        let v = bits_value(sacc) as int;
        lemma_bits_value_bound(bits.subrange(a, a + i));
        lemma_bits_value_bound(bits.subrange(b, b + n));
        vstd::arithmetic::power2::lemma_pow2_adds(i as nat, n as nat);
        assert(v < pow2((i + n) as nat)) by (nonlinear_arith)
            requires
                v == av * bv,
                0 <= av < pow2(i as nat),
                0 <= bv < pow2(n as nat),
                pow2((i + n) as nat) == pow2(i as nat) * pow2(n as nat),
        ;
        // split the accumulator: low i bits, the window, its carry bit, the rest
        let lo = sacc.subrange(0, i);
        let up = sacc.subrange(i, 2 * n);
        lemma_value_split(sacc, i);
        assert(sacc.subrange(i, sacc.len() as int) =~= up);
        let u = bits_value(up) as int;
        vstd::arithmetic::power2::lemma_pow2_pos(i as nat);
        assert(u < pow2(n as nat)) by (nonlinear_arith)
            requires
                v == bits_value(lo) + pow2(i as nat) * u,
                v < pow2(i as nat) * pow2(n as nat),
                bits_value(lo) >= 0,
                pow2(i as nat) > 0,
        ;
        let win = up.subrange(0, n);
        let top = up.subrange(n, 2 * n - i);
        lemma_value_split(up, n);
        assert(up.subrange(n, up.len() as int) =~= top);
        assert(up.subrange(0, n) =~= win);
        vstd::arithmetic::power2::lemma_pow2_pos(n as nat);
        assert(bits_value(top) == 0) by (nonlinear_arith)
            requires
                u == bits_value(win) + pow2(n as nat) * bits_value(top),
                u < pow2(n as nat),
                bits_value(win) >= 0,
                bits_value(top) >= 0,
        ;
        lemma_value_zero_bits(top);
        assert(!top[0]);
        assert(top[0] == s[acc + i + n]);
        assert(win =~= s.subrange(acc + i, acc + i + n));
        let w = bits_value(win) as int;
        assert(u == w) by (nonlinear_arith)
            requires
                u == w + pow2(n as nat) * bits_value(top),
                bits_value(top) == 0,
        ;
        let bit = bits[a + i];
        let total = w + if bit {
            bv
        } else {
            0
        };
        // after the row: the window and its carry bit hold the full sum
        let oacc = out.subrange(acc, acc + 2 * n);
        let olo = oacc.subrange(0, i);
        let oup = oacc.subrange(i, 2 * n);
        lemma_value_split(oacc, i);
        assert(oacc.subrange(i, oacc.len() as int) =~= oup);
        assert(olo =~= lo);
        let owin = oup.subrange(0, n);
        let otop = oup.subrange(n, 2 * n - i);
        lemma_value_split(oup, n);
        assert(oup.subrange(n, oup.len() as int) =~= otop);
        assert(oup.subrange(0, n) =~= owin);
        assert(owin =~= out.subrange(acc + i, acc + i + n));
        let otop1 = otop.subrange(0, 1);
        let otop2 = otop.subrange(1, otop.len() as int);
        lemma_value_split(otop, 1);
        assert(otop.subrange(0, 1) =~= otop1);
        assert(otop2 =~= top.subrange(1, top.len() as int));
        lemma_bits_value_zero(top.subrange(1, top.len() as int));
        assert(otop1 =~= seq![out[acc + i + n]]);
        assert(bits_value(seq![out[acc + i + n]]) == if out[acc + i + n] {
            1int
        } else {
            0
        }) by {
            assert(seq![out[acc + i + n]].drop_last() =~= Seq::<bool>::empty());
            vstd::arithmetic::power2::lemma2_to64();
            reveal_with_fuel(bits_value, 2);
        }
        assert(total < 2 * pow2(n as nat));
        let m = pow2(n as nat) as int;
        assert(bits_value(oup) == total) by (nonlinear_arith)
            requires
                bits_value(oup) == bits_value(owin) + m * bits_value(otop),
                bits_value(otop) == (if total >= m {
                    1int
                } else {
                    0
                }),
                bits_value(owin) == total % m,
                0 <= total < 2 * m,
                m > 0,
        ;
        lemma_bits_value_take_step(bits.subrange(a, a + k), i as nat);
        assert(bits.subrange(a, a + k).take(i) =~= bits.subrange(a, a + i));
        assert(bits.subrange(a, a + k).take(k) =~= bits.subrange(a, a + k));
        assert(bits.subrange(a, a + k)[i] == bit);
        let p = pow2(i as nat) as int;
        assert(bits_value(oacc) == (av + bit_int(bit) * p) * bv) by (nonlinear_arith)
            requires
                bits_value(oacc) == bits_value(lo) + p * total,
                v == bits_value(lo) + p * w,
                v == av * bv,
                total == w + (if bit {
                    bv
                } else {
                    0
                }),
                bit_int(bit) == (if bit {
                    1int
                } else {
                    0
                }),
        ;
        assert(bits_value(bits.subrange(a, a + k)) == av + bit_int(bit) * p);
        assert(bits_value(oacc) == bits_value(bits.subrange(a, a + k)) * bv);
        assert forall|t: int| 0 <= t < bits.len() && !(acc <= t < acc + 2 * n) implies #[trigger] out[t]
            == bits[t] by {
            assert(out[t] == s[t]);
        }
        assert(out.subrange(acc, acc + 2 * n) == oacc);
    }
}

/// The schoolbook rows compute the integer product: from a zero
/// accumulator, partial-product row and carry qubit, they leave a·b in the
/// 2n-bit accumulator and every other qubit as it was.
pub proof fn lemma_schoolbook_product(bits: Seq<bool>, n: int, a: int, b: int, acc: int, pp: int, c: int)
    requires
        mul_layout(n, a, b, acc, pp, c, bits.len() as int),
        forall|j: int| 0 <= j < n ==> !#[trigger] bits[pp + j],
        !bits[c],
        forall|j: int| 0 <= j < 2 * n ==> !#[trigger] bits[acc + j],
    ensures
        ({
            let out = apply_gates(schoolbook_gates(n, a, b, acc, pp, c), bits);
            &&& out.len() == bits.len()
            &&& forall|t: int|
                0 <= t < bits.len() && !(acc <= t < acc + 2 * n) ==> #[trigger] out[t] == bits[t]
            &&& bits_value(out.subrange(acc, acc + 2 * n)) == bits_value(bits.subrange(a, a + n)) * bits_value(
                bits.subrange(b, b + n),
            )
        }),
{
    lemma_schoolbook_rows_product(bits, n, a, b, acc, pp, c, n);
}

} // verus!
