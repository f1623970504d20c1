//! Reversible Montgomery multiplication and the classical Montgomery-form
//! conversions.
use crate::group_action::continued_fraction::{abs_int, lemma_ext_euclid_step, spec_gcd};
use crate::reversible::adder::{cuccaro_gates, cuccaro_len, lemma_cuccaro_len, not_gate, CuccaroAdder};
use crate::reversible::blocks::{
    append_copy, append_copy_of, append_recorded, append_reversed, append_toffoli_row, concat_map,
    copy_gates, lemma_block_lens, lemma_concat_map_split, toffoli_row_gates,
};
use crate::reversible::gates::Gate;
use crate::reversible::multiplier::{bennett, cuccaro_subtract, imin};
use crate::reversible::resource_counter::{
    ancilla_room, ancilla_scope, emit, gate_room, gates_recorded, lemma_gates_recorded_concat,
    lemma_room_left, qubits_unchanged, ResourceCounter,
};
use vstd::arithmetic::div_mod::{lemma_mod_bound, lemma_mod_multiples_vanish};
use vstd::prelude::*;

verus! {

/// NOT gates on base+i for every i < hi with bits[i] set.
pub open spec fn bool_where_set(bits: Seq<bool>, base: int, hi: int) -> Seq<Gate>
    decreases hi,
{
    if hi <= 0 {
        Seq::empty()
    } else {
        bool_where_set(bits, base, hi - 1) + if bits[hi - 1] {
            seq![not_gate(base + hi - 1)]
        } else {
            Seq::empty()
        }
    }
}

/// One Montgomery round i: t += a[i]·b at column i, then t += t[i]·p at
/// column i (which clears t[i]; the right shift is a relabelling).
pub open spec fn mont_row(n: int, a: int, b: int, t: int, p_reg: int, carry: int, pp: int) -> spec_fn(int) -> Seq<Gate> {
    |i: int|
        toffoli_row_gates(a + i, b, pp, n) + cuccaro_gates(imin(n, n + 2 - i), pp, t + i, carry)
            + toffoli_row_gates(a + i, b, pp, n) + toffoli_row_gates(t + i, p_reg, pp, n) + cuccaro_gates(
            imin(n, n + 2 - i),
            pp,
            t + i,
            carry,
        ) + toffoli_row_gates(t + i, p_reg, pp, n)
}

/// The forward pass: load p, n rounds, final subtraction of p from t[n..2n],
/// unload p.  Workspace: t at ws (n+2), p at ws+n+2, carry ws+2n+2, pp
/// ws+2n+3.
pub open spec fn mont_forward(n: int, a: int, b: int, ws: int, p_bits: Seq<bool>) -> Seq<Gate> {
    let m = imin(n, p_bits.len() as int);
    bool_where_set(p_bits, ws + n + 2, m) + concat_map(
        mont_row(n, a, b, ws, ws + n + 2, ws + 2 * n + 2, ws + 2 * n + 3),
        0,
        n,
    ) + cuccaro_gates(n, ws + n + 2, ws + n, ws + 2 * n + 2).reverse() + bool_where_set(
        p_bits,
        ws + n + 2,
        m,
    )
}

/// The whole Montgomery multiplier.
pub open spec fn mont_gates(n: int, a: int, b: int, result: int, ws: int, p_bits: Seq<bool>) -> Seq<Gate> {
    bennett(mont_forward(n, a, b, ws, p_bits), copy_gates(ws + n, result, n))
}

pub proof fn lemma_bool_where_set_len(bits: Seq<bool>, base: int, lo: int, hi: int)
    requires
        0 <= lo <= hi,
    ensures
        bool_where_set(bits, base, lo).len() <= bool_where_set(bits, base, hi).len() <= bool_where_set(
            bits,
            base,
            lo,
        ).len() + (hi - lo),
    decreases hi - lo,
{
    if hi > lo {
        lemma_bool_where_set_len(bits, base, lo, hi - 1);
    }
}

/// Appends the NOTs loading the bits of p.
fn append_bool_where_set(
    gates: &mut Vec<Gate>,
    counter: &mut ResourceCounter,
    bits: &[bool],
    base: usize,
    m: usize,
)
    requires
        m <= bits@.len(),
        base + m <= usize::MAX,
        gate_room(*old(counter), m as int),
    ensures
        final(gates)@ == old(gates)@ + bool_where_set(bits@, base as int, m as int),
        gates_recorded(*old(counter), *final(counter), bool_where_set(bits@, base as int, m as int)),
        qubits_unchanged(*old(counter), *final(counter)),
{
    let ghost c0 = *counter;
    let ghost g0 = gates@;
    let mut i: usize = 0;
    while i < m
        invariant
            i <= m,
            m <= bits@.len(),
            base + m <= usize::MAX,
            gate_room(c0, m as int),
            gates@ == g0 + bool_where_set(bits@, base as int, i as int),
            gates_recorded(c0, *counter, bool_where_set(bits@, base as int, i as int)),
            qubits_unchanged(c0, *counter),
        decreases m - i,
    {
        proof {
            lemma_bool_where_set_len(bits@, base as int, 0, i as int);
        }
        if bits[i] {
            proof {
                lemma_room_left(c0, *counter, bool_where_set(bits@, base as int, i as int), m as int, 1);
            }
            let ghost c1 = *counter;
            emit(gates, counter, Gate::Not { target: base + i });
            proof {
                lemma_gates_recorded_concat(
                    c0,
                    c1,
                    *counter,
                    bool_where_set(bits@, base as int, i as int),
                    seq![not_gate(base + i)],
                );
            }
        }
        proof {
            assert(gates@ =~= g0 + bool_where_set(bits@, base as int, i + 1));
        }
        i = i + 1;
    }
}

/// Appends Montgomery round i.
#[verifier::rlimit(30)]
fn append_mont_row(
    gates: &mut Vec<Gate>,
    counter: &mut ResourceCounter,
    n: usize,
    a: usize,
    b: usize,
    ws: usize,
    i: usize,
)
    requires
        i < n,
        a + n <= usize::MAX,
        b + n <= usize::MAX,
        ws + 3 * n + 3 <= usize::MAX,
        gate_room(
            *old(counter),
            mont_row(n as int, a as int, b as int, ws as int, ws + n + 2, ws + 2 * n + 2, ws + 2 * n + 3)(
                i as int,
            ).len() as int,
        ),
    ensures
        final(gates)@ == old(gates)@ + mont_row(
            n as int,
            a as int,
            b as int,
            ws as int,
            ws + n + 2,
            ws + 2 * n + 2,
            ws + 2 * n + 3,
        )(i as int),
        gates_recorded(
            *old(counter),
            *final(counter),
            mont_row(n as int, a as int, b as int, ws as int, ws + n + 2, ws + 2 * n + 2, ws + 2 * n + 3)(
                i as int,
            ),
        ),
        qubits_unchanged(*old(counter), *final(counter)),
{
    let ghost c0 = *counter;
    let ghost g0 = gates@;
    let t = ws;
    let p_reg = ws + n + 2;
    let carry = ws + 2 * n + 2;
    let pp = ws + 2 * n + 3;
    let add_width = if n < n + 2 - i {
        n
    } else {
        n + 2 - i
    };
    let ghost r1 = toffoli_row_gates((a + i) as int, b as int, pp as int, n as int);
    let ghost ad = cuccaro_gates(add_width as int, pp as int, (t + i) as int, carry as int);
    let ghost r2 = toffoli_row_gates((t + i) as int, p_reg as int, pp as int, n as int);
    let ghost step = mont_row(n as int, a as int, b as int, ws as int, ws + n + 2, ws + 2 * n + 2, ws + 2 * n + 3)(
        i as int,
    );
    proof {
        assert(step == r1 + ad + r1 + r2 + ad + r2);
        lemma_block_lens((a + i) as int, b as int, pp as int, n as int);
        lemma_block_lens((t + i) as int, p_reg as int, pp as int, n as int);
        lemma_cuccaro_len(add_width as int, pp as int, (t + i) as int, carry as int);
    }
    append_toffoli_row(gates, counter, a + i, b, pp, n);
    let ghost c1 = *counter;
    proof {
        lemma_room_left(c0, c1, r1, step.len() as int, cuccaro_len(add_width as int));
    }
    if add_width > 0 {
        let adder = CuccaroAdder::new(add_width);
        let sub = adder.forward_gates(pp, t + i, carry, counter);
        let ghost c2 = *counter;
        append_recorded(gates, sub, Ghost(c0), Ghost(c1), Ghost(c2), Ghost(r1));
    }
    let ghost c2 = *counter;
    proof {
        lemma_room_left(c0, c2, r1 + ad, step.len() as int, n as int);
    }
    append_toffoli_row(gates, counter, a + i, b, pp, n);
    let ghost c3 = *counter;
    proof {
        lemma_gates_recorded_concat(c0, c2, c3, r1 + ad, r1);
        lemma_room_left(c0, c3, r1 + ad + r1, step.len() as int, n as int);
    }
    append_toffoli_row(gates, counter, t + i, p_reg, pp, n);
    let ghost c4 = *counter;
    proof {
        lemma_gates_recorded_concat(c0, c3, c4, r1 + ad + r1, r2);
        lemma_room_left(c0, c4, r1 + ad + r1 + r2, step.len() as int, cuccaro_len(add_width as int));
    }
    if add_width > 0 {
        let adder = CuccaroAdder::new(add_width);
        let sub = adder.forward_gates(pp, t + i, carry, counter);
        let ghost c5 = *counter;
        append_recorded(gates, sub, Ghost(c0), Ghost(c4), Ghost(c5), Ghost(r1 + ad + r1 + r2));
    }
    let ghost c5 = *counter;
    proof {
        lemma_room_left(c0, c5, r1 + ad + r1 + r2 + ad, step.len() as int, n as int);
    }
    append_toffoli_row(gates, counter, t + i, p_reg, pp, n);
    proof {
        lemma_gates_recorded_concat(c0, c5, *counter, r1 + ad + r1 + r2 + ad, r2);
        assert(gates@ =~= g0 + step);
    }
}

/// Appends the n Montgomery rounds.
fn append_mont_rows(gates: &mut Vec<Gate>, counter: &mut ResourceCounter, n: usize, a: usize, b: usize, ws: usize)
    requires
        a + n <= usize::MAX,
        b + n <= usize::MAX,
        ws + 3 * n + 3 <= usize::MAX,
        gate_room(
            *old(counter),
            concat_map(
                mont_row(n as int, a as int, b as int, ws as int, ws + n + 2, ws + 2 * n + 2, ws + 2 * n + 3),
                0,
                n as int,
            ).len() as int,
        ),
    ensures
        final(gates)@ == old(gates)@ + concat_map(
            mont_row(n as int, a as int, b as int, ws as int, ws + n + 2, ws + 2 * n + 2, ws + 2 * n + 3),
            0,
            n as int,
        ),
        gates_recorded(
            *old(counter),
            *final(counter),
            concat_map(
                mont_row(n as int, a as int, b as int, ws as int, ws + n + 2, ws + 2 * n + 2, ws + 2 * n + 3),
                0,
                n as int,
            ),
        ),
        qubits_unchanged(*old(counter), *final(counter)),
{
    let ghost c0 = *counter;
    let ghost g0 = gates@;
    let ghost f = mont_row(n as int, a as int, b as int, ws as int, ws + n + 2, ws + 2 * n + 2, ws + 2 * n + 3);
    let ghost total = concat_map(f, 0, n as int);
    let mut i: usize = 0;
    while i < n
        invariant
            i <= n,
            a + n <= usize::MAX,
            b + n <= usize::MAX,
            ws + 3 * n + 3 <= usize::MAX,
            f == mont_row(n as int, a as int, b as int, ws as int, ws + n + 2, ws + 2 * n + 2, ws + 2 * n + 3),
            total == concat_map(f, 0, n as int),
            gate_room(c0, total.len() as int),
            gates@ == g0 + concat_map(f, 0, i as int),
            gates_recorded(c0, *counter, concat_map(f, 0, i as int)),
            qubits_unchanged(c0, *counter),
        decreases n - i,
    {
        let ghost d0 = concat_map(f, 0, i as int);
        proof {
            lemma_concat_map_split(f, 0, i + 1, n as int);
            assert(concat_map(f, 0, i + 1) == d0 + f(i as int));
            lemma_room_left(c0, *counter, d0, total.len() as int, f(i as int).len() as int);
        }
        let ghost c1 = *counter;
        append_mont_row(gates, counter, n, a, b, ws, i);
        proof {
            lemma_gates_recorded_concat(c0, c1, *counter, d0, f(i as int));
            assert(gates@ =~= g0 + concat_map(f, 0, i + 1));
        }
        i = i + 1;
    }
}

/// Reversible Montgomery multiplication for GF(p): values are kept in
/// Montgomery form ā = a·R mod p (R = 2^n), and the product
/// MonMul(ā, b̄) = a·b·R mod p is reduced by bit-serial corrections and
/// right shifts (relabelling) instead of a folding reduction.
pub struct MontgomeryMultiplier {
    /// Number of bits per operand.
    pub n: usize,
}

impl MontgomeryMultiplier {
    pub fn new(n: usize) -> (r: Self)
        ensures
            r.n == n,
    {
        Self { n }
    }

    /// Workspace qubits: t (n+2), the prime register (n), a carry and the
    /// partial-product scratch (n): 3n + 3.
    pub fn workspace_size(n: usize) -> (r: usize)
        requires
            3 * n + 3 <= usize::MAX,
        ensures
            r == 3 * n + 3,
    {
        3 * n + 3
    }

    /// The Montgomery multiplier's gates: forward pass (load p, n rounds,
    /// final subtraction, unload p), copy of t[n..2n] into `result`, forward
    /// pass reversed.  The workspace is allocated and released in the
    /// counter.
    pub fn forward_gates(
        &self,
        a_offset: usize,
        b_offset: usize,
        result_offset: usize,
        workspace_offset: usize,
        p_bits: &[bool],
        counter: &mut ResourceCounter,
    ) -> (r: Vec<Gate>)
        requires
            a_offset + self.n <= usize::MAX,
            b_offset + self.n <= usize::MAX,
            result_offset + self.n <= usize::MAX,
            workspace_offset + 3 * self.n + 3 <= usize::MAX,
            gate_room(
                *old(counter),
                mont_gates(
                    self.n as int,
                    a_offset as int,
                    b_offset as int,
                    result_offset as int,
                    workspace_offset as int,
                    p_bits@,
                ).len() as int,
            ),
            ancilla_room(*old(counter), 3 * self.n + 3, 3 * self.n + 3),
        ensures
            r@ == mont_gates(
                self.n as int,
                a_offset as int,
                b_offset as int,
                result_offset as int,
                workspace_offset as int,
                p_bits@,
            ),
            gates_recorded(*old(counter), *final(counter), r@),
            ancilla_scope(*old(counter), *final(counter), 3 * self.n + 3, 3 * self.n + 3),
    {
        let n = self.n;
        let ghost c0 = *counter;
        let ws = workspace_offset;
        let p_reg = ws + n + 2;
        let carry = ws + 2 * n + 2;
        let result_start = ws + n;
        let m = if n < p_bits.len() {
            n
        } else {
            p_bits.len()
        };
        let ghost ld = bool_where_set(p_bits@, p_reg as int, m as int);
        let ghost f = mont_row(n as int, a_offset as int, b_offset as int, ws as int, ws + n + 2, ws + 2 * n + 2, ws
            + 2 * n + 3);
        let ghost rows = concat_map(f, 0, n as int);
        let ghost sub_p = cuccaro_gates(n as int, p_reg as int, result_start as int, carry as int).reverse();
        let ghost fwd_spec = mont_forward(n as int, a_offset as int, b_offset as int, ws as int, p_bits@);
        let ghost total = mont_gates(
            n as int,
            a_offset as int,
            b_offset as int,
            result_offset as int,
            ws as int,
            p_bits@,
        );
        proof {
            assert(fwd_spec == ld + rows + sub_p + ld);
            lemma_bool_where_set_len(p_bits@, p_reg as int, 0, m as int);
            lemma_cuccaro_len(n as int, p_reg as int, result_start as int, carry as int);
            lemma_block_lens(result_start as int, result_offset as int, 0, n as int);
            assert(total.len() == 2 * fwd_spec.len() + n);
        }
        let total_ws = Self::workspace_size(n);
        counter.allocate_ancilla(total_ws);
        let ghost c1 = *counter;
        proof {
            lemma_room_left(c0, c1, Seq::empty(), total.len() as int, m as int);
        }
        let mut fwd: Vec<Gate> = Vec::new();
        append_bool_where_set(&mut fwd, counter, p_bits, p_reg, m);
        let ghost c2 = *counter;
        proof {
            lemma_room_left(c0, c2, ld, total.len() as int, rows.len() as int);
        }
        append_mont_rows(&mut fwd, counter, n, a_offset, b_offset, ws);
        proof {
            lemma_gates_recorded_concat(c0, c2, *counter, ld, rows);
        }
        let ghost c3 = *counter;
        proof {
            lemma_room_left(c0, c3, ld + rows, total.len() as int, cuccaro_len(n as int));
        }
        let sub = cuccaro_subtract(n, p_reg, result_start, carry, counter);
        let ghost c4 = *counter;
        append_recorded(&mut fwd, sub, Ghost(c0), Ghost(c3), Ghost(c4), Ghost(ld + rows));
        proof {
            lemma_room_left(c0, c4, ld + rows + sub_p, total.len() as int, m as int);
        }
        let ghost d1 = fwd@;
        append_bool_where_set(&mut fwd, counter, p_bits, p_reg, m);
        let ghost c5 = *counter;
        proof {
            lemma_gates_recorded_concat(c0, c4, c5, d1, ld);
            assert(fwd@ =~= fwd_spec);
            lemma_room_left(c0, c5, fwd_spec, total.len() as int, n as int);
        }
        let mut gates: Vec<Gate> = Vec::new();
        append_copy_of(&mut gates, &fwd);
        append_copy(&mut gates, counter, result_start, result_offset, n);
        let ghost c6 = *counter;
        proof {
            let cp = copy_gates(result_start as int, result_offset as int, n as int);
            lemma_gates_recorded_concat(c0, c5, c6, fwd_spec, cp);
            lemma_room_left(c0, c6, fwd_spec + cp, total.len() as int, fwd_spec.len() as int);
        }
        append_reversed(&mut gates, counter, &fwd);
        proof {
            let cp = copy_gates(result_start as int, result_offset as int, n as int);
            lemma_gates_recorded_concat(c0, c6, *counter, fwd_spec + cp, fwd_spec.reverse());
            assert(gates@ =~= total);
        }
        counter.free_ancilla(total_ws);
        gates
    }

    /// Estimated Toffoli count: n rounds of 6n (partial products, correction
    /// and two additions), plus the final subtraction, doubled by Bennett
    /// uncomputation.
    pub fn estimated_toffoli(n: usize) -> (r: usize)
        requires
            2 * (n * (6 * n) + n) <= usize::MAX,
        ensures
            r == 2 * (n * (6 * n) + n),
    {
        proof {
            assert(6 * n <= 2 * (n * (6 * n) + n)) by (nonlinear_arith);
            assert(n * (6 * n) <= 2 * (n * (6 * n) + n)) by (nonlinear_arith);
        }
        let per_iter = 4 * n + 2 * n;
        let forward = n * per_iter + n;
        2 * forward
    }
}

/// Convert a field element to Montgomery form: a · (R mod p) mod p.
pub fn to_montgomery_form(a: u64, r_mod_p: u64, p: u64) -> (r: u64)
    requires
        p > 0,
    ensures
        r == (a as int * r_mod_p as int) % (p as int),
{
    proof {
        assert(a as int * r_mod_p as int <= 340282366920938463463374607431768211455) by (nonlinear_arith)
            requires
                a <= 0xFFFF_FFFF_FFFF_FFFF,
                r_mod_p <= 0xFFFF_FFFF_FFFF_FFFF,
        ;
    }
    let product = (a as u128) * (r_mod_p as u128);
    let reduced = product % (p as u128);
    proof {
        lemma_mod_bound(product as int, p as int);
    }
    reduced as u64
}

/// Converting into Montgomery form and back is the identity on residues,
/// when R mod p and R⁻¹ mod p are inverse to each other.
pub proof fn lemma_montgomery_roundtrip(a: int, r_mod_p: int, r_inv: int, p: int)
    requires
        p > 1,
        0 <= a < p,
        (r_mod_p * r_inv) % p == 1,
    ensures
        (((a * r_mod_p) % p) * r_inv) % p == a,
{
    vstd::arithmetic::div_mod::lemma_mul_mod_noop_left(a * r_mod_p, r_inv, p);
    assert((a * r_mod_p) * r_inv == a * (r_mod_p * r_inv)) by (nonlinear_arith);
    vstd::arithmetic::div_mod::lemma_mul_mod_noop_right(a, r_mod_p * r_inv, p);
    vstd::arithmetic::div_mod::lemma_small_mod(a as nat, p as nat);
}

/// Convert from Montgomery form back to standard form: ā · (R⁻¹ mod p) mod p.
pub fn from_montgomery_form(a_mont: u64, r_inv_mod_p: u64, p: u64) -> (r: u64)
    requires
        p > 0,
    ensures
        r == (a_mont as int * r_inv_mod_p as int) % (p as int),
{
    to_montgomery_form(a_mont, r_inv_mod_p, p)
}

/// Modular inverse by the extended Euclidean algorithm (classical helper):
/// for a > 0 and m > 0 the result r lies in [0, m] and a·r ≡ gcd(a, m)
/// (mod m); so for gcd(a, m) = 1 and m > 1 it is the inverse of a.  Zero
/// maps to zero.
pub fn mod_inverse_u128(a: u128, m: u128) -> (r: u128)
    requires
        a <= 0xFFFF_FFFF_FFFF_FFFF,
        m <= 0xFFFF_FFFF_FFFF_FFFF,
    ensures
        a == 0 ==> r == 0,
        a > 0 && m == 0 ==> r == 1,
        a > 0 && m > 0 ==> r <= m && (a * r - spec_gcd(a as nat, m as nat)) % (m as int) == 0,
{
    if a == 0 {
        return 0;
    }
    if m == 0 {
        return 1;
    }
    let ghost ai = a as int;
    let ghost mi = m as int;
    let mut old_r: i128 = a as i128;
    let mut r: i128 = m as i128;
    let mut old_s: i128 = 1;
    let mut s: i128 = 0;
    proof {
        assert(ai * 1 - ai == 0);
        assert(abs_int(1) == 1 && abs_int(0) == 0);
        assert(mi * 1 + ai * 0 == mi);
        assert((ai * 0 - mi) % mi == 0) by {
            lemma_mod_multiples_vanish(-1, 0, mi);
        }
    }
    while r != 0
        invariant
            mi == m as int,
            ai == a as int,
            mi > 0,
            mi <= 0xFFFF_FFFF_FFFF_FFFF,
            old_r >= 0,
            r >= 0,
            old_r <= 0xFFFF_FFFF_FFFF_FFFF,
            r <= 0xFFFF_FFFF_FFFF_FFFF,
            old_s * s <= 0,
            r * abs_int(old_s as int) + old_r * abs_int(s as int) == mi,
            abs_int(old_s as int) <= mi,
            abs_int(s as int) <= mi,
            (ai * old_s - old_r) % mi == 0,
            (ai * s - r) % mi == 0,
            spec_gcd(old_r as nat, r as nat) == spec_gcd(a as nat, m as nat),
        decreases r,
    {
        let q = old_r / r;
        proof {
            lemma_ext_euclid_step(ai, mi, old_r as int, r as int, old_s as int, s as int, q as int);
        }
        let temp_r = r;
        r = old_r - q * r;
        old_r = temp_r;
        let temp_s = s;
        s = old_s - q * s;
        old_s = temp_s;
    }
    proof {
        assert(spec_gcd(old_r as nat, 0) == old_r) by {
            reveal_with_fuel(spec_gcd, 2);
        }
    }
    if old_s < 0 {
        old_s = old_s + (m as i128);
        proof {
            assert((ai * old_s - old_r) % mi == 0) by {
                assert(ai * old_s - old_r == (ai * (old_s - mi) - old_r) + mi * ai) by (nonlinear_arith);
                vstd::arithmetic::div_mod::lemma_mod_multiples_vanish(ai, ai * (old_s - mi) - old_r, mi);
            }
        }
    }
    old_s as u128
}

} // verus!
