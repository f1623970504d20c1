//! Reversible modular inversion: Fermat exponentiation and binary GCD.
use crate::reversible::adder::{cnot, cuccaro_gates, cuccaro_len, lemma_cuccaro_len, not_gate, toffoli, CuccaroAdder};
use crate::reversible::blocks::{
    append_copy, append_copy_of, append_fan, append_recorded, append_reversed, append_swap,
    append_toffoli_row, append_triples, append_with_record, concat_map, copy_gates, cswap_step,
    emit3, fan_step, lemma_block_lens, lemma_concat_map_split, lemma_concat_map_uniform_len, lshift_step,
    not_step, rshift_step, swap_gates, toffoli_row_gates,
};
use crate::reversible::gates::Gate;
use crate::reversible::multiplier::{
    bennett, cuccaro_subtract, karatsuba_gates, karatsuba_modmul_gates, karatsuba_total_ws, KaratsubaMultiplier,
    KaratsubaSquarer,
};
use crate::reversible::register::{bit_of, word_bit};
use crate::reversible::resource_counter::{
    ancilla_room, ancilla_scope, emit, gate_room, gates_recorded, lemma_gates_recorded_concat,
    lemma_room_left, lemma_scope_then_scope, max_int, qubits_unchanged, raised_high_water,
    ResourceCounter,
};
use vstd::prelude::*;

verus! {

/// The exponent p − 2 of Fermat inversion for the Goldilocks prime.
pub open spec fn p_minus_2() -> nat {
    0xFFFF_FFFE_FFFF_FFFF
}

/// Round j of the square-and-multiply ladder (exponent bit 63 − j):
/// square acc into the scratch, swap back, refresh the scratch copy; when
/// the bit is set, likewise multiply by the input.
pub open spec fn fermat_step(n: int, input: int, ws: int) -> spec_fn(int) -> Seq<Gate> {
    |j: int|
        karatsuba_modmul_gates(n, ws, ws, ws + n, ws + 2 * n, true) + swap_gates(ws + n, ws, n) + copy_gates(
            ws,
            ws + n,
            n,
        ) + if bit_of(p_minus_2(), (63 - j) as nat) {
            karatsuba_modmul_gates(n, ws, input, ws + n, ws + 2 * n, false) + swap_gates(ws + n, ws, n)
                + copy_gates(ws, ws + n, n)
        } else {
            Seq::empty()
        }
}

/// The Fermat inverter: acc ← input (the top bit of p − 2 is set), the
/// ladder over the remaining 63 bits (rounds 1..64), copy acc to result.
pub open spec fn fermat_gates(n: int, input: int, result: int, ws: int) -> Seq<Gate> {
    copy_gates(input, ws, n) + concat_map(fermat_step(n, input, ws), 1, 64) + copy_gates(ws, result, n)
}

/// The number of multiplier calls in rounds 1..j of the ladder: one
/// squaring per round and one multiplication per set exponent bit.
pub open spec fn fermat_ops(j: int) -> int
    decreases j,
{
    if j <= 1 {
        0
    } else {
        fermat_ops(j - 1) + 1 + if bit_of(p_minus_2(), (63 - (j - 1)) as nat) {
            1int
        } else {
            0
        }
    }
}

/// g is a Toffoli gate controlled by qubits x (first) and y (second).
pub open spec fn toffoli_on(g: Gate, x: int, y: int) -> bool {
    match g {
        Gate::Toffoli { control1, control2, .. } => control1 == x as usize && control2 == y as usize,
        _ => false,
    }
}

/// Some gate of `s` is a Toffoli controlled by x and y.
pub open spec fn has_toffoli_on(s: Seq<Gate>, x: int, y: int) -> bool {
    exists|t: int| 0 <= t < s.len() && #[trigger] toffoli_on(s[t], x, y)
}

/// The first block of a concatenation leads it.
proof fn lemma_concat_map_first(f: spec_fn(int) -> Seq<Gate>, lo: int, hi: int)
    requires
        lo < hi,
        f(lo).len() > 0,
    ensures
        concat_map(f, lo, hi).len() > 0,
        concat_map(f, lo, hi)[0] == f(lo)[0],
{
    lemma_concat_map_split(f, lo, lo + 1, hi);
    assert(concat_map(f, lo, lo) =~= Seq::<Gate>::empty());
    assert(concat_map(f, lo, lo + 1) =~= f(lo));
}

/// The Karatsuba product's first gate is the Toffoli a[0]·b[0] of the
/// lowest partial product.
proof fn lemma_karatsuba_first_gate(n: int, a: int, b: int, acc: int, ws: int)
    requires
        n >= 1,
    ensures
        karatsuba_gates(n, a, b, acc, ws, false).len() > 0,
        toffoli_on(karatsuba_gates(n, a, b, acc, ws, false)[0], a, b),
    decreases n,
{
    crate::reversible::multiplier::lemma_karatsuba_unfold(n, a, b, acc, ws, false);
    if n <= 8 {
        let row = crate::reversible::multiplier::mul_row(n, a, b, acc, ws, ws + n);
        let tr = toffoli_row_gates(a, b, ws, n);
        lemma_concat_map_first(crate::reversible::blocks::toffoli_row(a, b, ws), 0, n);
        assert(row(0) == tr + crate::reversible::adder::capture_adder_gates(n, ws, acc, ws + n, acc + n) + tr);
        assert(row(0)[0] == tr[0]);
        lemma_concat_map_first(row, 0, n);
    } else {
        let h = crate::reversible::multiplier::kara_h(n);
        let sub0 = ws + 2 * crate::reversible::multiplier::kara_hh(n) + 4 * crate::reversible::multiplier::kara_hs(n)
            + 3;
        lemma_karatsuba_first_gate(h, a, b, acc, sub0);
        let first = karatsuba_gates(h, a, b, acc, sub0, false);
        let k = karatsuba_gates(n, a, b, acc, ws, false);
        assert(k[0] == first[0]);
    }
}

/// Every multiplication round of the Fermat ladder multiplies the
/// accumulator by the input register: a round j whose exponent bit of
/// p − 2 is set holds a Toffoli controlled by the accumulator's low qubit
/// (ws) and the input's low qubit, the product acc[0]·x[0].
pub proof fn lemma_fermat_rounds_read_input(n: int, input: int, ws: int)
    requires
        n >= 1,
    ensures
        forall|j: int|
            1 <= j < 64 && bit_of(p_minus_2(), (63 - j) as nat) ==> #[trigger] has_toffoli_on(
                fermat_step(n, input, ws)(j),
                ws,
                input,
            ),
{
    assert forall|j: int| 1 <= j < 64 && bit_of(p_minus_2(), (63 - j) as nat) implies #[trigger] has_toffoli_on(
        fermat_step(n, input, ws)(j),
        ws,
        input,
    ) by {
        let sq = karatsuba_modmul_gates(n, ws, ws, ws + n, ws + 2 * n, true) + swap_gates(ws + n, ws, n) + copy_gates(
            ws,
            ws + n,
            n,
        );
        let mul = karatsuba_modmul_gates(n, ws, input, ws + n, ws + 2 * n, false);
        let tail = swap_gates(ws + n, ws, n) + copy_gates(ws, ws + n, n);
        let step = fermat_step(n, input, ws)(j);
        assert(step =~= sq + (mul + tail));
        let mw = ws + 2 * n;
        lemma_karatsuba_first_gate(n, ws, input, mw, mw + 2 * n + 1);
        let kg = karatsuba_gates(n, ws, input, mw, mw + 2 * n + 1, false);
        let fwd = crate::reversible::multiplier::karatsuba_modmul_forward(n, ws, input, mw, false);
        assert(fwd[0] == kg[0]);
        let cpy = copy_gates(mw, ws + n, n);
        assert(mul == fwd + cpy + fwd.reverse());
        assert((fwd + cpy + fwd.reverse())[0] == fwd[0]);
        assert(mul[0] == fwd[0]);
        assert(step[sq.len() as int] == mul[0]);
        assert(toffoli_on(step[sq.len() as int], ws, input));
    }
}

/// The Fermat inverter starts from the input and ends in the result: its
/// first n gates, on a zero accumulator (ws), load the input register
/// into the accumulator, and its last n gates add the accumulator into the
/// result register bit by bit.
pub proof fn lemma_fermat_loads_input_and_stores_result(n: int, input: int, result: int, ws: int, bits: Seq<bool>)
    requires
        n >= 0,
        0 <= input && input + n <= bits.len(),
        0 <= result && result + n <= bits.len(),
        0 <= ws && ws + n <= bits.len(),
        bits.len() <= usize::MAX,
        crate::reversible::multiplier_laws::ranges_apart(input, n, ws, n),
        crate::reversible::multiplier_laws::ranges_apart(result, n, ws, n),
        forall|i: int| 0 <= i < n ==> !#[trigger] bits[ws + i],
    ensures
        ({
            let g = fermat_gates(n, input, result, ws);
            let first = crate::reversible::gates::apply_gates(g.take(n), bits);
            let last = crate::reversible::gates::apply_gates(g.skip(g.len() - n), bits);
            &&& n <= g.len()
            &&& forall|i: int| 0 <= i < n ==> #[trigger] first[ws + i] == bits[input + i]
            &&& forall|i: int| 0 <= i < n ==> #[trigger] last[result + i] == (bits[result + i] != bits[ws + i])
        }),
{
    let g = fermat_gates(n, input, result, ws);
    let a = copy_gates(input, ws, n);
    let mid = concat_map(fermat_step(n, input, ws), 1, 64);
    let b = copy_gates(ws, result, n);
    lemma_block_lens(input, ws, 0, n);
    lemma_block_lens(ws, result, 0, n);
    assert(g == a + mid + b);
    assert(g.take(n) =~= a);
    assert(g.skip(g.len() - n) =~= b);
    crate::reversible::modmul_laws::lemma_copy_effect(bits, input, ws, n);
    crate::reversible::modmul_laws::lemma_copy_effect(bits, ws, result, n);
}

/// Every bit of p − 2 below 64 is set except bit 32.
proof fn lemma_p_minus_2_bit(i: nat)
    requires
        i < 64,
    ensures
        bit_of(p_minus_2(), i) == (i != 32),
{
    let v: u64 = 0xFFFF_FFFE_FFFF_FFFF;
    let iu = i as u64;
    vstd::bits::lemma_u64_shr_is_div(v, iu);
    assert(((v >> iu) & 1 == 1) == (iu != 32)) by (bit_vector)
        requires
            iu < 64,
            v == 0xFFFF_FFFE_FFFF_FFFFu64,
    ;
    assert((v >> iu) & 1 == (v >> iu) % 2) by (bit_vector);
}

/// Rounds 1..j make 2(j − 1) calls, less one once round 31 (bit 32) is
/// passed.
proof fn lemma_fermat_ops_closed(j: int)
    requires
        1 <= j <= 64,
    ensures
        fermat_ops(j) == 2 * (j - 1) - if j >= 32 {
            1int
        } else {
            0
        },
    decreases j,
{
    if j > 1 {
        lemma_fermat_ops_closed(j - 1);
        lemma_p_minus_2_bit((63 - (j - 1)) as nat);
    }
}

/// The ladder makes 125 multiplier calls: 63 squarings and 62
/// multiplications.
pub proof fn lemma_fermat_ops_total()
    ensures
        fermat_ops(64) == 125,
{
    lemma_fermat_ops_closed(64);
}

pub proof fn lemma_fermat_ops_bound(j: int)
    requires
        0 <= j,
    ensures
        0 <= fermat_ops(j) <= 2 * j,
    decreases j,
{
    if j > 0 {
        lemma_fermat_ops_bound(j - 1);
    }
}

/// Reversible modular inversion via Fermat's little theorem: a^(p−2) mod p
/// by square-and-multiply with Karatsuba multipliers.
pub struct FermatInverter {
    /// Number of bits in the field.
    pub n: usize,
}

/// Appends Fermat round j.
#[verifier::rlimit(40)]
fn append_fermat_step(
    gates: &mut Vec<Gate>,
    counter: &mut ResourceCounter,
    n: usize,
    input: usize,
    ws: usize,
    j: usize,
)
    requires
        j < 64,
        input + n <= usize::MAX,
        ws + 2 * n + karatsuba_total_ws(n as int) <= usize::MAX,
        gate_room(*old(counter), fermat_step(n as int, input as int, ws as int)(j as int).len() as int),
        ancilla_room(
            *old(counter),
            (1 + if bit_of(p_minus_2(), (63 - j) as nat) {
                1int
            } else {
                0
            }) * karatsuba_total_ws(n as int),
            karatsuba_total_ws(n as int),
        ),
    ensures
        final(gates)@ == old(gates)@ + fermat_step(n as int, input as int, ws as int)(j as int),
        gates_recorded(*old(counter), *final(counter), fermat_step(n as int, input as int, ws as int)(j as int)),
        ancilla_scope(
            *old(counter),
            *final(counter),
            (1 + if bit_of(p_minus_2(), (63 - j) as nat) {
                1int
            } else {
                0
            }) * karatsuba_total_ws(n as int),
            karatsuba_total_ws(n as int),
        ),
{
    let ghost c0 = *counter;
    let ghost g0 = gates@;
    let ghost ktw = karatsuba_total_ws(n as int);
    proof {
        crate::reversible::multiplier::lemma_karatsuba_ws_pos(n as int);
        let b = if bit_of(p_minus_2(), (63 - j) as nat) {
            1int
        } else {
            0
        };
        assert((1 + b) * ktw == if b == 1 {
            2 * ktw
        } else {
            ktw
        }) by (nonlinear_arith)
            requires
                b == 0 || b == 1,
        ;
    }
    let acc = ws;
    let sq = ws + n;
    let mw = ws + 2 * n;
    let p_minus_2_word: u64 = 0xFFFF_FFFE_FFFF_FFFF;
    let bit_set = word_bit(p_minus_2_word, 63 - j);
    let ghost sqg = karatsuba_modmul_gates(n as int, acc as int, acc as int, sq as int, mw as int, true);
    let ghost mug = karatsuba_modmul_gates(n as int, acc as int, input as int, sq as int, mw as int, false);
    let ghost sw = swap_gates(sq as int, acc as int, n as int);
    let ghost cp = copy_gates(acc as int, sq as int, n as int);
    let ghost step = fermat_step(n as int, input as int, ws as int)(j as int);
    proof {
        assert(step == sqg + sw + cp + if bit_set {
            mug + sw + cp
        } else {
            Seq::empty()
        });
        lemma_block_lens(sq as int, acc as int, 0, n as int);
        lemma_block_lens(acc as int, sq as int, 0, n as int);
    }
    let squarer = KaratsubaSquarer::new(n);
    let sub = squarer.forward_gates(acc, sq, mw, counter);
    let ghost c1 = *counter;
    append_recorded(gates, sub, Ghost(c0), Ghost(c0), Ghost(c1), Ghost(Seq::empty()));
    proof {
        assert(Seq::<Gate>::empty() + sqg =~= sqg);
        lemma_room_left(c0, c1, sqg, step.len() as int, 3 * n);
    }
    append_swap(gates, counter, sq, acc, n);
    let ghost c2 = *counter;
    proof {
        lemma_gates_recorded_concat(c0, c1, c2, sqg, sw);
        lemma_room_left(c0, c2, sqg + sw, step.len() as int, n as int);
    }
    append_copy(gates, counter, acc, sq, n);
    let ghost c3 = *counter;
    proof {
        lemma_gates_recorded_concat(c0, c2, c3, sqg + sw, cp);
        crate::reversible::resource_counter::lemma_scope_then_unchanged(c0, c1, c3, ktw, ktw);
    }
    if bit_set {
        proof {
            lemma_room_left(c0, c3, sqg + sw + cp, step.len() as int, mug.len() as int);
        }
        let mul = KaratsubaMultiplier::new(n);
        let sub = mul.forward_gates(acc, input, sq, mw, counter);
        let ghost c4 = *counter;
        append_recorded(gates, sub, Ghost(c0), Ghost(c3), Ghost(c4), Ghost(sqg + sw + cp));
        proof {
            lemma_room_left(c0, c4, sqg + sw + cp + mug, step.len() as int, 3 * n);
        }
        append_swap(gates, counter, sq, acc, n);
        let ghost c5 = *counter;
        proof {
            lemma_gates_recorded_concat(c0, c4, c5, sqg + sw + cp + mug, sw);
            lemma_room_left(c0, c5, sqg + sw + cp + mug + sw, step.len() as int, n as int);
        }
        append_copy(gates, counter, acc, sq, n);
        proof {
            lemma_gates_recorded_concat(c0, c5, *counter, sqg + sw + cp + mug + sw, cp);
            lemma_scope_then_scope(c0, c3, c4, ktw, ktw, ktw, ktw);
            crate::reversible::resource_counter::lemma_scope_then_unchanged(c0, c4, *counter, 2 * ktw, ktw);
            assert(sqg + sw + cp + mug + sw + cp =~= step);
            assert(gates@ =~= g0 + step);
        }
    } else {
        proof {
            assert(sqg + sw + cp =~= step);
            assert(gates@ =~= g0 + step);
        }
    }
}

impl FermatInverter {
    pub fn new(n: usize) -> (r: Self)
        ensures
            r.n == n,
    {
        Self { n }
    }

    /// The inverter's gates: acc ← input for the top bit of p − 2, then for
    /// each lower bit a squaring (and a multiplication by the input when the
    /// bit is set), 125 multiplier calls in all, then a copy of acc into
    /// `result`.  The workspace (4n+1 qubits)
    /// is allocated and left allocated (it stays dirty; callers uncompute it
    /// and release it);
    /// each multiplier allocates and releases its own workspace.
    pub fn forward_gates(
        &self,
        input_offset: usize,
        result_offset: usize,
        workspace_offset: usize,
        counter: &mut ResourceCounter,
    ) -> (r: Vec<Gate>)
        requires
            input_offset + self.n <= usize::MAX,
            result_offset + self.n <= usize::MAX,
            workspace_offset + 4 * self.n + 1 <= usize::MAX,
            workspace_offset + 2 * self.n + karatsuba_total_ws(self.n as int) <= usize::MAX,
            gate_room(
                *old(counter),
                fermat_gates(self.n as int, input_offset as int, result_offset as int, workspace_offset as int).len()
                    as int,
            ),
            old(counter).ancilla_allocated + 4 * self.n + 1 + fermat_ops(64) * karatsuba_total_ws(
                self.n as int,
            ) <= usize::MAX,
            old(counter).ancilla_freed + fermat_ops(64) * karatsuba_total_ws(self.n as int) <= usize::MAX,
            old(counter).pre_allocated_depth == 0 ==> old(counter).current_qubits + 4 * self.n + 1
                + karatsuba_total_ws(self.n as int) <= usize::MAX,
        ensures
            r@ == fermat_gates(self.n as int, input_offset as int, result_offset as int, workspace_offset as int),
            gates_recorded(*old(counter), *final(counter), r@),
            final(counter).ancilla_allocated == old(counter).ancilla_allocated + 4 * self.n + 1 + fermat_ops(64)
                * karatsuba_total_ws(self.n as int),
            final(counter).ancilla_freed == old(counter).ancilla_freed + fermat_ops(64) * karatsuba_total_ws(
                self.n as int,
            ),
            final(counter).ancilla_freed == old(counter).ancilla_freed + 125 * karatsuba_total_ws(self.n as int),
            final(counter).current_qubits == if old(counter).pre_allocated_depth == 0 {
                old(counter).current_qubits + 4 * self.n + 1
            } else {
                old(counter).current_qubits as int
            },
            final(counter).pre_allocated_depth == old(counter).pre_allocated_depth,
            final(counter).qubit_high_water == raised_high_water(
                *old(counter),
                4 * self.n + 1 + karatsuba_total_ws(self.n as int),
            ),
    {
        let n = self.n;
        let ghost c0 = *counter;
        let ghost ktw = karatsuba_total_ws(n as int);
        let ghost f = fermat_step(n as int, input_offset as int, workspace_offset as int);
        let ghost total = fermat_gates(n as int, input_offset as int, result_offset as int, workspace_offset as int);
        let acc = workspace_offset;
        proof {
            lemma_fermat_ops_total();
            lemma_block_lens(acc as int, result_offset as int, 0, n as int);
            lemma_fermat_ops_bound(64);
            crate::reversible::multiplier::lemma_karatsuba_ws_pos(n as int);
            assert(total == copy_gates(input_offset as int, acc as int, n as int) + concat_map(f, 1, 64)
                + copy_gates(acc as int, result_offset as int, n as int));
            lemma_block_lens(input_offset as int, acc as int, 0, n as int);
        }
        counter.allocate_ancilla(4 * n + 1);
        let ghost c1 = *counter;
        proof {
            lemma_room_left(c0, c1, Seq::empty(), total.len() as int, n as int);
        }
        let mut gates: Vec<Gate> = Vec::new();
        append_copy(&mut gates, counter, input_offset, acc, n);
        let ghost init = copy_gates(input_offset as int, acc as int, n as int);
        let ghost c2 = *counter;
        proof {
            lemma_gates_recorded_concat(c0, c1, c2, Seq::empty(), init);
            assert(gates@ =~= init);
            assert(concat_map(f, 1, 1) =~= Seq::<Gate>::empty());
            assert(gates@ =~= init + concat_map(f, 1, 1));
        }
        let mut j: usize = 1;
        while j < 64
            invariant
                1 <= j <= 64,
                n == self.n,
                input_offset + n <= usize::MAX,
                acc == workspace_offset,
                acc + 2 * n + karatsuba_total_ws(n as int) <= usize::MAX,
                ktw == karatsuba_total_ws(n as int),
                ktw >= 0,
                f == fermat_step(n as int, input_offset as int, acc as int),
                init == copy_gates(input_offset as int, acc as int, n as int),
                total == init + concat_map(f, 1, 64) + copy_gates(acc as int, result_offset as int, n as int),
                gate_room(c0, total.len() as int),
                gates@ == init + concat_map(f, 1, j as int),
                gates_recorded(c0, *counter, gates@),
                0 <= fermat_ops(j as int) <= 2 * j,
                fermat_ops(64) <= 128,
                c2.ancilla_allocated + fermat_ops(64) * ktw <= usize::MAX,
                c2.ancilla_freed + fermat_ops(64) * ktw <= usize::MAX,
                c2.pre_allocated_depth == 0 ==> c2.current_qubits + ktw <= usize::MAX,
                j == 1 ==> qubits_unchanged(c2, *counter),
                j > 1 ==> ancilla_scope(c2, *counter, fermat_ops(j as int) * ktw, ktw),
            decreases 64 - j,
        {
            let ghost d0 = gates@;
            let ghost c3 = *counter;
            proof {
                lemma_concat_map_split(f, 1, j + 1, 64);
                lemma_concat_map_split(f, 1, j as int, 64);
                assert(concat_map(f, 1, j + 1) == concat_map(f, 1, j as int) + f(j as int));
                lemma_room_left(c0, c3, d0, total.len() as int, f(j as int).len() as int);
                lemma_fermat_ops_bound(j + 1);
                crate::reversible::multiplier::lemma_karatsuba_ws_pos(n as int);
                lemma_fermat_ops_mono(j + 1, 64);
                let b = if bit_of(p_minus_2(), (63 - j) as nat) {
                    1int
                } else {
                    0
                };
                assert(fermat_ops(j as int) * ktw + (1 + b) * ktw == fermat_ops(j + 1) * ktw) by (nonlinear_arith)
                    requires
                        fermat_ops(j + 1) == fermat_ops(j as int) + 1 + b,
                ;
                assert(fermat_ops(j + 1) * ktw <= fermat_ops(64) * ktw) by (nonlinear_arith)
                    requires
                        fermat_ops(j + 1) <= fermat_ops(64),
                        ktw >= 0,
                ;
                assert(fermat_ops(j as int) * ktw + 2 * ktw >= 0) by (nonlinear_arith)
                    requires
                        fermat_ops(j as int) >= 0,
                        ktw >= 0,
                ;
            }
            append_fermat_step(&mut gates, counter, n, input_offset, acc, j);
            proof {
                lemma_gates_recorded_concat(c0, c3, *counter, d0, f(j as int));
                assert(gates@ =~= init + concat_map(f, 1, j + 1));
                let b = if bit_of(p_minus_2(), (63 - j) as nat) {
                    1int
                } else {
                    0
                };
                assert(fermat_ops(j + 1) == fermat_ops(j as int) + 1 + b);
                assert(fermat_ops(j as int) * ktw + (1 + b) * ktw == fermat_ops(j + 1) * ktw) by (nonlinear_arith)
                    requires
                        fermat_ops(j + 1) == fermat_ops(j as int) + 1 + b,
                ;
                if j > 1 {
                    lemma_scope_then_scope(c2, c3, *counter, fermat_ops(j as int) * ktw, ktw, (1 + b) * ktw, ktw);
                }
            }
            j = j + 1;
        }
        let ghost c4 = *counter;
        proof {
            lemma_room_left(c0, c4, gates@, total.len() as int, n as int);
        }
        append_copy(&mut gates, counter, acc, result_offset, n);
        proof {
            lemma_gates_recorded_concat(c0, c4, *counter, init + concat_map(f, 1, 64), copy_gates(
                acc as int,
                result_offset as int,
                n as int,
            ));
            assert(gates@ =~= total);
        }
        gates
    }
}

/// fermat_ops is monotone.
pub proof fn lemma_fermat_ops_mono(i: int, j: int)
    requires
        0 <= i <= j,
    ensures
        fermat_ops(i) <= fermat_ops(j),
    decreases j - i,
{
    if i < j {
        lemma_fermat_ops_mono(i, j - 1);
    }
}

/// A block that is the same for every index.
pub open spec fn const_block(b: Seq<Gate>) -> spec_fn(int) -> Seq<Gate> {
    |j: int| b
}

/// Initialisation: u ← p (bits 0 and n/2..n), v ← input, s ← 1.
pub open spec fn bgcd_init(n: int, input: int, ws: int) -> Seq<Gate> {
    seq![not_gate(ws)] + concat_map(not_step(ws), n / 2, n) + copy_gates(input, ws + n, n) + seq![
        not_gate(ws + 3 * n),
    ]
}

/// First half of a GCD round: comparison into the swap flag, conditional
/// swaps of (u, v) and (r, s), both-odd flag, conditional u −= v.
pub open spec fn bgcd_round_a(n: int, ws: int) -> Seq<Gate> {
    let u = ws;
    let v = ws + n;
    let r = ws + 2 * n;
    let s = ws + 3 * n;
    let temp = ws + 4 * n;
    let sc = ws + 5 * n;
    let bo = ws + 5 * n + 1;
    let carry = ws + 5 * n + 2;
    cuccaro_gates(n, u, temp, carry) + seq![toffoli(u, v, sc)] + cuccaro_gates(n, u, temp, carry).reverse()
        + concat_map(cswap_step(sc, u, v), 0, n) + concat_map(cswap_step(sc, r, s), 0, n) + seq![
        toffoli(u, v, bo),
    ] + toffoli_row_gates(bo, v, temp, n) + cuccaro_gates(n, temp, u, carry).reverse() + toffoli_row_gates(
        bo,
        v,
        temp,
        n,
    )
}

/// Second half of a GCD round: conditional r += s, clear the both-odd
/// flag, shift u right and s left, swap back, clear the swap flag.
pub open spec fn bgcd_round_b(n: int, ws: int) -> Seq<Gate> {
    let u = ws;
    let v = ws + n;
    let r = ws + 2 * n;
    let s = ws + 3 * n;
    let temp = ws + 4 * n;
    let sc = ws + 5 * n;
    let bo = ws + 5 * n + 1;
    let carry = ws + 5 * n + 2;
    toffoli_row_gates(bo, s, temp, n) + cuccaro_gates(n, temp, r, carry) + toffoli_row_gates(bo, s, temp, n)
        + seq![toffoli(u, v, bo)] + concat_map(rshift_step(u), 0, n - 1) + concat_map(
        lshift_step(s, n),
        0,
        n - 1,
    ) + concat_map(cswap_step(sc, r, s), 0, n) + concat_map(cswap_step(sc, u, v), 0, n) + seq![
        toffoli(u, v, sc),
    ]
}

/// One halving of r modulo p: r += r[0]·p, then shift r right.
pub open spec fn bgcd_halving(n: int, ws: int) -> Seq<Gate> {
    let r = ws + 2 * n;
    let temp = ws + 4 * n;
    let carry = ws + 5 * n + 2;
    seq![cnot(r, temp)] + concat_map(fan_step(r, temp), n / 2, n) + cuccaro_gates(n, temp, r, carry)
        + concat_map(fan_step(r, temp), n / 2, n) + seq![cnot(r, temp)] + concat_map(rshift_step(r), 0, n - 1)
}

/// The forward pass: initialisation, 2n GCD rounds, 2n halvings.
pub open spec fn bgcd_forward(n: int, input: int, ws: int) -> Seq<Gate> {
    bgcd_init(n, input, ws) + concat_map(const_block(bgcd_round_a(n, ws) + bgcd_round_b(n, ws)), 0, 2 * n)
        + concat_map(const_block(bgcd_halving(n, ws)), 0, 2 * n)
}

/// The whole binary-GCD inverter.
pub open spec fn bgcd_gates(n: int, input: int, result: int, ws: int) -> Seq<Gate> {
    bennett(bgcd_forward(n, input, ws), copy_gates(ws + 2 * n, result, n))
}

/// Appends the first half of a GCD round.
#[verifier::rlimit(60)]
fn append_bgcd_round_a(gates: &mut Vec<Gate>, counter: &mut ResourceCounter, n: usize, ws: usize)
    requires
        n >= 1,
        ws + 5 * n + 3 <= usize::MAX,
        gate_room(*old(counter), bgcd_round_a(n as int, ws as int).len() as int),
    ensures
        final(gates)@ == old(gates)@ + bgcd_round_a(n as int, ws as int),
        gates_recorded(*old(counter), *final(counter), bgcd_round_a(n as int, ws as int)),
        qubits_unchanged(*old(counter), *final(counter)),
{
    let ghost c0 = *counter;
    let ghost g0 = gates@;
    let ghost total = bgcd_round_a(n as int, ws as int);
    let u = ws;
    let v = ws + n;
    let r = ws + 2 * n;
    let s = ws + 3 * n;
    let temp = ws + 4 * n;
    let sc = ws + 5 * n;
    let bo = ws + 5 * n + 1;
    let carry = ws + 5 * n + 2;
    let ghost p0 = cuccaro_gates(n as int, u as int, temp as int, carry as int);
    let ghost p1 = seq![toffoli(u as int, v as int, sc as int)];
    let ghost p2 = p0.reverse();
    let ghost p3 = concat_map(cswap_step(sc as int, u as int, v as int), 0, n as int);
    let ghost p4 = concat_map(cswap_step(sc as int, r as int, s as int), 0, n as int);
    let ghost p5 = seq![toffoli(u as int, v as int, bo as int)];
    let ghost p6 = toffoli_row_gates(bo as int, v as int, temp as int, n as int);
    let ghost p7 = cuccaro_gates(n as int, temp as int, u as int, carry as int).reverse();
    proof {
        assert(total == p0 + p1 + p2 + p3 + p4 + p5 + p6 + p7 + p6);
        lemma_cuccaro_len(n as int, u as int, temp as int, carry as int);
        lemma_cuccaro_len(n as int, temp as int, u as int, carry as int);
        lemma_concat_map_uniform_len(cswap_step(sc as int, u as int, v as int), 0, n as int, 3);
        lemma_concat_map_uniform_len(cswap_step(sc as int, r as int, s as int), 0, n as int, 3);
        lemma_block_lens(bo as int, v as int, temp as int, n as int);
    }
    let mut tmp_counter = ResourceCounter::new();
    let adder = CuccaroAdder::new(n);
    let compare_fwd = adder.forward_gates(u, temp, carry, &mut tmp_counter);
    append_with_record(gates, counter, &compare_fwd);
    let ghost c1 = *counter;
    proof {
        lemma_room_left(c0, c1, p0, total.len() as int, 1);
    }
    emit(gates, counter, Gate::Toffoli { control1: u, control2: v, target: sc });
    let ghost c2 = *counter;
    proof {
        lemma_gates_recorded_concat(c0, c1, c2, p0, p1);
        lemma_room_left(c0, c2, p0 + p1, total.len() as int, p2.len() as int);
    }
    append_reversed(gates, counter, &compare_fwd);
    let ghost c3 = *counter;
    proof {
        lemma_gates_recorded_concat(c0, c2, c3, p0 + p1, p2);
        lemma_room_left(c0, c3, p0 + p1 + p2, total.len() as int, 3 * n);
    }
    append_triples(gates, counter, 0, sc, u, v, n);
    let ghost c4 = *counter;
    proof {
        lemma_gates_recorded_concat(c0, c3, c4, p0 + p1 + p2, p3);
        lemma_room_left(c0, c4, p0 + p1 + p2 + p3, total.len() as int, 3 * n);
    }
    append_triples(gates, counter, 0, sc, r, s, n);
    let ghost c5 = *counter;
    proof {
        lemma_gates_recorded_concat(c0, c4, c5, p0 + p1 + p2 + p3, p4);
        lemma_room_left(c0, c5, p0 + p1 + p2 + p3 + p4, total.len() as int, 1);
    }
    emit(gates, counter, Gate::Toffoli { control1: u, control2: v, target: bo });
    let ghost c6 = *counter;
    proof {
        lemma_gates_recorded_concat(c0, c5, c6, p0 + p1 + p2 + p3 + p4, p5);
        lemma_room_left(c0, c6, p0 + p1 + p2 + p3 + p4 + p5, total.len() as int, n as int);
    }
    append_toffoli_row(gates, counter, bo, v, temp, n);
    let ghost c7 = *counter;
    proof {
        lemma_gates_recorded_concat(c0, c6, c7, p0 + p1 + p2 + p3 + p4 + p5, p6);
        lemma_room_left(c0, c7, p0 + p1 + p2 + p3 + p4 + p5 + p6, total.len() as int, cuccaro_len(n as int));
    }
    let sub = cuccaro_subtract(n, temp, u, carry, counter);
    let ghost c8 = *counter;
    append_recorded(gates, sub, Ghost(c0), Ghost(c7), Ghost(c8), Ghost(p0 + p1 + p2 + p3 + p4 + p5 + p6));
    proof {
        lemma_room_left(c0, c8, p0 + p1 + p2 + p3 + p4 + p5 + p6 + p7, total.len() as int, n as int);
    }
    append_toffoli_row(gates, counter, bo, v, temp, n);
    proof {
        lemma_gates_recorded_concat(c0, c8, *counter, p0 + p1 + p2 + p3 + p4 + p5 + p6 + p7, p6);
        assert(gates@ =~= g0 + total);
    }
}

/// Appends the second half of a GCD round.
#[verifier::rlimit(60)]
fn append_bgcd_round_b(gates: &mut Vec<Gate>, counter: &mut ResourceCounter, n: usize, ws: usize)
    requires
        n >= 1,
        ws + 5 * n + 3 <= usize::MAX,
        gate_room(*old(counter), bgcd_round_b(n as int, ws as int).len() as int),
    ensures
        final(gates)@ == old(gates)@ + bgcd_round_b(n as int, ws as int),
        gates_recorded(*old(counter), *final(counter), bgcd_round_b(n as int, ws as int)),
        qubits_unchanged(*old(counter), *final(counter)),
{
    let ghost c0 = *counter;
    let ghost g0 = gates@;
    let ghost total = bgcd_round_b(n as int, ws as int);
    let u = ws;
    let v = ws + n;
    let r = ws + 2 * n;
    let s = ws + 3 * n;
    let temp = ws + 4 * n;
    let sc = ws + 5 * n;
    let bo = ws + 5 * n + 1;
    let carry = ws + 5 * n + 2;
    let ghost q0 = toffoli_row_gates(bo as int, s as int, temp as int, n as int);
    let ghost q1 = cuccaro_gates(n as int, temp as int, r as int, carry as int);
    let ghost q2 = seq![toffoli(u as int, v as int, bo as int)];
    let ghost q3 = concat_map(rshift_step(u as int), 0, n - 1);
    let ghost q4 = concat_map(lshift_step(s as int, n as int), 0, n - 1);
    let ghost q5 = concat_map(cswap_step(sc as int, r as int, s as int), 0, n as int);
    let ghost q6 = concat_map(cswap_step(sc as int, u as int, v as int), 0, n as int);
    let ghost q7 = seq![toffoli(u as int, v as int, sc as int)];
    proof {
        assert(total == q0 + q1 + q0 + q2 + q3 + q4 + q5 + q6 + q7);
        lemma_cuccaro_len(n as int, temp as int, r as int, carry as int);
        lemma_block_lens(bo as int, s as int, temp as int, n as int);
        lemma_concat_map_uniform_len(rshift_step(u as int), 0, n - 1, 3);
        lemma_concat_map_uniform_len(lshift_step(s as int, n as int), 0, n - 1, 3);
        lemma_concat_map_uniform_len(cswap_step(sc as int, u as int, v as int), 0, n as int, 3);
        lemma_concat_map_uniform_len(cswap_step(sc as int, r as int, s as int), 0, n as int, 3);
    }
    append_toffoli_row(gates, counter, bo, s, temp, n);
    let ghost c1 = *counter;
    proof {
        lemma_room_left(c0, c1, q0, total.len() as int, cuccaro_len(n as int));
    }
    let adder = CuccaroAdder::new(n);
    let sub = adder.forward_gates(temp, r, carry, counter);
    let ghost c2 = *counter;
    append_recorded(gates, sub, Ghost(c0), Ghost(c1), Ghost(c2), Ghost(q0));
    proof {
        lemma_room_left(c0, c2, q0 + q1, total.len() as int, n as int);
    }
    append_toffoli_row(gates, counter, bo, s, temp, n);
    let ghost c3 = *counter;
    proof {
        lemma_gates_recorded_concat(c0, c2, c3, q0 + q1, q0);
        lemma_room_left(c0, c3, q0 + q1 + q0, total.len() as int, 1);
    }
    emit(gates, counter, Gate::Toffoli { control1: u, control2: v, target: bo });
    let ghost c4 = *counter;
    proof {
        lemma_gates_recorded_concat(c0, c3, c4, q0 + q1 + q0, q2);
        lemma_room_left(c0, c4, q0 + q1 + q0 + q2, total.len() as int, 3 * (n - 1));
    }
    append_triples(gates, counter, 1, 0, u, 0, n - 1);
    let ghost c5 = *counter;
    proof {
        lemma_gates_recorded_concat(c0, c4, c5, q0 + q1 + q0 + q2, q3);
        lemma_room_left(c0, c5, q0 + q1 + q0 + q2 + q3, total.len() as int, 3 * (n - 1));
    }
    append_triples(gates, counter, 2, 0, s, 0, n - 1);
    let ghost c6 = *counter;
    proof {
        assert((n - 1) + 1 == n);
        lemma_gates_recorded_concat(c0, c5, c6, q0 + q1 + q0 + q2 + q3, q4);
        lemma_room_left(c0, c6, q0 + q1 + q0 + q2 + q3 + q4, total.len() as int, 3 * n);
    }
    append_triples(gates, counter, 0, sc, r, s, n);
    let ghost c7 = *counter;
    proof {
        lemma_gates_recorded_concat(c0, c6, c7, q0 + q1 + q0 + q2 + q3 + q4, q5);
        lemma_room_left(c0, c7, q0 + q1 + q0 + q2 + q3 + q4 + q5, total.len() as int, 3 * n);
    }
    append_triples(gates, counter, 0, sc, u, v, n);
    let ghost c8 = *counter;
    proof {
        lemma_gates_recorded_concat(c0, c7, c8, q0 + q1 + q0 + q2 + q3 + q4 + q5, q6);
        lemma_room_left(c0, c8, q0 + q1 + q0 + q2 + q3 + q4 + q5 + q6, total.len() as int, 1);
    }
    emit(gates, counter, Gate::Toffoli { control1: u, control2: v, target: sc });
    proof {
        lemma_gates_recorded_concat(c0, c8, *counter, q0 + q1 + q0 + q2 + q3 + q4 + q5 + q6, q7);
        assert(gates@ =~= g0 + total);
    }
}

/// Appends one halving of r modulo p.
#[verifier::rlimit(40)]
fn append_bgcd_halving(gates: &mut Vec<Gate>, counter: &mut ResourceCounter, n: usize, ws: usize)
    requires
        n >= 1,
        ws + 5 * n + 3 <= usize::MAX,
        gate_room(*old(counter), bgcd_halving(n as int, ws as int).len() as int),
    ensures
        final(gates)@ == old(gates)@ + bgcd_halving(n as int, ws as int),
        gates_recorded(*old(counter), *final(counter), bgcd_halving(n as int, ws as int)),
        qubits_unchanged(*old(counter), *final(counter)),
{
    let ghost c0 = *counter;
    let ghost g0 = gates@;
    let ghost total = bgcd_halving(n as int, ws as int);
    let r = ws + 2 * n;
    let temp = ws + 4 * n;
    let carry = ws + 5 * n + 2;
    let half = n / 2;
    let ghost h0 = seq![cnot(r as int, temp as int)];
    let ghost h1 = concat_map(fan_step(r as int, temp as int), half as int, n as int);
    let ghost h2 = cuccaro_gates(n as int, temp as int, r as int, carry as int);
    let ghost h3 = concat_map(rshift_step(r as int), 0, n - 1);
    proof {
        assert(total == h0 + h1 + h2 + h1 + h0 + h3);
        lemma_cuccaro_len(n as int, temp as int, r as int, carry as int);
        lemma_concat_map_uniform_len(fan_step(r as int, temp as int), half as int, n as int, 1);
        lemma_concat_map_uniform_len(rshift_step(r as int), 0, n - 1, 3);
    }
    emit(gates, counter, Gate::Cnot { control: r, target: temp });
    let ghost c1 = *counter;
    proof {
        lemma_room_left(c0, c1, h0, total.len() as int, n - half);
    }
    append_fan(gates, counter, 1, r, temp, half, n);
    let ghost c2 = *counter;
    proof {
        lemma_gates_recorded_concat(c0, c1, c2, h0, h1);
        lemma_room_left(c0, c2, h0 + h1, total.len() as int, cuccaro_len(n as int));
    }
    let adder = CuccaroAdder::new(n);
    let sub = adder.forward_gates(temp, r, carry, counter);
    let ghost c3 = *counter;
    append_recorded(gates, sub, Ghost(c0), Ghost(c2), Ghost(c3), Ghost(h0 + h1));
    proof {
        lemma_room_left(c0, c3, h0 + h1 + h2, total.len() as int, n - half);
    }
    append_fan(gates, counter, 1, r, temp, half, n);
    let ghost c4 = *counter;
    proof {
        lemma_gates_recorded_concat(c0, c3, c4, h0 + h1 + h2, h1);
        lemma_room_left(c0, c4, h0 + h1 + h2 + h1, total.len() as int, 1);
    }
    emit(gates, counter, Gate::Cnot { control: r, target: temp });
    let ghost c5 = *counter;
    proof {
        lemma_gates_recorded_concat(c0, c4, c5, h0 + h1 + h2 + h1, h0);
        lemma_room_left(c0, c5, h0 + h1 + h2 + h1 + h0, total.len() as int, 3 * (n - 1));
    }
    append_triples(gates, counter, 1, 0, r, 0, n - 1);
    proof {
        lemma_gates_recorded_concat(c0, c5, *counter, h0 + h1 + h2 + h1 + h0, h3);
        assert(gates@ =~= g0 + total);
    }
}

/// Appends `count` copies of a block produced by `kind` (0: GCD round,
/// 1: halving).
#[verifier::rlimit(60)]
#[verifier::spinoff_prover]
fn append_bgcd_repeat(gates: &mut Vec<Gate>, counter: &mut ResourceCounter, n: usize, ws: usize, kind: u8, count: usize)
    requires
        n >= 1,
        kind <= 1,
        ws + 5 * n + 3 <= usize::MAX,
        gate_room(
            *old(counter),
            concat_map(
                const_block(
                    if kind == 0 {
                        bgcd_round_a(n as int, ws as int) + bgcd_round_b(n as int, ws as int)
                    } else {
                        bgcd_halving(n as int, ws as int)
                    },
                ),
                0,
                count as int,
            ).len() as int,
        ),
    ensures
        final(gates)@ == old(gates)@ + concat_map(
            const_block(
                if kind == 0 {
                    bgcd_round_a(n as int, ws as int) + bgcd_round_b(n as int, ws as int)
                } else {
                    bgcd_halving(n as int, ws as int)
                },
            ),
            0,
            count as int,
        ),
        gates_recorded(
            *old(counter),
            *final(counter),
            concat_map(
                const_block(
                    if kind == 0 {
                        bgcd_round_a(n as int, ws as int) + bgcd_round_b(n as int, ws as int)
                    } else {
                        bgcd_halving(n as int, ws as int)
                    },
                ),
                0,
                count as int,
            ),
        ),
        qubits_unchanged(*old(counter), *final(counter)),
{
    let ghost c0 = *counter;
    let ghost g0 = gates@;
    let ghost blk = if kind == 0 {
        bgcd_round_a(n as int, ws as int) + bgcd_round_b(n as int, ws as int)
    } else {
        bgcd_halving(n as int, ws as int)
    };
    let ghost f = const_block(blk);
    let ghost total = concat_map(f, 0, count as int);
    let mut j: usize = 0;
    while j < count
        invariant
            j <= count,
            n >= 1,
            kind <= 1,
            ws + 5 * n + 3 <= usize::MAX,
            blk == (if kind == 0 {
                bgcd_round_a(n as int, ws as int) + bgcd_round_b(n as int, ws as int)
            } else {
                bgcd_halving(n as int, ws as int)
            }),
            f == const_block(blk),
            total == concat_map(f, 0, count as int),
            gate_room(c0, total.len() as int),
            gates@ == g0 + concat_map(f, 0, j as int),
            gates_recorded(c0, *counter, concat_map(f, 0, j as int)),
            qubits_unchanged(c0, *counter),
        decreases count - j,
    {
        let ghost d0 = concat_map(f, 0, j as int);
        proof {
            lemma_concat_map_split(f, 0, j + 1, count as int);
            assert(concat_map(f, 0, j + 1) == d0 + f(j as int));
            assert(f(j as int) == blk);
            lemma_room_left(c0, *counter, d0, total.len() as int, blk.len() as int);
        }
        let ghost c1 = *counter;
        if kind == 0 {
            let ghost a = bgcd_round_a(n as int, ws as int);
            append_bgcd_round_a(gates, counter, n, ws);
            let ghost c2 = *counter;
            proof {
                lemma_room_left(c1, c2, a, blk.len() as int, bgcd_round_b(n as int, ws as int).len() as int);
            }
            append_bgcd_round_b(gates, counter, n, ws);
            proof {
                lemma_gates_recorded_concat(c1, c2, *counter, a, bgcd_round_b(n as int, ws as int));
            }
        } else {
            append_bgcd_halving(gates, counter, n, ws);
        }
        proof {
            lemma_gates_recorded_concat(c0, c1, *counter, d0, blk);
            assert(gates@ =~= g0 + concat_map(f, 0, j + 1));
        }
        j = j + 1;
    }
}

/// Reversible modular inversion via binary GCD (Kaliski / Roetteler):
/// 2n rounds of conditional swaps and controlled subtraction/addition,
/// then 2n modular halvings, with O(n²) Toffoli gates.
pub struct BinaryGcdInverter {
    pub n: usize,
}

impl BinaryGcdInverter {
    pub fn new(n: usize) -> (r: Self)
        ensures
            r.n == n,
    {
        Self { n }
    }

    /// Workspace qubits: u, v, r, s, temp (n each) and three flags.
    pub fn workspace_size(n: usize) -> (r: usize)
        requires
            5 * n + 3 <= usize::MAX,
        ensures
            r == 5 * n + 3,
    {
        5 * n + 3
    }

    /// The inverter's gates: forward pass (initialise, 2n GCD rounds, 2n
    /// halvings), copy of r into `result`, forward pass reversed.  The
    /// workspace is allocated and released in the counter.
    pub fn forward_gates(
        &self,
        input_offset: usize,
        result_offset: usize,
        workspace_offset: usize,
        counter: &mut ResourceCounter,
    ) -> (r: Vec<Gate>)
        requires
            self.n >= 1,
            input_offset + self.n <= usize::MAX,
            result_offset + self.n <= usize::MAX,
            workspace_offset + 5 * self.n + 3 <= usize::MAX,
            gate_room(
                *old(counter),
                bgcd_gates(self.n as int, input_offset as int, result_offset as int, workspace_offset as int).len()
                    as int,
            ),
            ancilla_room(*old(counter), 5 * self.n + 3, 5 * self.n + 3),
        ensures
            r@ == bgcd_gates(self.n as int, input_offset as int, result_offset as int, workspace_offset as int),
            gates_recorded(*old(counter), *final(counter), r@),
            ancilla_scope(*old(counter), *final(counter), 5 * self.n + 3, 5 * self.n + 3),
    {
        let n = self.n;
        let ws = workspace_offset;
        let ghost c0 = *counter;
        let ghost init = bgcd_init(n as int, input_offset as int, ws as int);
        let ghost rounds = concat_map(
            const_block(bgcd_round_a(n as int, ws as int) + bgcd_round_b(n as int, ws as int)),
            0,
            2 * n,
        );
        let ghost halvings = concat_map(const_block(bgcd_halving(n as int, ws as int)), 0, 2 * n);
        let ghost fwd_spec = bgcd_forward(n as int, input_offset as int, ws as int);
        let ghost total = bgcd_gates(n as int, input_offset as int, result_offset as int, ws as int);
        let half = n / 2;
        proof {
            assert(fwd_spec == init + rounds + halvings);
            lemma_concat_map_uniform_len(not_step(ws as int), half as int, n as int, 1);
            lemma_block_lens(input_offset as int, ws + n, 0, n as int);
            lemma_block_lens(ws + 2 * n, result_offset as int, 0, n as int);
            assert(total.len() == 2 * fwd_spec.len() + n);
        }
        let ws_size = Self::workspace_size(n);
        counter.allocate_ancilla(ws_size);
        let ghost c1 = *counter;
        let mut fwd: Vec<Gate> = Vec::new();
        proof {
            lemma_room_left(c0, c1, Seq::empty(), total.len() as int, 1);
        }
        emit(&mut fwd, counter, Gate::Not { target: ws });
        let ghost c2 = *counter;
        proof {
            lemma_gates_recorded_concat(c0, c1, c2, Seq::empty(), seq![not_gate(ws as int)]);
            assert(fwd@ =~= seq![not_gate(ws as int)]);
            lemma_room_left(c0, c2, fwd@, total.len() as int, n - half);
        }
        append_fan(&mut fwd, counter, 0, 0, ws, half, n);
        let ghost c3 = *counter;
        let ghost i1 = seq![not_gate(ws as int)] + concat_map(not_step(ws as int), half as int, n as int);
        proof {
            lemma_gates_recorded_concat(c0, c2, c3, seq![not_gate(ws as int)], concat_map(not_step(ws as int), half as int, n as int));
            lemma_room_left(c0, c3, i1, total.len() as int, n as int);
        }
        append_copy(&mut fwd, counter, input_offset, ws + n, n);
        let ghost c4 = *counter;
        let ghost i2 = i1 + copy_gates(input_offset as int, ws + n, n as int);
        proof {
            lemma_gates_recorded_concat(c0, c3, c4, i1, copy_gates(input_offset as int, ws + n, n as int));
            lemma_room_left(c0, c4, i2, total.len() as int, 1);
        }
        emit(&mut fwd, counter, Gate::Not { target: ws + 3 * n });
        let ghost c5 = *counter;
        proof {
            lemma_gates_recorded_concat(c0, c4, c5, i2, seq![not_gate(ws + 3 * n)]);
            assert(fwd@ =~= init);
            lemma_room_left(c0, c5, init, total.len() as int, rounds.len() as int);
        }
        append_bgcd_repeat(&mut fwd, counter, n, ws, 0, 2 * n);
        let ghost c6 = *counter;
        proof {
            lemma_gates_recorded_concat(c0, c5, c6, init, rounds);
            lemma_room_left(c0, c6, init + rounds, total.len() as int, halvings.len() as int);
        }
        append_bgcd_repeat(&mut fwd, counter, n, ws, 1, 2 * n);
        let ghost c7 = *counter;
        proof {
            lemma_gates_recorded_concat(c0, c6, c7, init + rounds, halvings);
            assert(fwd@ =~= fwd_spec);
            lemma_room_left(c0, c7, fwd_spec, total.len() as int, n as int);
        }
        let mut gates: Vec<Gate> = Vec::new();
        append_copy_of(&mut gates, &fwd);
        append_copy(&mut gates, counter, ws + 2 * n, result_offset, n);
        let ghost c8 = *counter;
        proof {
            let cp = copy_gates(ws + 2 * n, result_offset as int, n as int);
            lemma_gates_recorded_concat(c0, c7, c8, fwd_spec, cp);
            lemma_room_left(c0, c8, fwd_spec + cp, total.len() as int, fwd_spec.len() as int);
        }
        append_reversed(&mut gates, counter, &fwd);
        proof {
            let cp = copy_gates(ws + 2 * n, result_offset as int, n as int);
            lemma_gates_recorded_concat(c0, c8, *counter, fwd_spec + cp, fwd_spec.reverse());
            assert(gates@ =~= total);
        }
        counter.free_ancilla(ws_size);
        gates
    }
}

} // verus!
