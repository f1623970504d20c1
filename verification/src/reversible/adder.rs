//! Cuccaro ripple-carry adders (plain and modulo the Goldilocks prime).
use crate::reversible::adder_laws::{computes_sum, lemma_cuccaro_computes_sum};
use crate::reversible::blocks::append_recorded;
use crate::reversible::modular_adder_laws::{computes_sum_mod_p, lemma_modular_adder_computes};
use crate::reversible::gates::Gate;
use crate::reversible::register::{bit_of, word_bit};
use crate::reversible::resource_counter::{
    ancilla_room, ancilla_scope, emit, gate_room, gates_recorded, lemma_gates_recorded_concat,
    lemma_room_left, qubits_unchanged, ResourceCounter,
};
use vstd::arithmetic::power2::{lemma_pow2_strictly_increases, pow2};
use vstd::prelude::*;

verus! {

/// A CNOT gate on integer qubit indices.
pub open spec fn cnot(c: int, t: int) -> Gate {
    Gate::Cnot { control: c as usize, target: t as usize }
}

/// A Toffoli gate on integer qubit indices.
pub open spec fn toffoli(c1: int, c2: int, t: int) -> Gate {
    Gate::Toffoli { control1: c1 as usize, control2: c2 as usize, target: t as usize }
}

/// A NOT gate on an integer qubit index.
pub open spec fn not_gate(t: int) -> Gate {
    Gate::Not { target: t as usize }
}

/// MAJ(x, y, z): CNOT(z→y), CNOT(z→x), Toffoli(x, y→z); z becomes the carry.
pub open spec fn maj(x: int, y: int, z: int) -> Seq<Gate> {
    seq![cnot(z, y), cnot(z, x), toffoli(x, y, z)]
}

/// UMA(x, y, z): Toffoli(x, y→z), CNOT(z→x), CNOT(x→y); restores z and
/// leaves the sum bit in y.
pub open spec fn uma(x: int, y: int, z: int) -> Seq<Gate> {
    seq![toffoli(x, y, z), cnot(z, x), cnot(x, y)]
}

/// The MAJ blocks of columns lo..hi in increasing order, column i being
/// MAJ(a+i−1, b+i, a+i).
pub open spec fn maj_ladder(a: int, b: int, lo: int, hi: int) -> Seq<Gate>
    decreases hi - lo,
{
    if hi <= lo {
        Seq::empty()
    } else {
        maj_ladder(a, b, lo, hi - 1) + maj(a + hi - 2, b + hi - 1, a + hi - 1)
    }
}

/// The UMA blocks of columns hi−1 down to lo, column i being
/// UMA(a+i−1, b+i, a+i).
pub open spec fn uma_ladder(a: int, b: int, lo: int, hi: int) -> Seq<Gate>
    decreases hi - lo,
{
    if hi <= lo {
        Seq::empty()
    } else {
        uma_ladder(a, b, lo + 1, hi) + uma(a + lo - 1, b + lo, a + lo)
    }
}

/// The Cuccaro adder b ← a + b (mod 2^n) with carry-in ancilla c.
pub open spec fn cuccaro_gates(n: int, a: int, b: int, c: int) -> Seq<Gate> {
    maj(c, b, a) + maj_ladder(a, b, 1, n) + uma_ladder(a, b, 1, n) + uma(c, b, a)
}

/// The Cuccaro adder with the carry-out of the top column copied into
/// `co` between the two sweeps.
pub open spec fn capture_adder_gates(n: int, a: int, b: int, c: int, co: int) -> Seq<Gate> {
    maj(c, b, a) + maj_ladder(a, b, 1, n) + seq![cnot(a + n - 1, co)] + uma_ladder(a, b, 1, n)
        + uma(c, b, a)
}

/// NOT gates on `base + i` for every i < hi whose bit in v is set, in
/// increasing order of i.
pub open spec fn not_where_set(v: nat, base: int, hi: int) -> Seq<Gate>
    decreases hi,
{
    if hi <= 0 {
        Seq::empty()
    } else {
        not_where_set(v, base, hi - 1) + if bit_of(v, (hi - 1) as nat) {
            seq![not_gate(base + hi - 1)]
        } else {
            Seq::empty()
        }
    }
}

/// CNOT gates from `ctrl` to `base + i` for every i < hi whose bit in v is
/// set, in increasing order of i.
pub open spec fn cnot_where_set(v: nat, ctrl: int, base: int, hi: int) -> Seq<Gate>
    decreases hi,
{
    if hi <= 0 {
        Seq::empty()
    } else {
        cnot_where_set(v, ctrl, base, hi - 1) + if bit_of(v, (hi - 1) as nat) {
            seq![cnot(ctrl, base + hi - 1)]
        } else {
            Seq::empty()
        }
    }
}

/// The Goldilocks prime 2^64 − 2^32 + 1.
pub open spec fn goldilocks_p() -> nat {
    0xFFFF_FFFF_0000_0001
}

/// −p modulo 2^64 plus the n-th power of two, reduced to 64 bits:
/// the constant whose low n bits the modular adder loads.
pub open spec fn neg_p_const(n: nat) -> nat {
    if n >= 64 {
        0xFFFF_FFFF
    } else {
        pow2(n) + 0xFFFF_FFFF
    }
}

/// All ones in 64 bits: the mask that complements a register.
pub open spec fn ones64() -> nat {
    0xFFFF_FFFF_FFFF_FFFF
}

/// The modular adder b ← (a + b) mod p with carry ancilla c and a
/// workspace of n + 1 qubits (the register w and the flag f = w + n):
/// b += a with the carry-out in f; w ← K = 2^n − p (mod 2^n); b += w with
/// the carry-out into f, so that f = [a + b ≥ p] and b = a + b − p when it
/// is set; w ← 0; under ¬f, w ← p, b += w (undoing the K), w ← 0; then f
/// is cleared by comparing the result r with a: with a complemented and
/// the carry set, b ← r − a flips f by [r ≥ a]; f, the carry and a are
/// restored, and b += a gives r back.
pub open spec fn modular_adder_gates(n: int, a: int, b: int, c: int, w: int) -> Seq<Gate> {
    let f = w + n;
    capture_adder_gates(n, a, b, c, f) + not_where_set(neg_p_const(n as nat), w, n) + capture_adder_gates(
        n,
        w,
        b,
        c,
        f,
    ) + not_where_set(neg_p_const(n as nat), w, n) + correction_gates(n, b, c, w, f) + flag_clear_gates(n, a, b, c, f)
}

/// The correction of the modular adder under ¬f: w ← p, b += w, w ← 0.
pub open spec fn correction_gates(n: int, b: int, c: int, w: int, f: int) -> Seq<Gate> {
    seq![not_gate(f)] + cnot_where_set(goldilocks_p(), f, w, n) + seq![not_gate(f)] + cuccaro_gates(n, w, b, c)
        + seq![not_gate(f)] + cnot_where_set(goldilocks_p(), f, w, n) + seq![not_gate(f)]
}

/// Clearing the flag f = [r < a] of the modular adder with result r in b:
/// a ← ¬a, carry ← 1, b += a with the carry-out into f (b = r − a, f
/// flipped by [r ≥ a]), f ← 0, carry ← 0, a restored, b += a.
pub open spec fn flag_clear_gates(n: int, a: int, b: int, c: int, f: int) -> Seq<Gate> {
    not_where_set(ones64(), a, n) + seq![not_gate(c)] + capture_adder_gates(n, a, b, c, f) + seq![
        not_gate(f),
        not_gate(c),
    ] + not_where_set(ones64(), a, n) + cuccaro_gates(n, a, b, c)
}

pub proof fn lemma_maj_ladder_len(a: int, b: int, lo: int, hi: int)
    ensures
        maj_ladder(a, b, lo, hi).len() == if hi <= lo {
            0
        } else {
            3 * (hi - lo)
        },
    decreases hi - lo,
{
    if hi > lo {
        lemma_maj_ladder_len(a, b, lo, hi - 1);
    }
}

pub proof fn lemma_uma_ladder_len(a: int, b: int, lo: int, hi: int)
    ensures
        uma_ladder(a, b, lo, hi).len() == if hi <= lo {
            0
        } else {
            3 * (hi - lo)
        },
    decreases hi - lo,
{
    if hi > lo {
        lemma_uma_ladder_len(a, b, lo + 1, hi);
    }
}

/// The Cuccaro adder has 6·max(n, 1) gates.
pub proof fn lemma_cuccaro_len(n: int, a: int, b: int, c: int)
    ensures
        cuccaro_gates(n, a, b, c).len() == cuccaro_len(n),
{
    lemma_maj_ladder_len(a, b, 1, n);
    lemma_uma_ladder_len(a, b, 1, n);
}

/// The number of gates of the Cuccaro adder on n bits.
pub open spec fn cuccaro_len(n: int) -> int {
    if n <= 1 {
        6
    } else {
        6 * n
    }
}

/// The carry-capturing adder has one gate more than the plain one.
pub proof fn lemma_capture_len(n: int, a: int, b: int, c: int, co: int)
    ensures
        capture_adder_gates(n, a, b, c, co).len() == if n <= 1 {
            7
        } else {
            6 * n + 1
        },
{
    lemma_maj_ladder_len(a, b, 1, n);
    lemma_uma_ladder_len(a, b, 1, n);
}

/// The conditional constant loads touch at most one qubit per bit.
pub proof fn lemma_where_set_len(v: nat, ctrl: int, base: int, lo: int, hi: int)
    requires
        0 <= lo <= hi,
    ensures
        not_where_set(v, base, lo).len() <= not_where_set(v, base, hi).len() <= not_where_set(
            v,
            base,
            lo,
        ).len() + (hi - lo),
        cnot_where_set(v, ctrl, base, lo).len() <= cnot_where_set(v, ctrl, base, hi).len()
            <= cnot_where_set(v, ctrl, base, lo).len() + (hi - lo),
    decreases hi - lo,
{
    if hi > lo {
        lemma_where_set_len(v, ctrl, base, lo, hi - 1);
    }
}

/// Appends MAJ(x, y, z).
fn emit_maj(gates: &mut Vec<Gate>, counter: &mut ResourceCounter, x: usize, y: usize, z: usize)
    requires
        gate_room(*old(counter), 3),
    ensures
        final(gates)@ == old(gates)@ + maj(x as int, y as int, z as int),
        gates_recorded(*old(counter), *final(counter), maj(x as int, y as int, z as int)),
        qubits_unchanged(*old(counter), *final(counter)),
{
    let ghost c0 = *counter;
    let g1 = Gate::Cnot { control: z, target: y };
    let g2 = Gate::Cnot { control: z, target: x };
    let g3 = Gate::Toffoli { control1: x, control2: y, target: z };
    emit(gates, counter, g1);
    let ghost c1 = *counter;
    proof {
        lemma_room_left(c0, c1, seq![g1], 3, 2);
    }
    emit(gates, counter, g2);
    let ghost c2 = *counter;
    proof {
        lemma_gates_recorded_concat(c0, c1, c2, seq![g1], seq![g2]);
        lemma_room_left(c0, c2, seq![g1] + seq![g2], 3, 1);
    }
    emit(gates, counter, g3);
    proof {
        lemma_gates_recorded_concat(c0, c2, *counter, seq![g1] + seq![g2], seq![g3]);
        assert(seq![g1] + seq![g2] + seq![g3] =~= maj(x as int, y as int, z as int));
        assert(gates@ =~= old(gates)@ + maj(x as int, y as int, z as int));
    }
}

/// Appends UMA(x, y, z).
fn emit_uma(gates: &mut Vec<Gate>, counter: &mut ResourceCounter, x: usize, y: usize, z: usize)
    requires
        gate_room(*old(counter), 3),
    ensures
        final(gates)@ == old(gates)@ + uma(x as int, y as int, z as int),
        gates_recorded(*old(counter), *final(counter), uma(x as int, y as int, z as int)),
        qubits_unchanged(*old(counter), *final(counter)),
{
    let ghost c0 = *counter;
    let g1 = Gate::Toffoli { control1: x, control2: y, target: z };
    let g2 = Gate::Cnot { control: z, target: x };
    let g3 = Gate::Cnot { control: x, target: y };
    emit(gates, counter, g1);
    let ghost c1 = *counter;
    proof {
        lemma_room_left(c0, c1, seq![g1], 3, 2);
    }
    emit(gates, counter, g2);
    let ghost c2 = *counter;
    proof {
        lemma_gates_recorded_concat(c0, c1, c2, seq![g1], seq![g2]);
        lemma_room_left(c0, c2, seq![g1] + seq![g2], 3, 1);
    }
    emit(gates, counter, g3);
    proof {
        lemma_gates_recorded_concat(c0, c2, *counter, seq![g1] + seq![g2], seq![g3]);
        assert(seq![g1] + seq![g2] + seq![g3] =~= uma(x as int, y as int, z as int));
        assert(gates@ =~= old(gates)@ + uma(x as int, y as int, z as int));
    }
}

/// Appends one gate to a list that is being recorded since `c0`.
fn emit_tracked(
    gates: &mut Vec<Gate>,
    counter: &mut ResourceCounter,
    g: Gate,
    Ghost(c0): Ghost<ResourceCounter>,
    Ghost(base): Ghost<Seq<Gate>>,
)
    requires
        gates_recorded(c0, *old(counter), old(gates)@.skip(base.len() as int)),
        qubits_unchanged(c0, *old(counter)),
        base.len() <= old(gates)@.len(),
        gate_room(*old(counter), 1),
    ensures
        final(gates)@ == old(gates)@.push(g),
        gates_recorded(c0, *final(counter), final(gates)@.skip(base.len() as int)),
        qubits_unchanged(c0, *final(counter)),
{
    let ghost c1 = *counter;
    let ghost before = gates@.skip(base.len() as int);
    emit(gates, counter, g);
    proof {
        lemma_gates_recorded_concat(c0, c1, *counter, before, seq![g]);
        assert(gates@.skip(base.len() as int) =~= before + seq![g]);
    }
}

/// Appends a NOT on `base + i` for every i < n whose bit in v is set.
fn append_not_where_set(gates: &mut Vec<Gate>, counter: &mut ResourceCounter, v: u64, base: usize, n: usize)
    requires
        n <= 64,
        base + n <= usize::MAX,
        gate_room(*old(counter), not_where_set(v as nat, base as int, n as int).len() as int),
    ensures
        final(gates)@ == old(gates)@ + not_where_set(v as nat, base as int, n as int),
        gates_recorded(*old(counter), *final(counter), not_where_set(v as nat, base as int, n as int)),
        qubits_unchanged(*old(counter), *final(counter)),
{
    let ghost c0 = *counter;
    let ghost g0 = gates@;
    let mut i: usize = 0;
    while i < n
        invariant
            i <= n,
            n <= 64,
            base + n <= usize::MAX,
            gate_room(c0, not_where_set(v as nat, base as int, n as int).len() as int),
            gates@ == g0 + not_where_set(v as nat, base as int, i as int),
            gates_recorded(c0, *counter, not_where_set(v as nat, base as int, i as int)),
            qubits_unchanged(c0, *counter),
        decreases n - i,
    {
        proof {
            lemma_where_set_len(v as nat, 0, base as int, i + 1, n as int);
            assert(not_where_set(v as nat, base as int, i + 1) =~= not_where_set(v as nat, base as int, i as int) + if bit_of(v as nat, i as nat) {
                seq![not_gate(base + i)]
            } else {
                Seq::empty()
            });
        }
        if word_bit(v, i) {
            proof {
                lemma_room_left(
                    c0,
                    *counter,
                    not_where_set(v as nat, base as int, i as int),
                    not_where_set(v as nat, base as int, n as int).len() as int,
                    1,
                );
            }
            let ghost c1 = *counter;
            emit(gates, counter, Gate::Not { target: base + i });
            proof {
                lemma_gates_recorded_concat(
                    c0,
                    c1,
                    *counter,
                    not_where_set(v as nat, base as int, i as int),
                    seq![not_gate(base + i)],
                );
            }
        }
        proof {
            assert(not_where_set(v as nat, base as int, i + 1) =~= not_where_set(v as nat, base as int, i as int) + if bit_of(v as nat, i as nat) {
                seq![not_gate(base + i)]
            } else {
                Seq::empty()
            });
            assert(gates@ =~= g0 + not_where_set(v as nat, base as int, i + 1));
        }
        i = i + 1;
    }
}

/// Appends a CNOT from `ctrl` to `base + i` for every i < n whose bit in v
/// is set.
pub(crate) fn append_cnot_where_set(
    gates: &mut Vec<Gate>,
    counter: &mut ResourceCounter,
    v: u64,
    ctrl: usize,
    base: usize,
    n: usize,
)
    requires
        n <= 64,
        base + n <= usize::MAX,
        gate_room(*old(counter), cnot_where_set(v as nat, ctrl as int, base as int, n as int).len() as int),
    ensures
        final(gates)@ == old(gates)@ + cnot_where_set(v as nat, ctrl as int, base as int, n as int),
        gates_recorded(
            *old(counter),
            *final(counter),
            cnot_where_set(v as nat, ctrl as int, base as int, n as int),
        ),
        qubits_unchanged(*old(counter), *final(counter)),
{
    let ghost c0 = *counter;
    let ghost g0 = gates@;
    let mut i: usize = 0;
    while i < n
        invariant
            i <= n,
            n <= 64,
            base + n <= usize::MAX,
            gate_room(c0, cnot_where_set(v as nat, ctrl as int, base as int, n as int).len() as int),
            gates@ == g0 + cnot_where_set(v as nat, ctrl as int, base as int, i as int),
            gates_recorded(c0, *counter, cnot_where_set(v as nat, ctrl as int, base as int, i as int)),
            qubits_unchanged(c0, *counter),
        decreases n - i,
    {
        proof {
            lemma_where_set_len(v as nat, ctrl as int, base as int, i + 1, n as int);
            assert(cnot_where_set(v as nat, ctrl as int, base as int, i + 1) =~= cnot_where_set(
                v as nat,
                ctrl as int,
                base as int,
                i as int,
            ) + if bit_of(v as nat, i as nat) {
                seq![cnot(ctrl as int, base + i)]
            } else {
                Seq::empty()
            });
        }
        if word_bit(v, i) {
            proof {
                lemma_room_left(
                    c0,
                    *counter,
                    cnot_where_set(v as nat, ctrl as int, base as int, i as int),
                    cnot_where_set(v as nat, ctrl as int, base as int, n as int).len() as int,
                    1,
                );
            }
            let ghost c1 = *counter;
            emit(gates, counter, Gate::Cnot { control: ctrl, target: base + i });
            proof {
                lemma_gates_recorded_concat(
                    c0,
                    c1,
                    *counter,
                    cnot_where_set(v as nat, ctrl as int, base as int, i as int),
                    seq![cnot(ctrl as int, base + i)],
                );
            }
        }
        proof {
            assert(cnot_where_set(v as nat, ctrl as int, base as int, i + 1) =~= cnot_where_set(
                v as nat,
                ctrl as int,
                base as int,
                i as int,
            ) + if bit_of(v as nat, i as nat) {
                seq![cnot(ctrl as int, base + i)]
            } else {
                Seq::empty()
            });
            assert(gates@ =~= g0 + cnot_where_set(v as nat, ctrl as int, base as int, i + 1));
        }
        i = i + 1;
    }
}

/// The Cuccaro adder b ← a + b (mod 2^n) with the carry-out of the top
/// column copied into `co` between the sweeps: MAJ sweep, CNOT(a[n−1]→co),
/// UMA sweep.  Every gate is recorded in the counter.
pub fn capture_adder(
    n: usize,
    a: usize,
    b: usize,
    c: usize,
    co: usize,
    counter: &mut ResourceCounter,
) -> (r: Vec<Gate>)
    requires
        n >= 1,
        a + n <= usize::MAX,
        b + n <= usize::MAX,
        gate_room(*old(counter), 6 * n + 1),
    ensures
        r@ == capture_adder_gates(n as int, a as int, b as int, c as int, co as int),
        r@.len() == 6 * n + 1,
        gates_recorded(*old(counter), *final(counter), r@),
        qubits_unchanged(*old(counter), *final(counter)),
{
    let ghost c0 = *counter;
    let ghost ai = a as int;
    let ghost bi = b as int;
    let ghost ci = c as int;
    let mut gates: Vec<Gate> = Vec::new();
    emit_maj(&mut gates, counter, c, b, a);
    proof {
        assert(gates@ =~= maj(ci, bi, ai));
    }
    let mut i: usize = 1;
    while i < n
        invariant
            1 <= i <= n,
            ai == a as int,
            bi == b as int,
            ci == c as int,
            a + n <= usize::MAX,
            b + n <= usize::MAX,
            gate_room(c0, 6 * n + 1),
            gates@ == maj(ci, bi, ai) + maj_ladder(ai, bi, 1, i as int),
            gates_recorded(c0, *counter, gates@),
            qubits_unchanged(c0, *counter),
        decreases n - i,
    {
        proof {
            lemma_maj_ladder_len(ai, bi, 1, i as int);
            lemma_room_left(c0, *counter, gates@, 6 * n + 1, 3);
        }
        let ghost c1 = *counter;
        let ghost g0 = gates@;
        emit_maj(&mut gates, counter, a + i - 1, b + i, a + i);
        proof {
            let step = maj(ai + (i + 1) - 2, bi + (i + 1) - 1, ai + (i + 1) - 1);
            lemma_gates_recorded_concat(c0, c1, *counter, g0, step);
            assert(maj_ladder(ai, bi, 1, i + 1) == maj_ladder(ai, bi, 1, i as int) + step);
            assert(gates@ =~= maj(ci, bi, ai) + maj_ladder(ai, bi, 1, i + 1));
        }
        i = i + 1;
    }
    proof {
        lemma_maj_ladder_len(ai, bi, 1, n as int);
        lemma_room_left(c0, *counter, gates@, 6 * n + 1, 1);
    }
    let ghost c1 = *counter;
    let ghost g1 = gates@;
    emit(&mut gates, counter, Gate::Cnot { control: a + n - 1, target: co });
    proof {
        lemma_gates_recorded_concat(c0, c1, *counter, g1, seq![cnot(ai + n - 1, co as int)]);
        assert(gates@ =~= maj(ci, bi, ai) + maj_ladder(ai, bi, 1, n as int) + seq![
            cnot(ai + n - 1, co as int),
        ] + uma_ladder(ai, bi, n as int, n as int));
    }
    let ghost head = maj(ci, bi, ai) + maj_ladder(ai, bi, 1, n as int) + seq![cnot(ai + n - 1, co as int)];
    let mut j: usize = n;
    while j > 1
        invariant
            1 <= j <= n,
            ai == a as int,
            bi == b as int,
            ci == c as int,
            a + n <= usize::MAX,
            b + n <= usize::MAX,
            gate_room(c0, 6 * n + 1),
            head.len() == 3 * n + 1,
            gates@ == head + uma_ladder(ai, bi, j as int, n as int),
            gates_recorded(c0, *counter, gates@),
            qubits_unchanged(c0, *counter),
        decreases j,
    {
        proof {
            lemma_uma_ladder_len(ai, bi, j as int, n as int);
            lemma_room_left(c0, *counter, gates@, 6 * n + 1, 3);
        }
        j = j - 1;
        let ghost c2 = *counter;
        let ghost g0 = gates@;
        emit_uma(&mut gates, counter, a + j - 1, b + j, a + j);
        proof {
            lemma_gates_recorded_concat(
                c0,
                c2,
                *counter,
                g0,
                uma((a + j - 1) as int, (b + j) as int, (a + j) as int),
            );
            assert(gates@ =~= head + uma_ladder(ai, bi, j as int, n as int));
        }
    }
    proof {
        lemma_uma_ladder_len(ai, bi, 1, n as int);
        lemma_room_left(c0, *counter, gates@, 6 * n + 1, 3);
    }
    let ghost c3 = *counter;
    let ghost g3 = gates@;
    emit_uma(&mut gates, counter, c, b, a);
    proof {
        lemma_gates_recorded_concat(c0, c3, *counter, g3, uma(ci, bi, ai));
        assert(gates@ =~= capture_adder_gates(n as int, ai, bi, ci, co as int));
        lemma_capture_len(n as int, ai, bi, ci, co as int);
    }
    gates
}

/// Cuccaro ripple-carry adder: |a⟩|b⟩|c⟩ → |a⟩|a+b mod 2^n⟩|c⟩ with O(n)
/// Toffoli gates and one carry ancilla.
pub struct CuccaroAdder {
    /// Number of bits per operand.
    pub n: usize,
}

/// Appends the modular adder's gates (see `modular_adder_gates`) in a
/// workspace the caller provides.
#[verifier::rlimit(100)]
#[verifier::spinoff_prover]
pub(crate) fn append_mod_add(gates: &mut Vec<Gate>, counter: &mut ResourceCounter, n: usize, a: usize, b: usize, c: usize, w: usize)
    requires
        1 <= n <= 64,
        a + n <= usize::MAX,
        b + n <= usize::MAX,
        w + n + 1 <= usize::MAX,
        gate_room(*old(counter), modular_adder_gates(n as int, a as int, b as int, c as int, w as int).len() as int),
    ensures
        final(gates)@ == old(gates)@ + modular_adder_gates(n as int, a as int, b as int, c as int, w as int),
        gates_recorded(*old(counter), *final(counter), modular_adder_gates(n as int, a as int, b as int, c as int, w as int)),
        qubits_unchanged(*old(counter), *final(counter)),
{
    let f = w + n;
    let ghost budget = modular_adder_gates(n as int, a as int, b as int, c as int, w as int).len() as int;
    let neg_p: u64 = if n == 64 {
        0xFFFF_FFFF
    } else {
        proof {
            vstd::bits::lemma_u64_pow2_no_overflow(n as nat);
            vstd::arithmetic::power2::lemma2_to64_rest();
            if n < 63 {
                lemma_pow2_strictly_increases(n as nat, 63);
            }
            vstd::bits::lemma_u64_shl_is_mul(1u64, n as u64);
        }
        (1u64 << n) + 0xFFFF_FFFF
    };
    let p_val: u64 = 0xFFFF_FFFF_0000_0001;
    let ones: u64 = 0xFFFF_FFFF_FFFF_FFFF;
    proof {
        assert(neg_p as nat == neg_p_const(n as nat));

        lemma_capture_len(n as int, a as int, b as int, c as int, f as int);
        lemma_capture_len(n as int, w as int, b as int, c as int, f as int);
        lemma_cuccaro_len(n as int, w as int, b as int, c as int);
        lemma_cuccaro_len(n as int, a as int, b as int, c as int);
        lemma_where_set_len(neg_p as nat, 0, w as int, 0, n as int);
        lemma_where_set_len(p_val as nat, f as int, w as int, 0, n as int);
        lemma_where_set_len(ones as nat, 0, a as int, 0, n as int);
        assert(modular_adder_gates(n as int, a as int, b as int, c as int, w as int) =~= capture_adder_gates(
            n as int,
            a as int,
            b as int,
            c as int,
            f as int,
        ) + not_where_set(neg_p as nat, w as int, n as int) + capture_adder_gates(
            n as int,
            w as int,
            b as int,
            c as int,
            f as int,
        ) + not_where_set(neg_p as nat, w as int, n as int) + correction_gates(n as int, b as int, c as int, w as int, f as int)
            + flag_clear_gates(n as int, a as int, b as int, c as int, f as int));
        assert(budget == 2 * (6 * n + 1) + 2 * not_where_set(neg_p as nat, w as int, n as int).len()
            + correction_gates(n as int, b as int, c as int, w as int, f as int).len()
            + flag_clear_gates(n as int, a as int, b as int, c as int, f as int).len());
    }
    let ghost c1 = *counter;
    let mut gates2: Vec<Gate> = Vec::new();
    // b += a, carry-out into f
    let ghost d = gates2@;
    let ghost cb = *counter;
    proof {
        lemma_room_left(c1, cb, d, budget, 6 * n + 1);
    }
    let piece = capture_adder(n, a, b, c, f, counter);
    let ghost ca = *counter;
    append_recorded(&mut gates2, piece, Ghost(c1), Ghost(cb), Ghost(ca), Ghost(d));
    // w ← K
    let ghost d = gates2@;
    let ghost cb = *counter;
    proof {
        lemma_room_left(c1, cb, d, budget, not_where_set(neg_p as nat, w as int, n as int).len() as int);
    }
    let mut piece: Vec<Gate> = Vec::new();
    append_not_where_set(&mut piece, counter, neg_p, w, n);
    let ghost ca = *counter;
    append_recorded(&mut gates2, piece, Ghost(c1), Ghost(cb), Ghost(ca), Ghost(d));
    // b += w, carry-out into f
    let ghost d = gates2@;
    let ghost cb = *counter;
    proof {
        lemma_room_left(c1, cb, d, budget, 6 * n + 1);
    }
    let piece = capture_adder(n, w, b, c, f, counter);
    let ghost ca = *counter;
    append_recorded(&mut gates2, piece, Ghost(c1), Ghost(cb), Ghost(ca), Ghost(d));
    // w ← 0
    let ghost d = gates2@;
    let ghost cb = *counter;
    proof {
        lemma_room_left(c1, cb, d, budget, not_where_set(neg_p as nat, w as int, n as int).len() as int);
    }
    let mut piece: Vec<Gate> = Vec::new();
    append_not_where_set(&mut piece, counter, neg_p, w, n);
    let ghost ca = *counter;
    append_recorded(&mut gates2, piece, Ghost(c1), Ghost(cb), Ghost(ca), Ghost(d));
    let ghost d = gates2@;
    let ghost cb = *counter;
    proof {
        lemma_room_left(c1, cb, d, budget, correction_gates(n as int, b as int, c as int, w as int, f as int).len() as int);
    }
    append_correction(&mut gates2, counter, n, b, c, w, f);
    let ghost ca = *counter;
    proof {
        lemma_gates_recorded_concat(c1, cb, ca, d, correction_gates(n as int, b as int, c as int, w as int, f as int));
    }
    let ghost d = gates2@;
    let ghost cb = *counter;
    proof {
        lemma_room_left(c1, cb, d, budget, flag_clear_gates(n as int, a as int, b as int, c as int, f as int).len() as int);
    }
    append_flag_clear(&mut gates2, counter, n, a, b, c, f);
    let ghost ca = *counter;
    proof {
        lemma_gates_recorded_concat(c1, cb, ca, d, flag_clear_gates(n as int, a as int, b as int, c as int, f as int));
    }
    proof {
        assert(gates2@ =~= modular_adder_gates(n as int, a as int, b as int, c as int, w as int));
    }
    gates.append(&mut gates2);
}

/// The modular adder has at most 36n + 10 gates.
pub proof fn lemma_mod_add_len(n: int, a: int, b: int, c: int, w: int)
    requires
        1 <= n <= 64,
    ensures
        modular_adder_gates(n, a, b, c, w).len() <= 36 * n + 10,
{
    lemma_capture_len(n, a, b, c, w + n);
    lemma_capture_len(n, w, b, c, w + n);
    lemma_cuccaro_len(n, w, b, c);
    lemma_cuccaro_len(n, a, b, c);
    lemma_where_set_len(neg_p_const(n as nat), 0, w, 0, n);
    lemma_where_set_len(goldilocks_p(), w + n, w, 0, n);
    lemma_where_set_len(ones64(), 0, a, 0, n);
}

/// Appends the correction steps of the modular adder.
#[verifier::rlimit(60)]
fn append_correction(gates: &mut Vec<Gate>, counter: &mut ResourceCounter, n: usize, b: usize, c: usize, w: usize, f: usize)
    requires
        1 <= n <= 64,
        b + n <= usize::MAX,
        w + n <= usize::MAX,
        gate_room(*old(counter), correction_gates(n as int, b as int, c as int, w as int, f as int).len() as int),
    ensures
        final(gates)@ == old(gates)@ + correction_gates(n as int, b as int, c as int, w as int, f as int),
        gates_recorded(*old(counter), *final(counter), correction_gates(n as int, b as int, c as int, w as int, f as int)),
        qubits_unchanged(*old(counter), *final(counter)),
{
    let ghost c1 = *counter;
    let ghost budget = correction_gates(n as int, b as int, c as int, w as int, f as int).len() as int;
    let p_val: u64 = 0xFFFF_FFFF_0000_0001;
    let ghost lp = cnot_where_set(p_val as nat, f as int, w as int, n as int).len() as int;
    let mut gates2: Vec<Gate> = Vec::new();
    proof {
        lemma_cuccaro_len(n as int, w as int, b as int, c as int);
        lemma_where_set_len(p_val as nat, f as int, w as int, 0, n as int);
        assert(budget == 2 * (lp + 2) + 6 * n);
    }
    // w ← p under ¬f
    let ghost d = gates2@;
    let ghost cb = *counter;
    proof {
        lemma_room_left(c1, cb, d, budget, lp + 2);
    }
    let mut piece: Vec<Gate> = Vec::new();
    emit(&mut piece, counter, Gate::Not { target: f });
    let ghost cm1 = *counter;
    proof {
        lemma_room_left(cb, cm1, seq![not_gate(f as int)], lp + 2, lp);
    }
    append_cnot_where_set(&mut piece, counter, p_val, f, w, n);
    let ghost cm2 = *counter;
    proof {
        lemma_gates_recorded_concat(
            cb,
            cm1,
            cm2,
            seq![not_gate(f as int)],
            cnot_where_set(p_val as nat, f as int, w as int, n as int),
        );
        lemma_room_left(
            cb,
            cm2,
            seq![not_gate(f as int)] + cnot_where_set(p_val as nat, f as int, w as int, n as int),
            lp + 2,
            1,
        );
    }
    emit(&mut piece, counter, Gate::Not { target: f });
    let ghost ca = *counter;
    proof {
        let x = seq![not_gate(f as int)];
        let y = cnot_where_set(p_val as nat, f as int, w as int, n as int);
        lemma_gates_recorded_concat(cb, cm1, cm2, x, y);
        lemma_gates_recorded_concat(cb, cm2, ca, x + y, x);
        assert(piece@ =~= x + y + x);
    }
    append_recorded(&mut gates2, piece, Ghost(c1), Ghost(cb), Ghost(ca), Ghost(d));
    // b += w
    let ghost d = gates2@;
    let ghost cb = *counter;
    proof {
        lemma_room_left(c1, cb, d, budget, 6 * n);
    }
    let piece = CuccaroAdder::new(n).forward_gates(w, b, c, counter);
    let ghost ca = *counter;
    append_recorded(&mut gates2, piece, Ghost(c1), Ghost(cb), Ghost(ca), Ghost(d));
    // w ← 0 under ¬f
    let ghost d = gates2@;
    let ghost cb = *counter;
    proof {
        lemma_room_left(c1, cb, d, budget, lp + 2);
    }
    let mut piece: Vec<Gate> = Vec::new();
    emit(&mut piece, counter, Gate::Not { target: f });
    let ghost cm1 = *counter;
    proof {
        lemma_room_left(cb, cm1, seq![not_gate(f as int)], lp + 2, lp);
    }
    append_cnot_where_set(&mut piece, counter, p_val, f, w, n);
    let ghost cm2 = *counter;
    proof {
        lemma_gates_recorded_concat(
            cb,
            cm1,
            cm2,
            seq![not_gate(f as int)],
            cnot_where_set(p_val as nat, f as int, w as int, n as int),
        );
        lemma_room_left(
            cb,
            cm2,
            seq![not_gate(f as int)] + cnot_where_set(p_val as nat, f as int, w as int, n as int),
            lp + 2,
            1,
        );
    }
    emit(&mut piece, counter, Gate::Not { target: f });
    let ghost ca = *counter;
    proof {
        let x = seq![not_gate(f as int)];
        let y = cnot_where_set(p_val as nat, f as int, w as int, n as int);
        lemma_gates_recorded_concat(cb, cm1, cm2, x, y);
        lemma_gates_recorded_concat(cb, cm2, ca, x + y, x);
        assert(piece@ =~= x + y + x);
    }
    append_recorded(&mut gates2, piece, Ghost(c1), Ghost(cb), Ghost(ca), Ghost(d));
    proof {
        assert(gates2@ =~= correction_gates(n as int, b as int, c as int, w as int, f as int));
    }
    gates.append(&mut gates2);
}

/// Appends the flag-clearing steps of the modular adder.
#[verifier::rlimit(60)]
fn append_flag_clear(gates: &mut Vec<Gate>, counter: &mut ResourceCounter, n: usize, a: usize, b: usize, c: usize, f: usize)
    requires
        1 <= n <= 64,
        a + n <= usize::MAX,
        b + n <= usize::MAX,
        gate_room(*old(counter), flag_clear_gates(n as int, a as int, b as int, c as int, f as int).len() as int),
    ensures
        final(gates)@ == old(gates)@ + flag_clear_gates(n as int, a as int, b as int, c as int, f as int),
        gates_recorded(*old(counter), *final(counter), flag_clear_gates(n as int, a as int, b as int, c as int, f as int)),
        qubits_unchanged(*old(counter), *final(counter)),
{
    let ghost c1 = *counter;
    let ghost budget = flag_clear_gates(n as int, a as int, b as int, c as int, f as int).len() as int;
    let ones: u64 = 0xFFFF_FFFF_FFFF_FFFF;
    let ghost lo = not_where_set(ones as nat, a as int, n as int).len() as int;
    let mut gates2: Vec<Gate> = Vec::new();
    proof {
        lemma_capture_len(n as int, a as int, b as int, c as int, f as int);
        lemma_cuccaro_len(n as int, a as int, b as int, c as int);
        lemma_where_set_len(ones as nat, 0, a as int, 0, n as int);
        assert(budget == 2 * lo + 3 + (6 * n + 1) + 6 * n);
    }
    // a ← ¬a, carry ← 1
    let ghost d = gates2@;
    let ghost cb = *counter;
    proof {
        lemma_room_left(c1, cb, d, budget, lo + 1);
    }
    let mut piece: Vec<Gate> = Vec::new();
    append_not_where_set(&mut piece, counter, ones, a, n);
    let ghost cm = *counter;
    proof {
        lemma_room_left(cb, cm, not_where_set(ones as nat, a as int, n as int), lo + 1, 1);
    }
    emit(&mut piece, counter, Gate::Not { target: c });
    let ghost ca = *counter;
    proof {
        lemma_gates_recorded_concat(cb, cm, ca, not_where_set(ones as nat, a as int, n as int), seq![not_gate(c as int)]);
        assert(piece@ =~= not_where_set(ones as nat, a as int, n as int) + seq![not_gate(c as int)]);
    }
    append_recorded(&mut gates2, piece, Ghost(c1), Ghost(cb), Ghost(ca), Ghost(d));
    // b ← b + ¬a + 1 = r − a, f flipped by the carry-out
    let ghost d = gates2@;
    let ghost cb = *counter;
    proof {
        lemma_room_left(c1, cb, d, budget, 6 * n + 1);
    }
    let piece = capture_adder(n, a, b, c, f, counter);
    let ghost ca = *counter;
    append_recorded(&mut gates2, piece, Ghost(c1), Ghost(cb), Ghost(ca), Ghost(d));
    // f ← 0, carry ← 0, a restored
    let ghost d = gates2@;
    let ghost cb = *counter;
    proof {
        lemma_room_left(c1, cb, d, budget, lo + 2);
    }
    let mut piece: Vec<Gate> = Vec::new();
    emit(&mut piece, counter, Gate::Not { target: f });
    let ghost cm0 = *counter;
    proof {
        lemma_room_left(cb, cm0, seq![not_gate(f as int)], lo + 2, 1);
    }
    emit(&mut piece, counter, Gate::Not { target: c });
    let ghost cm = *counter;
    proof {
        lemma_gates_recorded_concat(cb, cm0, cm, seq![not_gate(f as int)], seq![not_gate(c as int)]);
        assert(seq![not_gate(f as int)] + seq![not_gate(c as int)] =~= seq![not_gate(f as int), not_gate(c as int)]);
        lemma_room_left(cb, cm, seq![not_gate(f as int), not_gate(c as int)], lo + 2, lo);
    }
    append_not_where_set(&mut piece, counter, ones, a, n);
    let ghost ca = *counter;
    proof {
        lemma_gates_recorded_concat(cb, cm, ca, seq![not_gate(f as int), not_gate(c as int)], not_where_set(ones as nat, a as int, n as int));
        assert(piece@ =~= seq![not_gate(f as int), not_gate(c as int)] + not_where_set(ones as nat, a as int, n as int));
    }
    append_recorded(&mut gates2, piece, Ghost(c1), Ghost(cb), Ghost(ca), Ghost(d));
    // b += a
    let ghost d = gates2@;
    let ghost cb = *counter;
    proof {
        lemma_room_left(c1, cb, d, budget, 6 * n);
    }
    let piece = CuccaroAdder::new(n).forward_gates(a, b, c, counter);
    let ghost ca = *counter;
    append_recorded(&mut gates2, piece, Ghost(c1), Ghost(cb), Ghost(ca), Ghost(d));
    proof {
        assert(gates2@ =~= flag_clear_gates(n as int, a as int, b as int, c as int, f as int));
    }
    gates.append(&mut gates2);
}

impl CuccaroAdder {
    pub fn new(n: usize) -> (r: Self)
        ensures
            r.n == n,
    {
        Self { n }
    }

    /// The adder's gate sequence: a MAJ sweep up the columns (carry routed
    /// through `a`), then a UMA sweep down that restores `a` and leaves the
    /// sum in `b`.  Every gate is recorded in the counter.
    pub fn forward_gates(
        &self,
        a_offset: usize,
        b_offset: usize,
        carry_offset: usize,
        counter: &mut ResourceCounter,
    ) -> (r: Vec<Gate>)
        requires
            a_offset + self.n <= usize::MAX,
            b_offset + self.n <= usize::MAX,
            gate_room(*old(counter), cuccaro_len(self.n as int)),
        ensures
            r@ == cuccaro_gates(self.n as int, a_offset as int, b_offset as int, carry_offset as int),
            r@.len() == cuccaro_len(self.n as int),
            gates_recorded(*old(counter), *final(counter), r@),
            qubits_unchanged(*old(counter), *final(counter)),
            computes_sum(r@, self.n as int, a_offset as int, b_offset as int, carry_offset as int),
    {
        proof {
            lemma_cuccaro_computes_sum(self.n as int, a_offset as int, b_offset as int, carry_offset as int);
        }
        let n = self.n;
        let ghost c0 = *counter;
        let ghost a = a_offset as int;
        let ghost b = b_offset as int;
        let ghost c = carry_offset as int;
        let mut gates: Vec<Gate> = Vec::new();
        emit_maj(&mut gates, counter, carry_offset, b_offset, a_offset);
        proof {
            assert(gates@ =~= maj(c, b, a));
        }
        let mut i: usize = 1;
        while i < n
            invariant
                1 <= i,
                i <= n || i == 1,
                n == self.n,
                a == a_offset as int,
                b == b_offset as int,
                c == carry_offset as int,
                a_offset + n <= usize::MAX,
                b_offset + n <= usize::MAX,
                gate_room(c0, cuccaro_len(n as int)),
                gates@ == maj(c, b, a) + maj_ladder(a, b, 1, i as int),
                gates_recorded(c0, *counter, gates@),
                qubits_unchanged(c0, *counter),
            decreases n - i,
        {
            proof {
                lemma_maj_ladder_len(a, b, 1, i as int);
                lemma_room_left(c0, *counter, gates@, cuccaro_len(n as int), 3);
            }
            let ghost c1 = *counter;
            let ghost g0 = gates@;
            emit_maj(&mut gates, counter, a_offset + i - 1, b_offset + i, a_offset + i);
            proof {
                lemma_gates_recorded_concat(
                    c0,
                    c1,
                    *counter,
                    g0,
                    maj((a_offset + i - 1) as int, (b_offset + i) as int, (a_offset + i) as int),
                );
                let step = maj(a + (i + 1) - 2, b + (i + 1) - 1, a + (i + 1) - 1);
                assert(maj_ladder(a, b, 1, i + 1) == maj_ladder(a, b, 1, i as int) + step);
                assert(step =~= maj((a_offset + i - 1) as int, (b_offset + i) as int, (a_offset + i) as int));
                assert(gates@ == g0 + step);
                assert(gates@ =~= maj(c, b, a) + maj_ladder(a, b, 1, i + 1));
            }
            i = i + 1;
        }
        let mut j: usize = n;
        proof {
            assert(maj_ladder(a, b, 1, n as int) == maj_ladder(a, b, 1, i as int));
            assert(gates@ =~= maj(c, b, a) + maj_ladder(a, b, 1, n as int) + uma_ladder(
                a,
                b,
                j as int,
                n as int,
            ));
        }
        while j > 1
            invariant
                j <= n,
                j >= 1 || n == 0,
                n == self.n,
                a == a_offset as int,
                b == b_offset as int,
                c == carry_offset as int,
                a_offset + n <= usize::MAX,
                b_offset + n <= usize::MAX,
                gate_room(c0, cuccaro_len(n as int)),
                gates@ == maj(c, b, a) + maj_ladder(a, b, 1, n as int) + uma_ladder(
                    a,
                    b,
                    j as int,
                    n as int,
                ),
                gates_recorded(c0, *counter, gates@),
                qubits_unchanged(c0, *counter),
            decreases j,
        {
            proof {
                lemma_maj_ladder_len(a, b, 1, n as int);
                lemma_uma_ladder_len(a, b, j as int, n as int);
                lemma_room_left(c0, *counter, gates@, cuccaro_len(n as int), 3);
            }
            j = j - 1;
            let ghost c1 = *counter;
            let ghost g0 = gates@;
            emit_uma(&mut gates, counter, a_offset + j - 1, b_offset + j, a_offset + j);
            proof {
                lemma_gates_recorded_concat(
                    c0,
                    c1,
                    *counter,
                    g0,
                    uma((a_offset + j - 1) as int, (b_offset + j) as int, (a_offset + j) as int),
                );
                assert(gates@ =~= maj(c, b, a) + maj_ladder(a, b, 1, n as int) + uma_ladder(
                    a,
                    b,
                    j as int,
                    n as int,
                ));
            }
        }
        proof {
            lemma_maj_ladder_len(a, b, 1, n as int);
            lemma_uma_ladder_len(a, b, j as int, n as int);
            lemma_room_left(c0, *counter, gates@, cuccaro_len(n as int), 3);
            assert(uma_ladder(a, b, j as int, n as int) == uma_ladder(a, b, 1, n as int));
        }
        let ghost c1 = *counter;
        let ghost g0 = gates@;
        emit_uma(&mut gates, counter, carry_offset, b_offset, a_offset);
        proof {
            lemma_gates_recorded_concat(c0, c1, *counter, g0, uma(c, b, a));
            lemma_cuccaro_len(n as int, a, b, c);
        }
        gates
    }

    /// The modular adder b ← (a + b) mod p for the Goldilocks prime
    /// (compare, correct, clear the flag): the steps of
    /// `modular_adder_gates`.  The n + 1 workspace qubits are allocated and
    /// released in the counter; every gate is recorded.
    #[verifier::rlimit(100)]
    #[verifier::spinoff_prover]
    pub fn modular_forward_gates(
        &self,
        a_offset: usize,
        b_offset: usize,
        carry_offset: usize,
        workspace_offset: usize,
        counter: &mut ResourceCounter,
    ) -> (r: Vec<Gate>)
        requires
            1 <= self.n <= 64,
            a_offset + self.n <= usize::MAX,
            b_offset + self.n <= usize::MAX,
            workspace_offset + self.n + 1 <= usize::MAX,
            gate_room(*old(counter), 36 * self.n + 10),
            ancilla_room(*old(counter), self.n + 1, self.n + 1),
        ensures
            r@ == modular_adder_gates(
                self.n as int,
                a_offset as int,
                b_offset as int,
                carry_offset as int,
                workspace_offset as int,
            ),
            gates_recorded(*old(counter), *final(counter), r@),
            ancilla_scope(*old(counter), *final(counter), self.n + 1, self.n + 1),
            self.n == 64 ==> computes_sum_mod_p(
                r@,
                a_offset as int,
                b_offset as int,
                carry_offset as int,
                workspace_offset as int,
            ),
    {
        let ghost c0 = *counter;
        let n = self.n;
        proof {
            lemma_modular_adder_computes(a_offset as int, b_offset as int, carry_offset as int, workspace_offset as int);
        }
        proof {
            lemma_mod_add_len(n as int, a_offset as int, b_offset as int, carry_offset as int, workspace_offset as int);
        }
        counter.allocate_ancilla(n + 1);
        let ghost c1 = *counter;
        let mut gates: Vec<Gate> = Vec::new();
        append_mod_add(&mut gates, counter, n, a_offset, b_offset, carry_offset, workspace_offset);
        let ghost c2 = *counter;
        counter.free_ancilla(n + 1);
        proof {
            assert(gates@ =~= modular_adder_gates(n as int, a_offset as int, b_offset as int, carry_offset as int, workspace_offset as int));
            lemma_gates_recorded_concat(c0, c1, c2, Seq::empty(), gates@);
            lemma_gates_recorded_concat(c0, c2, *counter, gates@, Seq::empty());
            assert(gates@ + Seq::<Gate>::empty() =~= gates@);
        }
        gates
    }
}

} // verus!