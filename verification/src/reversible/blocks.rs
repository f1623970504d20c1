//! Repeated gate patterns shared by the arithmetic circuits, each with the
//! exact gate sequence it emits.
use crate::reversible::adder::{cnot, not_gate, toffoli};
use crate::reversible::gates::{lemma_counts_total, Gate};
use crate::reversible::resource_counter::{
    emit, gate_room, gates_recorded, lemma_gates_recorded_concat, lemma_room_left,
    qubits_unchanged, ResourceCounter,
};
use vstd::prelude::*;

verus! {

/// The blocks f(lo), f(lo+1), …, f(hi−1) one after the other.
pub open spec fn concat_map<T>(f: spec_fn(int) -> Seq<T>, lo: int, hi: int) -> Seq<T>
    decreases hi - lo,
{
    if hi <= lo {
        Seq::empty()
    } else {
        concat_map(f, lo, hi - 1) + f(hi - 1)
    }
}

/// Every element of the concatenation is an element of one of its blocks:
/// a property of all block elements holds of all its elements.
pub proof fn lemma_concat_map_all<T>(f: spec_fn(int) -> Seq<T>, lo: int, hi: int, p: spec_fn(T) -> bool)
    requires
        forall|i: int, t: int| lo <= i < hi && 0 <= t < f(i).len() ==> #[trigger] p(f(i)[t]),
    ensures
        forall|k: int| 0 <= k < concat_map(f, lo, hi).len() ==> #[trigger] p(concat_map(f, lo, hi)[k]),
    decreases hi - lo,
{
    if hi > lo {
        lemma_concat_map_all(f, lo, hi - 1, p);
        let a = concat_map(f, lo, hi - 1);
        let b = f(hi - 1);
        assert(concat_map(f, lo, hi) == a + b);
        assert forall|k: int| 0 <= k < (a + b).len() implies #[trigger] p((a + b)[k]) by {
            if k < a.len() {
                assert((a + b)[k] == a[k]);
            } else {
                assert((a + b)[k] == b[k - a.len()]);
                assert(p(f(hi - 1)[k - a.len()]));
            }
        }
    }
}

/// Every element of every block occurs in the concatenation.
pub proof fn lemma_concat_map_has<T>(f: spec_fn(int) -> Seq<T>, lo: int, hi: int, i: int, t: int)
    requires
        lo <= i < hi,
        0 <= t < f(i).len(),
    ensures
        exists|k: int| 0 <= k < concat_map(f, lo, hi).len() && concat_map(f, lo, hi)[k] == f(i)[t],
    decreases hi - lo,
{
    let a = concat_map(f, lo, hi - 1);
    let b = f(hi - 1);
    assert(concat_map(f, lo, hi) == a + b);
    if i == hi - 1 {
        assert((a + b)[a.len() + t] == f(i)[t]);
    } else {
        lemma_concat_map_has(f, lo, hi - 1, i, t);
        let k = choose|k: int| 0 <= k < a.len() && a[k] == f(i)[t];
        assert((a + b)[k] == f(i)[t]);
    }
}

/// Blocks of one element each concatenate to the sequence of those
/// elements.
pub proof fn lemma_concat_map_singletons<T>(f: spec_fn(int) -> Seq<T>, lo: int, hi: int)
    requires
        lo <= hi,
        forall|i: int| lo <= i < hi ==> #[trigger] f(i).len() == 1,
    ensures
        concat_map(f, lo, hi).len() == hi - lo,
        forall|k: int| 0 <= k < hi - lo ==> #[trigger] concat_map(f, lo, hi)[k] == f(lo + k)[0],
    decreases hi - lo,
{
    if hi > lo {
        lemma_concat_map_singletons(f, lo, hi - 1);
        let a = concat_map(f, lo, hi - 1);
        assert(f(hi - 1).len() == 1);
        assert(concat_map(f, lo, hi) == a + f(hi - 1));
        assert forall|k: int| 0 <= k < hi - lo implies #[trigger] concat_map(f, lo, hi)[k] == f(lo + k)[0] by {
            if k < hi - 1 - lo {
                assert((a + f(hi - 1))[k] == a[k]);
            } else {
                assert((a + f(hi - 1))[k] == f(hi - 1)[0]);
            }
        }
    }
}

/// A concatenation splits at any point in between.
pub proof fn lemma_concat_map_split<T>(f: spec_fn(int) -> Seq<T>, lo: int, mid: int, hi: int)
    requires
        lo <= mid <= hi,
    ensures
        concat_map(f, lo, hi) == concat_map(f, lo, mid) + concat_map(f, mid, hi),
    decreases hi - mid,
{
    if hi == mid {
        assert(concat_map(f, lo, mid) + concat_map(f, mid, hi) =~= concat_map(f, lo, mid));
    } else {
        lemma_concat_map_split(f, lo, mid, hi - 1);
        assert(concat_map(f, lo, mid) + concat_map(f, mid, hi) =~= concat_map(f, lo, mid)
            + concat_map(f, mid, hi - 1) + f(hi - 1));
    }
}

/// A prefix of the blocks followed by the next block stays within the
/// whole concatenation.
pub proof fn lemma_concat_map_prefix<T>(f: spec_fn(int) -> Seq<T>, lo: int, i: int, hi: int)
    requires
        lo <= i < hi,
    ensures
        concat_map(f, lo, i + 1) == concat_map(f, lo, i) + f(i),
        concat_map(f, lo, i).len() + f(i).len() <= concat_map(f, lo, hi).len(),
{
    lemma_concat_map_split(f, lo, i + 1, hi);
}

/// Pointwise equal blocks, shifted by c, concatenate to the same sequence.
pub proof fn lemma_concat_map_shift<T>(f: spec_fn(int) -> Seq<T>, g: spec_fn(int) -> Seq<T>, lo: int, hi: int, c: int)
    requires
        forall|i: int| lo <= i < hi ==> #[trigger] g(i) == f(i + c),
    ensures
        concat_map(g, lo, hi) == concat_map(f, lo + c, hi + c),
    decreases hi - lo,
{
    if hi > lo {
        lemma_concat_map_shift(f, g, lo, hi - 1, c);
        assert(g(hi - 1) == f(hi - 1 + c));
    }
}

/// Reversal of a concatenation.
pub proof fn lemma_reverse_append<T>(a: Seq<T>, b: Seq<T>)
    ensures
        (a + b).reverse() == b.reverse() + a.reverse(),
{
    assert((a + b).reverse() =~= b.reverse() + a.reverse());
}

/// Reversing the blocks f(lo) … f(hi−1) gives the reversed blocks in the
/// opposite order.
pub proof fn lemma_concat_map_reverse<T>(f: spec_fn(int) -> Seq<T>, lo: int, hi: int)
    requires
        lo <= hi,
    ensures
        concat_map(f, lo, hi).reverse() == concat_map(|t: int| f(hi - 1 - t).reverse(), 0, hi - lo),
    decreases hi - lo,
{
    let g = |t: int| f(hi - 1 - t).reverse();
    if hi == lo {
        assert(concat_map(f, lo, hi).reverse() =~= Seq::<T>::empty());
    } else {
        let g1 = |t: int| f(hi - 2 - t).reverse();
        lemma_concat_map_reverse(f, lo, hi - 1);
        lemma_reverse_append(concat_map(f, lo, hi - 1), f(hi - 1));
        // concat_map(g, 0, K) = g(0) + concat_map(g, 1, K) and the tail is g1 shifted
        lemma_concat_map_split(g, 0, 1, hi - lo);
        assert(concat_map(g, 0, 0) =~= Seq::<T>::empty());
        assert(concat_map(g, 0, 1) =~= g(0));
        lemma_concat_map_shift(g, g1, 0, hi - lo - 1, 1);
    }
}

/// Mapping over concatenated blocks maps each block.
pub proof fn lemma_concat_map_map_values<T, U>(f: spec_fn(int) -> Seq<T>, h: spec_fn(T) -> U, lo: int, hi: int)
    ensures
        concat_map(f, lo, hi).map_values(h) == concat_map(|i: int| f(i).map_values(h), lo, hi),
    decreases hi - lo,
{
    if hi > lo {
        lemma_concat_map_map_values(f, h, lo, hi - 1);
        assert((concat_map(f, lo, hi - 1) + f(hi - 1)).map_values(h) =~= concat_map(f, lo, hi - 1).map_values(h)
            + f(hi - 1).map_values(h));
    } else {
        assert(concat_map(f, lo, hi).map_values(h) =~= Seq::<U>::empty());
    }
}

/// Concatenations of pointwise equal blocks are equal.
pub proof fn lemma_concat_map_ext<T>(f: spec_fn(int) -> Seq<T>, g: spec_fn(int) -> Seq<T>, lo: int, hi: int)
    requires
        forall|i: int| lo <= i < hi ==> #[trigger] f(i) == g(i),
    ensures
        concat_map(f, lo, hi) == concat_map(g, lo, hi),
{
    lemma_concat_map_shift(f, g, lo, hi, 0);
}

/// Blocks of a fixed length k give k gates per block.
pub proof fn lemma_concat_map_uniform_len<T>(f: spec_fn(int) -> Seq<T>, lo: int, hi: int, k: int)
    requires
        lo <= hi,
        forall|j: int| lo <= j < hi ==> #[trigger] f(j).len() == k,
    ensures
        concat_map(f, lo, hi).len() == k * (hi - lo),
    decreases hi - lo,
{
    if hi > lo {
        lemma_concat_map_uniform_len(f, lo, hi - 1, k);
        assert(f(hi - 1).len() == k);
        assert(concat_map(f, lo, hi) == concat_map(f, lo, hi - 1) + f(hi - 1));
        assert(k * (hi - lo) == k * (hi - 1 - lo) + k) by (nonlinear_arith);
    } else {
        assert(k * (hi - lo) == 0) by (nonlinear_arith)
            requires
                hi == lo,
        ;
    }
}

/// Blocks of length at most k give at most k gates per block.
pub proof fn lemma_concat_map_len_bound<T>(f: spec_fn(int) -> Seq<T>, lo: int, hi: int, k: int)
    requires
        lo <= hi,
        forall|j: int| lo <= j < hi ==> #[trigger] f(j).len() <= k,
    ensures
        concat_map(f, lo, hi).len() <= k * (hi - lo),
    decreases hi - lo,
{
    if hi > lo {
        lemma_concat_map_len_bound(f, lo, hi - 1, k);
        assert(f(hi - 1).len() <= k);
        assert(concat_map(f, lo, hi) == concat_map(f, lo, hi - 1) + f(hi - 1));
        assert(k * (hi - lo) == k * (hi - 1 - lo) + k) by (nonlinear_arith);
    } else {
        assert(k * (hi - lo) == 0) by (nonlinear_arith)
            requires
                hi == lo,
        ;
    }
}

/// Toffoli(x, b+j → t+j) for each j: the row of partial products x·b[j].
pub open spec fn toffoli_row(x: int, b: int, t: int) -> spec_fn(int) -> Seq<Gate> {
    |j: int| seq![toffoli(x, b + j, t + j)]
}

/// CNOT(src+i → dst+i) for each i: a register copy.
pub open spec fn copy_step(src: int, dst: int) -> spec_fn(int) -> Seq<Gate> {
    |i: int| seq![cnot(src + i, dst + i)]
}

/// Three CNOTs exchanging bit i of two registers.
pub open spec fn swap_step(x: int, y: int) -> spec_fn(int) -> Seq<Gate> {
    |i: int| seq![cnot(x + i, y + i), cnot(y + i, x + i), cnot(x + i, y + i)]
}

/// The register copy of n bits.
pub open spec fn copy_gates(src: int, dst: int, n: int) -> Seq<Gate> {
    concat_map(copy_step(src, dst), 0, n)
}

/// The register swap of n bits.
pub open spec fn swap_gates(x: int, y: int, n: int) -> Seq<Gate> {
    concat_map(swap_step(x, y), 0, n)
}

/// The partial-product row of n Toffolis.
pub open spec fn toffoli_row_gates(x: int, b: int, t: int, n: int) -> Seq<Gate> {
    concat_map(toffoli_row(x, b, t), 0, n)
}

pub proof fn lemma_block_lens(x: int, y: int, z: int, n: int)
    requires
        n >= 0,
    ensures
        copy_gates(x, y, n).len() == n,
        swap_gates(x, y, n).len() == 3 * n,
        toffoli_row_gates(x, y, z, n).len() == n,
{
    lemma_concat_map_uniform_len(copy_step(x, y), 0, n, 1);
    lemma_concat_map_uniform_len(swap_step(x, y), 0, n, 3);
    lemma_concat_map_uniform_len(toffoli_row(x, y, z), 0, n, 1);
}

/// Appends `sub` (already recorded from `c1` to `c2`) to `gates`.
pub fn append_recorded(
    gates: &mut Vec<Gate>,
    sub: Vec<Gate>,
    Ghost(c0): Ghost<ResourceCounter>,
    Ghost(c1): Ghost<ResourceCounter>,
    Ghost(c2): Ghost<ResourceCounter>,
    Ghost(done): Ghost<Seq<Gate>>,
)
    requires
        gates_recorded(c0, c1, done),
        gates_recorded(c1, c2, sub@),
    ensures
        final(gates)@ == old(gates)@ + sub@,
        gates_recorded(c0, c2, done + sub@),
{
    let ghost subv = sub@;
    let mut sub = sub;
    gates.append(&mut sub);
    proof {
        lemma_gates_recorded_concat(c0, c1, c2, done, subv);
    }
}

/// Appends the single-gate blocks f(0..n), where block j is `seq![g(j)]`.
pub fn append_copy(gates: &mut Vec<Gate>, counter: &mut ResourceCounter, src: usize, dst: usize, n: usize)
    requires
        src + n <= usize::MAX,
        dst + n <= usize::MAX,
        gate_room(*old(counter), n as int),
    ensures
        final(gates)@ == old(gates)@ + copy_gates(src as int, dst as int, n as int),
        gates_recorded(*old(counter), *final(counter), copy_gates(src as int, dst as int, n as int)),
        qubits_unchanged(*old(counter), *final(counter)),
{
    let ghost c0 = *counter;
    let ghost g0 = gates@;
    let ghost f = copy_step(src as int, dst as int);
    let mut i: usize = 0;
    while i < n
        invariant
            i <= n,
            src + n <= usize::MAX,
            dst + n <= usize::MAX,
            f == copy_step(src as int, dst as int),
            gate_room(c0, n as int),
            gates@ == g0 + concat_map(f, 0, i as int),
            gates_recorded(c0, *counter, concat_map(f, 0, i as int)),
            qubits_unchanged(c0, *counter),
        decreases n - i,
    {
        proof {
            lemma_concat_map_uniform_len(f, 0, i as int, 1);
            lemma_room_left(c0, *counter, concat_map(f, 0, i as int), n as int, 1);
        }
        let ghost c1 = *counter;
        emit(gates, counter, Gate::Cnot { control: src + i, target: dst + i });
        proof {
            assert(f(i as int) == seq![cnot(src + i, dst + i)]);
            lemma_gates_recorded_concat(c0, c1, *counter, concat_map(f, 0, i as int), f(i as int));
            assert(gates@ =~= g0 + concat_map(f, 0, i + 1));
        }
        i = i + 1;
    }
}

/// Appends the n-bit register swap (three CNOTs per bit).
pub fn append_swap(gates: &mut Vec<Gate>, counter: &mut ResourceCounter, x: usize, y: usize, n: usize)
    requires
        x + n <= usize::MAX,
        y + n <= usize::MAX,
        gate_room(*old(counter), 3 * n),
    ensures
        final(gates)@ == old(gates)@ + swap_gates(x as int, y as int, n as int),
        gates_recorded(*old(counter), *final(counter), swap_gates(x as int, y as int, n as int)),
        qubits_unchanged(*old(counter), *final(counter)),
{
    let ghost c0 = *counter;
    let ghost g0 = gates@;
    let ghost f = swap_step(x as int, y as int);
    let mut i: usize = 0;
    while i < n
        invariant
            i <= n,
            x + n <= usize::MAX,
            y + n <= usize::MAX,
            f == swap_step(x as int, y as int),
            gate_room(c0, 3 * n),
            gates@ == g0 + concat_map(f, 0, i as int),
            gates_recorded(c0, *counter, concat_map(f, 0, i as int)),
            qubits_unchanged(c0, *counter),
        decreases n - i,
    {
        proof {
            lemma_concat_map_uniform_len(f, 0, i as int, 3);
            lemma_room_left(c0, *counter, concat_map(f, 0, i as int), 3 * n, 3);
        }
        let g1 = Gate::Cnot { control: x + i, target: y + i };
        let g2 = Gate::Cnot { control: y + i, target: x + i };
        let ghost c1 = *counter;
        emit(gates, counter, g1);
        let ghost c2 = *counter;
        proof {
            lemma_gates_recorded_concat(c0, c1, c2, concat_map(f, 0, i as int), seq![g1]);
            lemma_room_left(c0, c2, concat_map(f, 0, i as int) + seq![g1], 3 * n, 2);
        }
        emit(gates, counter, g2);
        let ghost c3 = *counter;
        proof {
            lemma_gates_recorded_concat(c0, c2, c3, concat_map(f, 0, i as int) + seq![g1], seq![g2]);
            lemma_room_left(c0, c3, concat_map(f, 0, i as int) + seq![g1] + seq![g2], 3 * n, 1);
        }
        emit(gates, counter, g1);
        proof {
            lemma_gates_recorded_concat(
                c0,
                c3,
                *counter,
                concat_map(f, 0, i as int) + seq![g1] + seq![g2],
                seq![g1],
            );
            assert(f(i as int) =~= seq![g1] + seq![g2] + seq![g1]);
            assert(concat_map(f, 0, i as int) + seq![g1] + seq![g2] + seq![g1] =~= concat_map(
                f,
                0,
                i + 1,
            ));
            assert(gates@ =~= g0 + concat_map(f, 0, i + 1));
        }
        i = i + 1;
    }
}

/// Appends the row Toffoli(x, b+j → t+j) for j < n.
pub fn append_toffoli_row(
    gates: &mut Vec<Gate>,
    counter: &mut ResourceCounter,
    x: usize,
    b: usize,
    t: usize,
    n: usize,
)
    requires
        b + n <= usize::MAX,
        t + n <= usize::MAX,
        gate_room(*old(counter), n as int),
    ensures
        final(gates)@ == old(gates)@ + toffoli_row_gates(x as int, b as int, t as int, n as int),
        gates_recorded(
            *old(counter),
            *final(counter),
            toffoli_row_gates(x as int, b as int, t as int, n as int),
        ),
        qubits_unchanged(*old(counter), *final(counter)),
{
    let ghost c0 = *counter;
    let ghost g0 = gates@;
    let ghost f = toffoli_row(x as int, b as int, t as int);
    let mut j: usize = 0;
    while j < n
        invariant
            j <= n,
            b + n <= usize::MAX,
            t + n <= usize::MAX,
            f == toffoli_row(x as int, b as int, t as int),
            gate_room(c0, n as int),
            gates@ == g0 + concat_map(f, 0, j as int),
            gates_recorded(c0, *counter, concat_map(f, 0, j as int)),
            qubits_unchanged(c0, *counter),
        decreases n - j,
    {
        proof {
            lemma_concat_map_uniform_len(f, 0, j as int, 1);
            lemma_room_left(c0, *counter, concat_map(f, 0, j as int), n as int, 1);
        }
        let ghost c1 = *counter;
        emit(gates, counter, Gate::Toffoli { control1: x, control2: b + j, target: t + j });
        proof {
            assert(f(j as int) == seq![toffoli(x as int, b + j, t + j)]);
            lemma_gates_recorded_concat(c0, c1, *counter, concat_map(f, 0, j as int), f(j as int));
            assert(gates@ =~= g0 + concat_map(f, 0, j + 1));
        }
        j = j + 1;
    }
}

/// Appends `src` in reverse order (every gate is its own inverse), recording
/// each gate: the uncomputation half of a compute-copy-uncompute pattern.
pub fn append_reversed(gates: &mut Vec<Gate>, counter: &mut ResourceCounter, src: &Vec<Gate>)
    requires
        gate_room(*old(counter), src@.len() as int),
    ensures
        final(gates)@ == old(gates)@ + src@.reverse(),
        gates_recorded(*old(counter), *final(counter), src@.reverse()),
        qubits_unchanged(*old(counter), *final(counter)),
{
    let ghost c0 = *counter;
    let ghost g0 = gates@;
    let mut j: usize = src.len();
    while j > 0
        invariant
            j <= src@.len(),
            gate_room(c0, src@.len() as int),
            gates@ == g0 + src@.subrange(j as int, src@.len() as int).reverse(),
            gates_recorded(c0, *counter, src@.subrange(j as int, src@.len() as int).reverse()),
            qubits_unchanged(c0, *counter),
        decreases j,
    {
        let ghost done = src@.subrange(j as int, src@.len() as int).reverse();
        proof {
            lemma_room_left(c0, *counter, done, src@.len() as int, 1);
        }
        let g = src[j - 1];
        let ghost c1 = *counter;
        emit(gates, counter, g.inverse());
        proof {
            lemma_gates_recorded_concat(c0, c1, *counter, done, seq![g]);
            assert(src@.subrange(j - 1, src@.len() as int).reverse() =~= done + seq![g]);
            assert(gates@ =~= g0 + src@.subrange(j - 1, src@.len() as int).reverse());
        }
        j = j - 1;
    }
    proof {
        assert(src@.subrange(0, src@.len() as int) =~= src@);
    }
}

/// Appends a copy of `src` without recording (its gates were recorded when
/// they were produced).
pub fn append_copy_of(gates: &mut Vec<Gate>, src: &Vec<Gate>)
    ensures
        final(gates)@ == old(gates)@ + src@,
{
    let ghost g0 = gates@;
    let mut j: usize = 0;
    while j < src.len()
        invariant
            j <= src@.len(),
            gates@ == g0 + src@.take(j as int),
        decreases src@.len() - j,
    {
        gates.push(src[j]);
        proof {
            assert(src@.take(j + 1) =~= src@.take(j as int).push(src@[j as int]));
            assert(gates@ =~= g0 + src@.take(j + 1));
        }
        j = j + 1;
    }
    proof {
        assert(src@.take(src@.len() as int) =~= src@);
    }
}

/// Appends three gates, recording them.
pub fn emit3(gates: &mut Vec<Gate>, counter: &mut ResourceCounter, g1: Gate, g2: Gate, g3: Gate)
    requires
        gate_room(*old(counter), 3),
    ensures
        final(gates)@ == old(gates)@ + seq![g1, g2, g3],
        gates_recorded(*old(counter), *final(counter), seq![g1, g2, g3]),
        qubits_unchanged(*old(counter), *final(counter)),
{
    let ghost c0 = *counter;
    let ghost g0 = gates@;
    emit(gates, counter, g1);
    let ghost c1 = *counter;
    proof {
        lemma_room_left(c0, c1, seq![g1], 3, 2);
    }
    emit(gates, counter, g2);
    let ghost c2 = *counter;
    proof {
        lemma_gates_recorded_concat(c0, c1, c2, seq![g1], seq![g2]);
        lemma_room_left(c0, c2, seq![g1] + seq![g2], 3, 1);
    }
    emit(gates, counter, g3);
    proof {
        lemma_gates_recorded_concat(c0, c2, *counter, seq![g1] + seq![g2], seq![g3]);
        assert(seq![g1] + seq![g2] + seq![g3] =~= seq![g1, g2, g3]);
        assert(gates@ =~= g0 + seq![g1, g2, g3]);
    }
}

/// NOT(base+i).
pub open spec fn not_step(base: int) -> spec_fn(int) -> Seq<Gate> {
    |i: int| seq![not_gate(base + i)]
}

/// CNOT(ctrl → base+i).
pub open spec fn fan_step(ctrl: int, base: int) -> spec_fn(int) -> Seq<Gate> {
    |i: int| seq![cnot(ctrl, base + i)]
}

/// Controlled swap of bit i of x and y under c (three Toffolis).
pub open spec fn cswap_step(c: int, x: int, y: int) -> spec_fn(int) -> Seq<Gate> {
    |i: int| seq![toffoli(c, y + i, x + i), toffoli(c, x + i, y + i), toffoli(c, y + i, x + i)]
}

/// Swap of bits i and i+1 (three CNOTs), used for a right shift.
pub open spec fn rshift_step(base: int) -> spec_fn(int) -> Seq<Gate> {
    |i: int| seq![cnot(base + i + 1, base + i), cnot(base + i, base + i + 1), cnot(base + i + 1, base + i)]
}

/// The j-th block of a left shift of n bits: swap bits i−1 and i for
/// i = n−1−j.
pub open spec fn lshift_step(base: int, n: int) -> spec_fn(int) -> Seq<Gate> {
    |j: int|
        seq![
            cnot(base + (n - 1 - j) - 1, base + (n - 1 - j)),
            cnot(base + (n - 1 - j), base + (n - 1 - j) - 1),
            cnot(base + (n - 1 - j) - 1, base + (n - 1 - j)),
        ]
}

/// Appends one single-gate block per index in lo..hi, block i being
/// `seq![g(i)]` for g given by `kind`: 0 = NOT(base+i), 1 = CNOT(ctrl →
/// base+i).
pub fn append_fan(
    gates: &mut Vec<Gate>,
    counter: &mut ResourceCounter,
    kind: u8,
    ctrl: usize,
    base: usize,
    lo: usize,
    hi: usize,
)
    requires
        lo <= hi,
        base + hi <= usize::MAX,
        kind <= 1,
        gate_room(*old(counter), hi - lo),
    ensures
        final(gates)@ == old(gates)@ + concat_map(
            if kind == 0 {
                not_step(base as int)
            } else {
                fan_step(ctrl as int, base as int)
            },
            lo as int,
            hi as int,
        ),
        gates_recorded(
            *old(counter),
            *final(counter),
            concat_map(
                if kind == 0 {
                    not_step(base as int)
                } else {
                    fan_step(ctrl as int, base as int)
                },
                lo as int,
                hi as int,
            ),
        ),
        qubits_unchanged(*old(counter), *final(counter)),
{
    let ghost c0 = *counter;
    let ghost g0 = gates@;
    let ghost f = if kind == 0 {
        not_step(base as int)
    } else {
        fan_step(ctrl as int, base as int)
    };
    let mut i: usize = lo;
    while i < hi
        invariant
            lo <= i <= hi,
            base + hi <= usize::MAX,
            kind <= 1,
            f == (if kind == 0 {
                not_step(base as int)
            } else {
                fan_step(ctrl as int, base as int)
            }),
            gate_room(c0, hi - lo),
            gates@ == g0 + concat_map(f, lo as int, i as int),
            gates_recorded(c0, *counter, concat_map(f, lo as int, i as int)),
            qubits_unchanged(c0, *counter),
        decreases hi - i,
    {
        proof {
            lemma_concat_map_uniform_len(f, lo as int, i as int, 1);
            lemma_room_left(c0, *counter, concat_map(f, lo as int, i as int), hi - lo, 1);
        }
        let g = if kind == 0 {
            Gate::Not { target: base + i }
        } else {
            Gate::Cnot { control: ctrl, target: base + i }
        };
        let ghost c1 = *counter;
        emit(gates, counter, g);
        proof {
            assert(f(i as int) == seq![g]);
            lemma_gates_recorded_concat(c0, c1, *counter, concat_map(f, lo as int, i as int), f(i as int));
            assert(gates@ =~= g0 + concat_map(f, lo as int, i + 1));
        }
        i = i + 1;
    }
}

/// Appends three-gate blocks for indices 0..m: `kind` 0 = controlled swap
/// of x and y under c, 1 = right-shift swaps at x, 2 = left-shift swaps at x
/// for a register of m + 1 bits.
pub fn append_triples(
    gates: &mut Vec<Gate>,
    counter: &mut ResourceCounter,
    kind: u8,
    c: usize,
    x: usize,
    y: usize,
    m: usize,
)
    requires
        kind <= 2,
        x + m + 1 <= usize::MAX,
        y + m <= usize::MAX,
        gate_room(*old(counter), 3 * m),
    ensures
        final(gates)@ == old(gates)@ + concat_map(
            if kind == 0 {
                cswap_step(c as int, x as int, y as int)
            } else if kind == 1 {
                rshift_step(x as int)
            } else {
                lshift_step(x as int, m + 1)
            },
            0,
            m as int,
        ),
        gates_recorded(
            *old(counter),
            *final(counter),
            concat_map(
                if kind == 0 {
                    cswap_step(c as int, x as int, y as int)
                } else if kind == 1 {
                    rshift_step(x as int)
                } else {
                    lshift_step(x as int, m + 1)
                },
                0,
                m as int,
            ),
        ),
        qubits_unchanged(*old(counter), *final(counter)),
{
    let ghost c0 = *counter;
    let ghost g0 = gates@;
    let ghost f = if kind == 0 {
        cswap_step(c as int, x as int, y as int)
    } else if kind == 1 {
        rshift_step(x as int)
    } else {
        lshift_step(x as int, m + 1)
    };
    let mut i: usize = 0;
    while i < m
        invariant
            i <= m,
            kind <= 2,
            x + m + 1 <= usize::MAX,
            y + m <= usize::MAX,
            f == (if kind == 0 {
                cswap_step(c as int, x as int, y as int)
            } else if kind == 1 {
                rshift_step(x as int)
            } else {
                lshift_step(x as int, m + 1)
            }),
            gate_room(c0, 3 * m),
            gates@ == g0 + concat_map(f, 0, i as int),
            gates_recorded(c0, *counter, concat_map(f, 0, i as int)),
            qubits_unchanged(c0, *counter),
        decreases m - i,
    {
        proof {
            lemma_concat_map_uniform_len(f, 0, i as int, 3);
            lemma_room_left(c0, *counter, concat_map(f, 0, i as int), 3 * m, 3);
        }
        let ghost c1 = *counter;
        if kind == 0 {
            emit3(
                gates,
                counter,
                Gate::Toffoli { control1: c, control2: y + i, target: x + i },
                Gate::Toffoli { control1: c, control2: x + i, target: y + i },
                Gate::Toffoli { control1: c, control2: y + i, target: x + i },
            );
        } else if kind == 1 {
            emit3(
                gates,
                counter,
                Gate::Cnot { control: x + i + 1, target: x + i },
                Gate::Cnot { control: x + i, target: x + i + 1 },
                Gate::Cnot { control: x + i + 1, target: x + i },
            );
        } else {
            let k = m - i;
            emit3(
                gates,
                counter,
                Gate::Cnot { control: x + k - 1, target: x + k },
                Gate::Cnot { control: x + k, target: x + k - 1 },
                Gate::Cnot { control: x + k - 1, target: x + k },
            );
        }
        proof {
            assert(gates@ =~= g0 + concat_map(f, 0, i as int) + f(i as int));
            lemma_gates_recorded_concat(c0, c1, *counter, concat_map(f, 0, i as int), f(i as int));
            assert(gates@ =~= g0 + concat_map(f, 0, i + 1));
        }
        i = i + 1;
    }
}

/// Appends `src` unchanged, recording each gate.
pub fn append_with_record(gates: &mut Vec<Gate>, counter: &mut ResourceCounter, src: &Vec<Gate>)
    requires
        gate_room(*old(counter), src@.len() as int),
    ensures
        final(gates)@ == old(gates)@ + src@,
        gates_recorded(*old(counter), *final(counter), src@),
        qubits_unchanged(*old(counter), *final(counter)),
{
    let ghost c0 = *counter;
    let ghost g0 = gates@;
    let mut j: usize = 0;
    while j < src.len()
        invariant
            j <= src@.len(),
            gate_room(c0, src@.len() as int),
            gates@ == g0 + src@.take(j as int),
            gates_recorded(c0, *counter, src@.take(j as int)),
            qubits_unchanged(c0, *counter),
        decreases src@.len() - j,
    {
        proof {
            lemma_room_left(c0, *counter, src@.take(j as int), src@.len() as int, 1);
        }
        let g = src[j];
        let ghost c1 = *counter;
        emit(gates, counter, g);
        proof {
            lemma_gates_recorded_concat(c0, c1, *counter, src@.take(j as int), seq![g]);
            assert(src@.take(j + 1) =~= src@.take(j as int) + seq![g]);
            assert(gates@ =~= g0 + src@.take(j + 1));
        }
        j = j + 1;
    }
    proof {
        assert(src@.take(src@.len() as int) =~= src@);
    }
}

} // verus!
