//! Quantum Fourier transform circuits: forward, inverse, and measurement.
use crate::group_action::qft_stub::{qft_single_total, QftResourceEstimate};
use crate::group_action::quantum_gate::QuantumGate;
use crate::reversible::blocks::{
    concat_map, lemma_concat_map_all, lemma_concat_map_has, lemma_concat_map_singletons, lemma_concat_map_ext, lemma_concat_map_map_values, lemma_concat_map_reverse, lemma_concat_map_shift,
    lemma_concat_map_split, lemma_concat_map_uniform_len, lemma_reverse_append,
};
use vstd::prelude::*;

verus! {

/// Quantum Fourier transform circuit generator (textbook decomposition):
/// for each qubit j a Hadamard followed by controlled rotations CR_m from
/// qubit j+m−1 (m = 2 … n−j), then ⌊n/2⌋ swaps for the bit reversal.
pub struct Qft;

/// A controlled phase rotation.
pub open spec fn cp(control: int, target: int, k: int, sign: i8) -> QuantumGate {
    QuantumGate::ControlledPhase { control: control as usize, target: target as usize, k: k as usize, sign }
}

/// The rotation CR_m of row j of the forward transform.
pub open spec fn qft_cp_step(off: int, j: int) -> spec_fn(int) -> Seq<QuantumGate> {
    |m: int| seq![cp(off + j + m - 1, off + j, m, 1i8)]
}

/// The rotation CR_(i+1) of row j: `qft_cp_step` shifted by one.
pub open spec fn shifted_cp_step(off: int, j: int) -> spec_fn(int) -> Seq<QuantumGate> {
    |i: int| qft_cp_step(off, j)(i + 1)
}

/// Row j of the forward transform: H(j), then CR_m for m = 2 … n−j.
pub open spec fn qft_row(off: int, n: int) -> spec_fn(int) -> Seq<QuantumGate> {
    |j: int| seq![QuantumGate::Hadamard { target: (off + j) as usize }] + concat_map(qft_cp_step(off, j), 2, n - j + 1)
}

/// Swap j of the bit reversal: qubits j and n−1−j.
pub open spec fn qft_swap_step(off: int, n: int) -> spec_fn(int) -> Seq<QuantumGate> {
    |j: int| seq![QuantumGate::Swap { qubit_a: (off + j) as usize, qubit_b: (off + n - 1 - j) as usize }]
}

/// The forward transform on qubits off .. off+n.
pub open spec fn qft_forward(off: int, n: int) -> Seq<QuantumGate> {
    concat_map(qft_row(off, n), 0, n) + concat_map(qft_swap_step(off, n), 0, n / 2)
}

/// The t-th swap of the inverse's bit reversal: swap j = ⌊n/2⌋ − 1 − t.
pub open spec fn qft_inv_swap_step(off: int, n: int) -> spec_fn(int) -> Seq<QuantumGate> {
    |t: int| seq![
        QuantumGate::Swap {
            qubit_a: (off + (n / 2 - 1 - t)) as usize,
            qubit_b: (off + n - 1 - (n / 2 - 1 - t)) as usize,
        },
    ]
}

/// The t-th rotation of inverse row j: CR_m with m = n − j − t and the
/// phase negated.
pub open spec fn qft_inv_cp_step(off: int, n: int, j: int) -> spec_fn(int) -> Seq<QuantumGate> {
    |t: int| seq![cp(off + j + (n - j - t) - 1, off + j, n - j - t, -1i8)]
}

/// The t-th row of the inverse: row j = n − 1 − t, rotations in reverse
/// order with negated phases, then H(j).
pub open spec fn qft_inv_row(off: int, n: int) -> spec_fn(int) -> Seq<QuantumGate> {
    |t: int|
        concat_map(qft_inv_cp_step(off, n, n - 1 - t), 0, n - (n - 1 - t) - 1) + seq![
            QuantumGate::Hadamard { target: (off + (n - 1 - t)) as usize },
        ]
}

/// The inverse transform: swaps in reverse order, then the rows in reverse
/// order with conjugated phases.
pub open spec fn qft_inverse(off: int, n: int) -> Seq<QuantumGate> {
    concat_map(qft_inv_swap_step(off, n), 0, n / 2) + concat_map(qft_inv_row(off, n), 0, n)
}

/// Measure qubit q+i into classical bit c+i.
pub open spec fn measure_step(q: int, c: int) -> spec_fn(int) -> Seq<QuantumGate> {
    |i: int| seq![QuantumGate::Measure { qubit: (q + i) as usize, classical_bit: (c + i) as usize }]
}

/// Measurement of n qubits.
pub open spec fn measurement(q: int, c: int, n: int) -> Seq<QuantumGate> {
    concat_map(measure_step(q, c), 0, n)
}

/// Inverse transforms on both exponent registers, then measurement of both.
pub open spec fn shor_qft_measure(n: int) -> Seq<QuantumGate> {
    qft_inverse(0, n) + qft_inverse(n, n) + measurement(0, 0, n) + measurement(n, n, n)
}

/// 0 reversible, 1 Hadamard, 2 controlled phase, 3 swap, 4 measurement.
pub open spec fn kind_of(g: QuantumGate) -> int {
    match g {
        QuantumGate::Reversible(_) => 0,
        QuantumGate::Hadamard { .. } => 1,
        QuantumGate::ControlledPhase { .. } => 2,
        QuantumGate::Swap { .. } => 3,
        QuantumGate::Measure { .. } => 4,
    }
}

/// Number of gates of a kind.
pub open spec fn count_kind(s: Seq<QuantumGate>, k: int) -> nat
    decreases s.len(),
{
    if s.len() == 0 {
        0
    } else {
        count_kind(s.drop_last(), k) + if kind_of(s.last()) == k {
            1nat
        } else {
            0nat
        }
    }
}

pub proof fn lemma_count_kind_concat(a: Seq<QuantumGate>, b: Seq<QuantumGate>, k: int)
    ensures
        count_kind(a + b, k) == count_kind(a, k) + count_kind(b, k),
    decreases b.len(),
{
    if b.len() == 0 {
        assert(a + b =~= a);
    } else {
        assert((a + b).drop_last() =~= a + b.drop_last());
        lemma_count_kind_concat(a, b.drop_last(), k);
    }
}

/// Blocks of one gate of kind `kind` each: hi − lo gates of that kind and
/// none of any other.
pub proof fn lemma_count_single_kind(f: spec_fn(int) -> Seq<QuantumGate>, lo: int, hi: int, kind: int, k: int)
    requires
        lo <= hi,
        forall|i: int| lo <= i < hi ==> (#[trigger] f(i)).len() == 1 && kind_of(f(i)[0]) == kind,
    ensures
        count_kind(concat_map(f, lo, hi), k) == if k == kind {
            hi - lo
        } else {
            0
        },
    decreases hi - lo,
{
    if hi > lo {
        lemma_count_single_kind(f, lo, hi - 1, kind, k);
        lemma_count_kind_concat(concat_map(f, lo, hi - 1), f(hi - 1), k);
        let s = f(hi - 1);
        assert(s.len() == 1);
        assert(s.drop_last() =~= Seq::<QuantumGate>::empty());
        assert(s.last() == s[0]);
        assert(count_kind(s.drop_last(), k) == 0);
    }
}

/// Row j of the forward transform has one Hadamard and n−j−1 rotations.
pub proof fn lemma_qft_row_counts(off: int, n: int, j: int)
    requires
        0 <= j < n,
    ensures
        count_kind(qft_row(off, n)(j), 1) == 1,
        count_kind(qft_row(off, n)(j), 2) == n - j - 1,
        count_kind(qft_row(off, n)(j), 3) == 0,
        count_kind(qft_row(off, n)(j), 0) == 0,
        count_kind(qft_row(off, n)(j), 4) == 0,
{
    let h = seq![QuantumGate::Hadamard { target: (off + j) as usize }];
    let f = qft_cp_step(off, j);
    assert(qft_row(off, n)(j) == h + concat_map(f, 2, n - j + 1));
    assert forall|i: int| 2 <= i < n - j + 1 implies (#[trigger] f(i)).len() == 1 && kind_of(f(i)[0]) == 2 by {}
    assert(h.drop_last() =~= Seq::<QuantumGate>::empty());
    assert(h.last() == QuantumGate::Hadamard { target: (off + j) as usize });
    assert(count_kind(h.drop_last(), 1) == 0);
    assert(count_kind(h.drop_last(), 2) == 0);
    assert(count_kind(h.drop_last(), 3) == 0);
    assert(count_kind(h.drop_last(), 0) == 0);
    assert(count_kind(h.drop_last(), 4) == 0);
    lemma_count_single_kind(f, 2, n - j + 1, 2, 0);
    lemma_count_single_kind(f, 2, n - j + 1, 2, 4);
    lemma_count_kind_concat(h, concat_map(f, 2, n - j + 1), 0);
    lemma_count_kind_concat(h, concat_map(f, 2, n - j + 1), 4);
    lemma_count_single_kind(f, 2, n - j + 1, 2, 1);
    lemma_count_single_kind(f, 2, n - j + 1, 2, 2);
    lemma_count_single_kind(f, 2, n - j + 1, 2, 3);
    lemma_count_kind_concat(h, concat_map(f, 2, n - j + 1), 1);
    lemma_count_kind_concat(h, concat_map(f, 2, n - j + 1), 2);
    lemma_count_kind_concat(h, concat_map(f, 2, n - j + 1), 3);
}

/// The first i rows: i Hadamards and Σ_{j<i} (n−j−1) rotations, twice which
/// is i·(2n − i − 1).
pub proof fn lemma_qft_rows_counts(off: int, n: int, i: int)
    requires
        0 <= i <= n,
    ensures
        count_kind(concat_map(qft_row(off, n), 0, i), 1) == i,
        2 * count_kind(concat_map(qft_row(off, n), 0, i), 2) == i * (2 * n - i - 1),
        count_kind(concat_map(qft_row(off, n), 0, i), 3) == 0,
        count_kind(concat_map(qft_row(off, n), 0, i), 0) == 0,
        count_kind(concat_map(qft_row(off, n), 0, i), 4) == 0,
    decreases i,
{
    if i > 0 {
        lemma_qft_rows_counts(off, n, i - 1);
        lemma_qft_row_counts(off, n, i - 1);
        let f = qft_row(off, n);
        lemma_count_kind_concat(concat_map(f, 0, i - 1), f(i - 1), 1);
        lemma_count_kind_concat(concat_map(f, 0, i - 1), f(i - 1), 2);
        lemma_count_kind_concat(concat_map(f, 0, i - 1), f(i - 1), 3);
        lemma_count_kind_concat(concat_map(f, 0, i - 1), f(i - 1), 0);
        lemma_count_kind_concat(concat_map(f, 0, i - 1), f(i - 1), 4);
        assert(i * (2 * n - i - 1) == (i - 1) * (2 * n - (i - 1) - 1) + 2 * (n - (i - 1) - 1)) by (nonlinear_arith);
    }
}

/// The adjoint of a gate: controlled rotations have their phase negated;
/// Hadamard, swap and the reversible gates are their own adjoints.
pub open spec fn gate_adjoint(g: QuantumGate) -> QuantumGate {
    match g {
        QuantumGate::ControlledPhase { control, target, k, sign } => QuantumGate::ControlledPhase {
            control,
            target,
            k,
            sign: (-sign) as i8,
        },
        _ => g,
    }
}

/// The adjoint of a circuit: its gates in reverse order, each replaced by
/// its adjoint.
pub open spec fn circuit_adjoint(s: Seq<QuantumGate>) -> Seq<QuantumGate> {
    s.reverse().map_values(|g: QuantumGate| gate_adjoint(g))
}

/// Reversed and conjugated, row j of the forward transform is row
/// n − 1 − j' of the inverse, with j = n − 1 − t.
proof fn lemma_row_adjoint(off: int, n: int, t: int)
    requires
        0 <= t < n,
    ensures
        circuit_adjoint(qft_row(off, n)(n - 1 - t)) == qft_inv_row(off, n)(t),
{
    let j = n - 1 - t;
    let adj = |g: QuantumGate| gate_adjoint(g);
    let h = seq![QuantumGate::Hadamard { target: (off + j) as usize }];
    let cps = concat_map(qft_cp_step(off, j), 2, n - j + 1);
    assert(qft_row(off, n)(j) == h + cps);
    lemma_reverse_append(h, cps);
    assert(h.reverse() =~= h);
    lemma_concat_map_reverse(qft_cp_step(off, j), 2, n - j + 1);
    let rev = |u: int| qft_cp_step(off, j)(n - j + 1 - 1 - u).reverse();
    lemma_concat_map_map_values(rev, adj, 0, n - j - 1);
    let mapped = |u: int| rev(u).map_values(adj);
    assert forall|u: int| 0 <= u < n - j - 1 implies #[trigger] mapped(u) == qft_inv_cp_step(off, n, j)(u) by {
        assert(rev(u) =~= qft_cp_step(off, j)(n - j - u));
        assert(mapped(u) =~= qft_inv_cp_step(off, n, j)(u));
    }
    lemma_concat_map_ext(mapped, qft_inv_cp_step(off, n, j), 0, n - j - 1);
    assert((cps.reverse() + h).map_values(adj) =~= cps.reverse().map_values(adj) + h.map_values(adj));
    assert(h.map_values(adj) =~= h);
    assert(n - (n - 1 - t) - 1 == n - j - 1);
}

/// The inverse transform is the adjoint of the forward transform: the
/// forward gates in reverse order with every rotation phase negated.
pub proof fn lemma_qft_inverse_is_adjoint(off: int, n: int)
    requires
        n >= 0,
    ensures
        qft_inverse(off, n) == circuit_adjoint(qft_forward(off, n)),
{
    let adj = |g: QuantumGate| gate_adjoint(g);
    let rows = concat_map(qft_row(off, n), 0, n);
    let swaps = concat_map(qft_swap_step(off, n), 0, n / 2);
    lemma_reverse_append(rows, swaps);
    assert((swaps.reverse() + rows.reverse()).map_values(adj) =~= swaps.reverse().map_values(adj)
        + rows.reverse().map_values(adj));
    // the swaps
    lemma_concat_map_reverse(qft_swap_step(off, n), 0, n / 2);
    let srev = |t: int| qft_swap_step(off, n)(n / 2 - 1 - t).reverse();
    lemma_concat_map_map_values(srev, adj, 0, n / 2);
    let smapped = |t: int| srev(t).map_values(adj);
    assert forall|t: int| 0 <= t < n / 2 implies #[trigger] smapped(t) == qft_inv_swap_step(off, n)(t) by {
        assert(smapped(t) =~= qft_inv_swap_step(off, n)(t));
    }
    lemma_concat_map_ext(smapped, qft_inv_swap_step(off, n), 0, n / 2);
    // the rows
    lemma_concat_map_reverse(qft_row(off, n), 0, n);
    let rrev = |t: int| qft_row(off, n)(n - 1 - t).reverse();
    lemma_concat_map_map_values(rrev, adj, 0, n);
    let rmapped = |t: int| rrev(t).map_values(adj);
    assert forall|t: int| 0 <= t < n implies #[trigger] rmapped(t) == qft_inv_row(off, n)(t) by {
        lemma_row_adjoint(off, n, t);
    }
    lemma_concat_map_ext(rmapped, qft_inv_row(off, n), 0, n);
}

/// The forward transform on n qubits has n Hadamards, n(n−1)/2 controlled
/// rotations and ⌊n/2⌋ swaps: exactly the resource model's counts.
pub proof fn lemma_qft_forward_counts(off: int, n: int)
    requires
        n >= 0,
    ensures
        count_kind(qft_forward(off, n), 1) == n,
        count_kind(qft_forward(off, n), 2) == n * (n - 1) / 2,
        count_kind(qft_forward(off, n), 3) == n / 2,
        count_kind(qft_forward(off, n), 0) == 0,
        count_kind(qft_forward(off, n), 4) == 0,
{
    lemma_qft_rows_counts(off, n, n);
    let sw = qft_swap_step(off, n);
    assert forall|i: int| 0 <= i < n / 2 implies (#[trigger] sw(i)).len() == 1 && kind_of(sw(i)[0]) == 3 by {}
    lemma_count_single_kind(sw, 0, n / 2, 3, 1);
    lemma_count_single_kind(sw, 0, n / 2, 3, 2);
    lemma_count_single_kind(sw, 0, n / 2, 3, 3);
    let rows = concat_map(qft_row(off, n), 0, n);
    let swaps = concat_map(sw, 0, n / 2);
    lemma_count_kind_concat(rows, swaps, 1);
    lemma_count_kind_concat(rows, swaps, 2);
    lemma_count_kind_concat(rows, swaps, 3);
    lemma_count_single_kind(sw, 0, n / 2, 3, 0);
    lemma_count_single_kind(sw, 0, n / 2, 3, 4);
    lemma_count_kind_concat(rows, swaps, 0);
    lemma_count_kind_concat(rows, swaps, 4);
    assert(n * (2 * n - n - 1) == n * (n - 1)) by (nonlinear_arith);
}

/// Appends the single-gate blocks f(lo..hi) where block i is `seq![g(i)]`,
/// for gate families of this module: `fam` 0 = forward rotation of row
/// j (index i stands for CR_(i+1)), 1 = inverse rotation of row j, 2 = forward swap, 3 = inverse swap,
/// 4 = measurement.
fn push_family(gates: &mut Vec<QuantumGate>, fam: u8, off: usize, n: usize, j: usize, c: usize, lo: usize, hi: usize)
    requires
        fam <= 4,
        lo <= hi,
        off + n <= usize::MAX,
        fam == 4 ==> off + hi <= usize::MAX,
        c + hi <= usize::MAX,
        fam == 0 ==> j < n && hi <= n - j,
        fam == 1 ==> j < n && hi <= n - j,
        fam == 2 || fam == 3 ==> hi <= n / 2,
    ensures
        final(gates)@ == old(gates)@ + concat_map(
            if fam == 0 {
                shifted_cp_step(off as int, j as int)
            } else if fam == 1 {
                qft_inv_cp_step(off as int, n as int, j as int)
            } else if fam == 2 {
                qft_swap_step(off as int, n as int)
            } else if fam == 3 {
                qft_inv_swap_step(off as int, n as int)
            } else {
                measure_step(off as int, c as int)
            },
            lo as int,
            hi as int,
        ),
{
    let ghost g0 = gates@;
    let ghost f = if fam == 0 {
        shifted_cp_step(off as int, j as int)
    } else if fam == 1 {
        qft_inv_cp_step(off as int, n as int, j as int)
    } else if fam == 2 {
        qft_swap_step(off as int, n as int)
    } else if fam == 3 {
        qft_inv_swap_step(off as int, n as int)
    } else {
        measure_step(off as int, c as int)
    };
    let mut i: usize = lo;
    while i < hi
        invariant
            lo <= i <= hi,
            fam <= 4,
            off + n <= usize::MAX,
            fam == 4 ==> off + hi <= usize::MAX,
            c + hi <= usize::MAX,
            fam == 0 ==> j < n && hi <= n - j,
            fam == 1 ==> j < n && hi <= n - j,
            fam == 2 || fam == 3 ==> hi <= n / 2,
            f == (if fam == 0 {
                shifted_cp_step(off as int, j as int)
            } else if fam == 1 {
                qft_inv_cp_step(off as int, n as int, j as int)
            } else if fam == 2 {
                qft_swap_step(off as int, n as int)
            } else if fam == 3 {
                qft_inv_swap_step(off as int, n as int)
            } else {
                measure_step(off as int, c as int)
            }),
            gates@ == g0 + concat_map(f, lo as int, i as int),
        decreases hi - i,
    {
        let g = if fam == 0 {
            QuantumGate::ControlledPhase { control: off + j + i, target: off + j, k: i + 1, sign: 1 }
        } else if fam == 1 {
            let m = n - j - i;
            QuantumGate::ControlledPhase { control: off + j + m - 1, target: off + j, k: m, sign: -1 }
        } else if fam == 2 {
            QuantumGate::Swap { qubit_a: off + i, qubit_b: off + n - 1 - i }
        } else if fam == 3 {
            let jj = n / 2 - 1 - i;
            QuantumGate::Swap { qubit_a: off + jj, qubit_b: off + n - 1 - jj }
        } else {
            QuantumGate::Measure { qubit: off + i, classical_bit: c + i }
        };
        gates.push(g);
        proof {
            assert(f(i as int) == seq![g]);
            assert(gates@ =~= g0 + concat_map(f, lo as int, i + 1));
        }
        i = i + 1;
    }
}

impl Qft {
    /// The forward QFT on qubits offset .. offset+n.
    pub fn forward_gates(offset: usize, n: usize) -> (r: Vec<QuantumGate>)
        requires
            offset + n <= usize::MAX,
        ensures
            r@ == qft_forward(offset as int, n as int),
    {
        let mut gates: Vec<QuantumGate> = Vec::new();
        let ghost f = qft_row(offset as int, n as int);
        let mut j: usize = 0;
        while j < n
            invariant
                j <= n,
                offset + n <= usize::MAX,
                f == qft_row(offset as int, n as int),
                gates@ == concat_map(f, 0, j as int),
            decreases n - j,
        {
            let ghost g0 = gates@;
            gates.push(QuantumGate::Hadamard { target: offset + j });
            push_family(&mut gates, 0, offset, n, j, 0, 1, n - j);
            proof {
                lemma_concat_map_shift(qft_cp_step(offset as int, j as int), shifted_cp_step(offset as int, j as int), 1, n - j, 1);
                assert(f(j as int) =~= seq![QuantumGate::Hadamard { target: (offset + j) as usize }] + concat_map(
                    qft_cp_step(offset as int, j as int),
                    2,
                    n - j + 1,
                ));
                assert(gates@ =~= concat_map(f, 0, j + 1));
            }
            j = j + 1;
        }
        push_family(&mut gates, 2, offset, n, 0, 0, 0, n / 2);
        gates
    }

    /// The inverse QFT (QFT†): the forward gates in reverse order with the
    /// rotation phases conjugated.
    pub fn inverse_gates(offset: usize, n: usize) -> (r: Vec<QuantumGate>)
        requires
            offset + n <= usize::MAX,
        ensures
            r@ == qft_inverse(offset as int, n as int),
    {
        let mut gates: Vec<QuantumGate> = Vec::new();
        push_family(&mut gates, 3, offset, n, 0, 0, 0, n / 2);
        let ghost sw = gates@;
        let ghost f = qft_inv_row(offset as int, n as int);
        let mut t: usize = 0;
        while t < n
            invariant
                t <= n,
                offset + n <= usize::MAX,
                f == qft_inv_row(offset as int, n as int),
                gates@ == sw + concat_map(f, 0, t as int),
            decreases n - t,
        {
            let j = n - 1 - t;
            push_family(&mut gates, 1, offset, n, j, 0, 0, n - j - 1);
            gates.push(QuantumGate::Hadamard { target: offset + j });
            proof {
                assert(gates@ =~= sw + concat_map(f, 0, t + 1));
            }
            t = t + 1;
        }
        gates
    }

    /// Measurement of qubits q+i into classical bits c+i, i < n.
    pub fn measurement_gates(qubit_offset: usize, classical_offset: usize, n: usize) -> (r: Vec<QuantumGate>)
        requires
            qubit_offset + n <= usize::MAX,
            classical_offset + n <= usize::MAX,
        ensures
            r@ == measurement(qubit_offset as int, classical_offset as int, n as int),
    {
        let mut gates: Vec<QuantumGate> = Vec::new();
        push_family(&mut gates, 4, qubit_offset, 0, 0, classical_offset, 0, n);
        proof {
            assert(gates@ =~= measurement(qubit_offset as int, classical_offset as int, n as int));
        }
        gates
    }

    /// Inverse QFT on both exponent registers (qubits 0..n and n..2n), then
    /// measurement of both into classical bits 0..2n.
    pub fn shor_qft_and_measure(n: usize) -> (r: Vec<QuantumGate>)
        requires
            3 * n + 1 <= usize::MAX,
        ensures
            r@ == shor_qft_measure(n as int),
    {
        let mut gates = Self::inverse_gates(0, n);
        let mut b = Self::inverse_gates(n, n);
        gates.append(&mut b);
        let mut ma = Self::measurement_gates(0, 0, n);
        gates.append(&mut ma);
        let mut mb = Self::measurement_gates(n, n, n);
        gates.append(&mut mb);
        gates
    }

    /// Whether the forward QFT's gate counts match the resource model; they
    /// always do.
    pub fn validate_against_estimate(n: usize) -> (r: bool)
        requires
            n >= 1,
            2 * n + 1 <= usize::MAX,
            n * (n - 1) <= usize::MAX,
            qft_single_total(n as int) <= usize::MAX,
        ensures
            r,
    {
        let gates = Self::forward_gates(0, n);
        let estimate = QftResourceEstimate::for_single_register(n);
        let mut hadamards: usize = 0;
        let mut rotations: usize = 0;
        let mut swaps: usize = 0;
        let mut i: usize = 0;
        while i < gates.len()
            invariant
                i <= gates@.len(),
                hadamards == count_kind(gates@.take(i as int), 1),
                rotations == count_kind(gates@.take(i as int), 2),
                swaps == count_kind(gates@.take(i as int), 3),
                hadamards <= i,
                rotations <= i,
                swaps <= i,
            decreases gates@.len() - i,
        {
            proof {
                assert(gates@.take(i + 1).drop_last() =~= gates@.take(i as int));
            }
            match gates[i] {
                QuantumGate::Hadamard { .. } => {
                    hadamards = hadamards + 1;
                },
                QuantumGate::ControlledPhase { .. } => {
                    rotations = rotations + 1;
                },
                QuantumGate::Swap { .. } => {
                    swaps = swaps + 1;
                },
                _ => {},
            }
            i = i + 1;
        }
        proof {
            assert(gates@.take(gates@.len() as int) =~= gates@);
            lemma_qft_forward_counts(0, n as int);
        }
        hadamards == estimate.hadamard_count && rotations == estimate.controlled_rotation_count && swaps
            == estimate.swap_count
    }
}

/// The adjoint of a circuit has as many gates of each kind.
pub proof fn lemma_count_kind_adjoint(s: Seq<QuantumGate>, k: int)
    ensures
        count_kind(circuit_adjoint(s), k) == count_kind(s, k),
    decreases s.len(),
{
    if s.len() > 0 {
        let adj = |g: QuantumGate| gate_adjoint(g);
        let front = s.drop_last();
        lemma_count_kind_adjoint(front, k);
        assert(circuit_adjoint(s) =~= seq![gate_adjoint(s.last())] + circuit_adjoint(front));
        lemma_count_kind_concat(seq![gate_adjoint(s.last())], circuit_adjoint(front), k);
        reveal_with_fuel(count_kind, 2);
        assert(seq![gate_adjoint(s.last())].drop_last() =~= Seq::<QuantumGate>::empty());
        assert(kind_of(gate_adjoint(s.last())) == kind_of(s.last()));
    }
}

/// Shor's final stage on two n-qubit registers: 2n Hadamards, n(n − 1)
/// controlled phases, 2⌊n/2⌋ swaps and 2n measurements, and nothing else.
pub proof fn lemma_shor_qft_measure_counts(n: int)
    requires
        n >= 0,
    ensures
        count_kind(shor_qft_measure(n), 0) == 0,
        count_kind(shor_qft_measure(n), 1) == 2 * n,
        count_kind(shor_qft_measure(n), 2) == 2 * (n * (n - 1) / 2),
        count_kind(shor_qft_measure(n), 3) == 2 * (n / 2),
        count_kind(shor_qft_measure(n), 4) == 2 * n,
{
    let i0 = qft_inverse(0, n);
    let i1 = qft_inverse(n, n);
    let m0 = measurement(0, 0, n);
    let m1 = measurement(n, n, n);
    lemma_qft_inverse_is_adjoint(0, n);
    lemma_qft_inverse_is_adjoint(n, n);
    lemma_qft_forward_counts(0, n);
    lemma_qft_forward_counts(n, n);
    assert forall|i: int| 0 <= i < n implies (#[trigger] measure_step(0, 0)(i)).len() == 1 && kind_of(
        measure_step(0, 0)(i)[0],
    ) == 4 by {}
    assert forall|i: int| 0 <= i < n implies (#[trigger] measure_step(n, n)(i)).len() == 1 && kind_of(
        measure_step(n, n)(i)[0],
    ) == 4 by {}
    assert forall|k: int| 0 <= k <= 4 implies count_kind(shor_qft_measure(n), k) == count_kind(i0, k)
        + count_kind(i1, k) + count_kind(m0, k) + count_kind(m1, k) by {
        lemma_count_kind_concat(i0 + i1 + m0, m1, k);
        lemma_count_kind_concat(i0 + i1, m0, k);
        lemma_count_kind_concat(i0, i1, k);
    }
    assert forall|k: int| 0 <= k <= 4 implies count_kind(i0, k) == count_kind(qft_forward(0, n), k) && count_kind(
        i1,
        k,
    ) == count_kind(qft_forward(n, n), k) && count_kind(m0, k) == (if k == 4 {
        n
    } else {
        0
    }) && count_kind(m1, k) == (if k == 4 {
        n
    } else {
        0
    }) by {
        lemma_count_kind_adjoint(qft_forward(0, n), k);
        lemma_count_kind_adjoint(qft_forward(n, n), k);
        lemma_count_single_kind(measure_step(0, 0), 0, n, 4, k);
        lemma_count_single_kind(measure_step(n, n), 0, n, 4, k);
    }
}

/// Whether a gate is a measurement.
pub open spec fn is_measure(g: QuantumGate) -> bool {
    g is Measure
}

/// The inverse transform holds no measurement.
proof fn lemma_inverse_has_no_measure(off: int, n: int)
    ensures
        forall|k: int| 0 <= k < qft_inverse(off, n).len() ==> !is_measure(#[trigger] qft_inverse(off, n)[k]),
{
    let p = |g: QuantumGate| !is_measure(g);
    lemma_concat_map_all(qft_inv_swap_step(off, n), 0, n / 2, p);
    assert forall|t: int, u: int| 0 <= t < n && 0 <= u < qft_inv_row(off, n)(t).len() implies #[trigger] p(
        qft_inv_row(off, n)(t)[u],
    ) by {
        let j = n - 1 - t;
        let rot = concat_map(qft_inv_cp_step(off, n, j), 0, n - j - 1);
        lemma_concat_map_all(qft_inv_cp_step(off, n, j), 0, n - j - 1, p);
        let h = seq![QuantumGate::Hadamard { target: (off + j) as usize }];
        assert(qft_inv_row(off, n)(t) == rot + h);
        if u < rot.len() {
            assert((rot + h)[u] == rot[u]);
        } else {
            assert((rot + h)[u] == h[u - rot.len()]);
        }
    }
    lemma_concat_map_all(qft_inv_row(off, n), 0, n, p);
    let a = concat_map(qft_inv_swap_step(off, n), 0, n / 2);
    let b = concat_map(qft_inv_row(off, n), 0, n);
    assert forall|k: int| 0 <= k < (a + b).len() implies !is_measure(#[trigger] (a + b)[k]) by {
        if k < a.len() {
            assert((a + b)[k] == a[k]);
            assert(p(a[k]));
        } else {
            assert((a + b)[k] == b[k - a.len()]);
            assert(p(b[k - a.len()]));
        }
    }
}

/// The measurement of n qubits, gate by gate.
proof fn lemma_measurement_index(q: int, c: int, n: int)
    requires
        n >= 0,
    ensures
        measurement(q, c, n).len() == n,
        forall|i: int|
            0 <= i < n ==> #[trigger] measurement(q, c, n)[i] == (QuantumGate::Measure {
                qubit: (q + i) as usize,
                classical_bit: (c + i) as usize,
            }),
{
    assert forall|i: int| 0 <= i < n implies #[trigger] measure_step(q, c)(i).len() == 1 by {}
    lemma_concat_map_singletons(measure_step(q, c), 0, n);
}

/// Every measurement of `s` writes the classical bit of the qubit it
/// measures, and that qubit is below `m`.
pub open spec fn measures_into_own_bit(s: Seq<QuantumGate>, m: int) -> bool {
    forall|k: int|
        0 <= k < s.len() && is_measure(#[trigger] s[k]) ==> (s[k]->qubit == s[k]->classical_bit && s[k]->qubit < m)
}

/// Some gate of `s` measures qubit q into classical bit q.
pub open spec fn measured_into(s: Seq<QuantumGate>, q: int) -> bool {
    exists|k: int|
        0 <= k < s.len() && #[trigger] s[k] == (QuantumGate::Measure { qubit: q as usize, classical_bit: q as usize })
}

/// Every qubit q < m is measured into classical bit q somewhere in `s`.
pub open spec fn measures_every_qubit(s: Seq<QuantumGate>, m: int) -> bool {
    forall|q: int| 0 <= q < m ==> #[trigger] measured_into(s, q)
}

/// No two measurements of `s` write the same classical bit.
pub open spec fn measure_bits_distinct(s: Seq<QuantumGate>) -> bool {
    forall|k1: int, k2: int|
        0 <= k1 < s.len() && 0 <= k2 < s.len() && k1 != k2 && is_measure(#[trigger] s[k1]) && is_measure(
            #[trigger] s[k2],
        ) ==> (s[k1]->classical_bit != s[k2]->classical_bit)
}

/// Shor's final stage measures each of the 2n exponent qubits into the
/// classical bit of the same index: every measurement has qubit ==
/// classical bit below 2n, every qubit q < 2n is measured into bit q, and
/// no two measurements write the same classical bit.
pub proof fn lemma_shor_measurements_one_to_one(n: int)
    requires
        0 <= n,
        2 * n <= usize::MAX,
    ensures
        measures_into_own_bit(shor_qft_measure(n), 2 * n),
        measures_every_qubit(shor_qft_measure(n), 2 * n),
        measure_bits_distinct(shor_qft_measure(n)),
{
    let i0 = qft_inverse(0, n);
    let i1 = qft_inverse(n, n);
    let m0 = measurement(0, 0, n);
    let m1 = measurement(n, n, n);
    let a = i0 + i1;
    let s = shor_qft_measure(n);
    assert(s == a + m0 + m1);
    lemma_inverse_has_no_measure(0, n);
    lemma_inverse_has_no_measure(n, n);
    lemma_measurement_index(0, 0, n);
    lemma_measurement_index(n, n, n);
    let la = a.len() as int;
    // each position, by part
    assert forall|k: int| 0 <= k < s.len() implies (is_measure(#[trigger] s[k]) ==> (k >= la && s[k]
        == QuantumGate::Measure { qubit: (k - la) as usize, classical_bit: (k - la) as usize })) by {
        if k < i0.len() {
            assert(s[k] == i0[k]);
        } else if k < la {
            assert(s[k] == i1[k - i0.len()]);
        } else if k < la + n {
            assert(s[k] == m0[k - la]);
        } else {
            assert(s[k] == m1[k - la - n]);
        }
    }
    assert forall|q: int| 0 <= q < 2 * n implies #[trigger] measured_into(s, q) by {
        let k = la + q;
        if q < n {
            assert(s[k] == m0[q]);
        } else {
            assert(s[k] == m1[q - n]);
        }
    }
}

/// A gate of a transform on qubits off..off+n with phase sign `sign`: a
/// controlled phase has its control above its target inside the register
/// and k = control − target + 1, the rotation by sign·2π/2^(j−i+1) of
/// CR(q[j] → q[i]); a Hadamard acts inside the register; a swap exchanges
/// q[i] and q[n−1−i]; nothing else occurs.
pub open spec fn phase_law(g: QuantumGate, off: int, n: int, sign: i8) -> bool {
    match g {
        QuantumGate::ControlledPhase { control, target, k, sign: sg } => off <= target && target < control
            && control < off + n && k == control - target + 1 && sg == sign,
        QuantumGate::Hadamard { target } => off <= target < off + n,
        QuantumGate::Swap { qubit_a, qubit_b } => off <= qubit_a && qubit_a < qubit_b && qubit_b < off + n && qubit_a
            + qubit_b == 2 * off + n - 1,
        _ => false,
    }
}

/// The forward transform's rotations are CR_{j−i+1}(q[j] → q[i]) with
/// positive phase; the inverse's the same rotations with negative phase;
/// their Hadamards act in the register and their swaps mirror it.
pub proof fn lemma_qft_phases(off: int, n: int)
    requires
        0 <= off,
        0 <= n,
        off + n <= usize::MAX,
    ensures
        forall|t: int| 0 <= t < qft_forward(off, n).len() ==> #[trigger] phase_law(qft_forward(off, n)[t], off, n, 1i8),
        forall|t: int|
            0 <= t < qft_inverse(off, n).len() ==> #[trigger] phase_law(qft_inverse(off, n)[t], off, n, -1i8),
{
    let pf = |g: QuantumGate| phase_law(g, off, n, 1i8);
    let pi = |g: QuantumGate| phase_law(g, off, n, -1i8);
    assert forall|j: int, u: int| 0 <= j < n && 0 <= u < qft_row(off, n)(j).len() implies #[trigger] pf(
        qft_row(off, n)(j)[u],
    ) by {
        let h = seq![QuantumGate::Hadamard { target: (off + j) as usize }];
        let rot = concat_map(qft_cp_step(off, j), 2, n - j + 1);
        assert forall|m: int, v: int| 2 <= m < n - j + 1 && 0 <= v < qft_cp_step(off, j)(m).len() implies #[trigger] pf(
            qft_cp_step(off, j)(m)[v],
        ) by {}
        lemma_concat_map_all(qft_cp_step(off, j), 2, n - j + 1, pf);
        assert(qft_row(off, n)(j) == h + rot);
        if u >= 1 {
            assert((h + rot)[u] == rot[u - 1]);
        }
    }
    lemma_concat_map_all(qft_row(off, n), 0, n, pf);
    assert forall|j: int, u: int| 0 <= j < n / 2 && 0 <= u < qft_swap_step(off, n)(j).len() implies #[trigger] pf(
        qft_swap_step(off, n)(j)[u],
    ) by {}
    lemma_concat_map_all(qft_swap_step(off, n), 0, n / 2, pf);
    let a = concat_map(qft_row(off, n), 0, n);
    let b = concat_map(qft_swap_step(off, n), 0, n / 2);
    assert forall|t: int| 0 <= t < qft_forward(off, n).len() implies #[trigger] phase_law(
        qft_forward(off, n)[t],
        off,
        n,
        1i8,
    ) by {
        if t < a.len() {
            assert((a + b)[t] == a[t]);
            assert(pf(a[t]));
        } else {
            assert((a + b)[t] == b[t - a.len()]);
            assert(pf(b[t - a.len()]));
        }
    }
    assert forall|t: int, u: int| 0 <= t < n && 0 <= u < qft_inv_row(off, n)(t).len() implies #[trigger] pi(
        qft_inv_row(off, n)(t)[u],
    ) by {
        let j = n - 1 - t;
        let rot = concat_map(qft_inv_cp_step(off, n, j), 0, n - j - 1);
        let h = seq![QuantumGate::Hadamard { target: (off + j) as usize }];
        assert forall|w: int, v: int| 0 <= w < n - j - 1 && 0 <= v < qft_inv_cp_step(off, n, j)(w).len() implies #[trigger] pi(
            qft_inv_cp_step(off, n, j)(w)[v],
        ) by {}
        lemma_concat_map_all(qft_inv_cp_step(off, n, j), 0, n - j - 1, pi);
        assert(qft_inv_row(off, n)(t) == rot + h);
        if u < rot.len() {
            assert((rot + h)[u] == rot[u]);
        } else {
            assert((rot + h)[u] == h[u - rot.len()]);
        }
    }
    lemma_concat_map_all(qft_inv_row(off, n), 0, n, pi);
    assert forall|j: int, u: int| 0 <= j < n / 2 && 0 <= u < qft_inv_swap_step(off, n)(j).len() implies #[trigger] pi(
        qft_inv_swap_step(off, n)(j)[u],
    ) by {}
    lemma_concat_map_all(qft_inv_swap_step(off, n), 0, n / 2, pi);
    let c = concat_map(qft_inv_swap_step(off, n), 0, n / 2);
    let d = concat_map(qft_inv_row(off, n), 0, n);
    assert forall|t: int| 0 <= t < qft_inverse(off, n).len() implies #[trigger] phase_law(
        qft_inverse(off, n)[t],
        off,
        n,
        -1i8,
    ) by {
        if t < c.len() {
            assert((c + d)[t] == c[t]);
            assert(pi(c[t]));
        } else {
            assert((c + d)[t] == d[t - c.len()]);
            assert(pi(d[t - c.len()]));
        }
    }
}

} // verus!
