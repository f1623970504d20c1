//! The quantum Fourier transform of the single-scalar circuit, as a gate
//! list outside the Toffoli gate set.
use crate::reversible::blocks::{
    concat_map, lemma_concat_map_all, lemma_concat_map_has, lemma_concat_map_prefix, lemma_concat_map_uniform_len,
};
use vstd::prelude::*;

verus! {

/// Quantum Fourier transform on an n-qubit register.
pub struct QuantumFourierTransform {
    /// Number of qubits the QFT operates on.
    pub num_qubits: usize,
}

/// A gate of the QFT, outside the Toffoli gate set.
#[derive(Clone, Debug)]
pub enum QftGate {
    /// Hadamard gate on a single qubit.
    Hadamard { target: usize },
    /// Controlled phase rotation CR_k = diag(1, 1, 1, e^{2πi/2^k}).
    ControlledRotation {
        control: usize,
        target: usize,
        /// The rotation parameter k (rotation angle 2π/2^k).
        k: usize,
    },
    /// SWAP gate.
    Swap { qubit1: usize, qubit2: usize },
}

/// Resource summary of the QFT.
#[derive(Clone, Copy, Debug)]
pub struct QftResources {
    pub hadamard_count: usize,
    pub controlled_rotation_count: usize,
    pub swap_count: usize,
    pub total_gates: usize,
}

/// Row i of the QFT: H on qubit i, then CR_{j−i+1}(j → i) for j > i.
pub open spec fn qft_row(off: int, n: int) -> spec_fn(int) -> Seq<QftGate> {
    |i: int| seq![QftGate::Hadamard { target: (off + i) as usize }] + concat_map(cr_step(off, i), i + 1, n)
}

/// CR_{j−i+1}(j → i).
pub open spec fn cr_step(off: int, i: int) -> spec_fn(int) -> Seq<QftGate> {
    |j: int|
        seq![
            QftGate::ControlledRotation {
                control: (off + j) as usize,
                target: (off + i) as usize,
                k: (j - i + 1) as usize,
            },
        ]
}

/// The final reversal of the qubit order.
pub open spec fn qft_swaps(off: int, n: int) -> Seq<QftGate> {
    concat_map(
        |i: int| seq![QftGate::Swap { qubit1: (off + i) as usize, qubit2: (off + n - 1 - i) as usize }],
        0,
        n / 2,
    )
}

/// The QFT's gates on the register at `off`.
pub open spec fn qft_gates(off: int, n: int) -> Seq<QftGate> {
    concat_map(qft_row(off, n), 0, n) + qft_swaps(off, n)
}

/// Rows i..n hold (n − i)(n − i + 1)/2 gates.
proof fn lemma_rows_len(off: int, n: int, i: int)
    requires
        0 <= i <= n,
    ensures
        concat_map(qft_row(off, n), i, n).len() == (n - i) * (n - i + 1) / 2,
    decreases n - i,
{
    if i < n {
        lemma_rows_len(off, n, i + 1);
        crate::reversible::blocks::lemma_concat_map_split(qft_row(off, n), i, i + 1, n);
        assert(concat_map(qft_row(off, n), i, i + 1) == concat_map(qft_row(off, n), i, i) + qft_row(off, n)(i));
        assert(concat_map(qft_row(off, n), i, i) =~= Seq::<QftGate>::empty());
        lemma_concat_map_uniform_len(cr_step(off, i), i + 1, n, 1);
        assert(qft_row(off, n)(i).len() == 1 + (n - i - 1));
        assert(concat_map(qft_row(off, n), i, i + 1).len() == n - i);
        assert(concat_map(qft_row(off, n), i + 1, n).len() == (n - i - 1) * (n - i) / 2);
        assert((n - i) * (n - i + 1) / 2 == (n - i - 1) * (n - i) / 2 + (n - i)) by (nonlinear_arith)
            requires
                i < n,
        ;
    } else {
        assert((n - i) * (n - i + 1) == 0) by (nonlinear_arith)
            requires
                i == n,
        ;
    }
}

/// The QFT holds n Hadamards, n(n−1)/2 rotations and ⌊n/2⌋ swaps: n + n(n−1)/2
/// + ⌊n/2⌋ gates in all.
pub proof fn lemma_qft_gates_len(off: int, n: int)
    requires
        n >= 0,
    ensures
        qft_gates(off, n).len() == n + n * (n - 1) / 2 + n / 2,
{
    lemma_rows_len(off, n, 0);
    lemma_concat_map_uniform_len(
        |i: int| seq![QftGate::Swap { qubit1: (off + i) as usize, qubit2: (off + n - 1 - i) as usize }],
        0,
        n / 2,
        1,
    );
    assert(n * (n + 1) / 2 == n + n * (n - 1) / 2) by (nonlinear_arith)
        requires
            n >= 0,
    ;
}

/// A gate of the QFT on qubits off..off+n: a Hadamard acts inside the
/// register; a controlled rotation has its control above its target inside
/// the register and the parameter k = control − target + 1, the phase
/// 2π/2^(j−i+1) of CR(q[j] → q[i]); a swap exchanges q[i] and q[n−1−i].
pub open spec fn rotation_law(g: QftGate, off: int, n: int) -> bool {
    match g {
        QftGate::Hadamard { target } => off <= target < off + n,
        QftGate::ControlledRotation { control, target, k } => off <= target && target < control && control < off + n
            && k == control - target + 1,
        QftGate::Swap { qubit1, qubit2 } => off <= qubit1 && qubit1 < qubit2 && qubit2 < off + n && qubit1 + qubit2
            == 2 * off + n - 1,
    }
}

/// Some gate of `s` is the Hadamard on qubit q.
pub open spec fn has_hadamard(s: Seq<QftGate>, q: int) -> bool {
    exists|t: int| 0 <= t < s.len() && #[trigger] s[t] == (QftGate::Hadamard { target: q as usize })
}

/// Some gate of `s` is the rotation with that control, target and k.
pub open spec fn has_rotation(s: Seq<QftGate>, control: int, target: int, k: int) -> bool {
    exists|t: int|
        0 <= t < s.len() && #[trigger] s[t] == (QftGate::ControlledRotation {
            control: control as usize,
            target: target as usize,
            k: k as usize,
        })
}

/// The QFT's rotations are the CR_{j−i+1}(q[j] → q[i]): every rotation has
/// k = control − target + 1 with off ≤ target < control < off + n, every
/// Hadamard acts in the register and every swap exchanges mirrored qubits;
/// for every pair i < j < n the rotation controlled by q[j] on q[i] with
/// k = j − i + 1 is among the gates, and so is a Hadamard on every qubit.
pub proof fn lemma_qft_rotations(off: int, n: int)
    requires
        0 <= off,
        0 <= n,
        off + n <= usize::MAX,
    ensures
        forall|t: int| 0 <= t < qft_gates(off, n).len() ==> #[trigger] rotation_law(qft_gates(off, n)[t], off, n),
        forall|i: int, j: int|
            0 <= i < j < n ==> #[trigger] has_rotation(qft_gates(off, n), off + j, off + i, j - i + 1),
        forall|i: int| 0 <= i < n ==> #[trigger] has_hadamard(qft_gates(off, n), off + i),
{
    let p = |g: QftGate| rotation_law(g, off, n);
    let rows = concat_map(qft_row(off, n), 0, n);
    let sw = qft_swaps(off, n);
    assert forall|i: int, u: int| 0 <= i < n && 0 <= u < qft_row(off, n)(i).len() implies #[trigger] p(
        qft_row(off, n)(i)[u],
    ) by {
        let h = seq![QftGate::Hadamard { target: (off + i) as usize }];
        let rot = concat_map(cr_step(off, i), i + 1, n);
        assert forall|j: int, v: int| i + 1 <= j < n && 0 <= v < cr_step(off, i)(j).len() implies #[trigger] p(
            cr_step(off, i)(j)[v],
        ) by {}
        lemma_concat_map_all(cr_step(off, i), i + 1, n, p);
        assert(qft_row(off, n)(i) == h + rot);
        if u >= 1 {
            assert((h + rot)[u] == rot[u - 1]);
        }
    }
    lemma_concat_map_all(qft_row(off, n), 0, n, p);
    let sf = |i: int| seq![QftGate::Swap { qubit1: (off + i) as usize, qubit2: (off + n - 1 - i) as usize }];
    assert forall|i: int, u: int| 0 <= i < n / 2 && 0 <= u < sf(i).len() implies #[trigger] p(sf(i)[u]) by {}
    lemma_concat_map_all(sf, 0, n / 2, p);
    assert forall|t: int| 0 <= t < qft_gates(off, n).len() implies #[trigger] rotation_law(
        qft_gates(off, n)[t],
        off,
        n,
    ) by {
        if t < rows.len() {
            assert((rows + sw)[t] == rows[t]);
            assert(p(rows[t]));
        } else {
            assert((rows + sw)[t] == sw[t - rows.len()]);
            assert(p(sw[t - rows.len()]));
        }
    }
    assert forall|i: int, j: int| 0 <= i < j < n implies #[trigger] has_rotation(
        qft_gates(off, n),
        off + j,
        off + i,
        j - i + 1,
    ) by {
        let g = QftGate::ControlledRotation {
            control: (off + j) as usize,
            target: (off + i) as usize,
            k: (j - i + 1) as usize,
        };
        let h = seq![QftGate::Hadamard { target: (off + i) as usize }];
        let rot = concat_map(cr_step(off, i), i + 1, n);
        assert(cr_step(off, i)(j)[0] == g);
        lemma_concat_map_has(cr_step(off, i), i + 1, n, j, 0);
        let v = choose|v: int| 0 <= v < rot.len() && rot[v] == g;
        assert(qft_row(off, n)(i) == h + rot);
        assert((h + rot)[v + 1] == g);
        lemma_concat_map_has(qft_row(off, n), 0, n, i, v + 1);
        let w = choose|w: int| 0 <= w < rows.len() && rows[w] == g;
        assert((rows + sw)[w] == g);
    }
    assert forall|i: int| 0 <= i < n implies #[trigger] has_hadamard(qft_gates(off, n), off + i) by {
        let g = QftGate::Hadamard { target: (off + i) as usize };
        let h = seq![g];
        let rot = concat_map(cr_step(off, i), i + 1, n);
        assert(qft_row(off, n)(i) == h + rot);
        assert((h + rot)[0] == g);
        lemma_concat_map_has(qft_row(off, n), 0, n, i, 0);
        let w = choose|w: int| 0 <= w < rows.len() && rows[w] == g;
        assert((rows + sw)[w] == g);
    }
}

impl QuantumFourierTransform {
    pub fn new(num_qubits: usize) -> (r: Self)
        ensures
            r.num_qubits == num_qubits,
    {
        Self { num_qubits }
    }

    /// The QFT gate sequence: for each qubit i, H(i) then CR_{j−i+1}(j → i)
    /// for every j > i; then the swaps reversing the qubit order.
    pub fn gate_sequence(&self, register_offset: usize) -> (r: Vec<QftGate>)
        requires
            register_offset + self.num_qubits <= usize::MAX,
        ensures
            r@ == qft_gates(register_offset as int, self.num_qubits as int),
    {
        let n = self.num_qubits;
        let off = register_offset;
        let ghost row = qft_row(off as int, n as int);
        let mut gates: Vec<QftGate> = Vec::new();
        let mut i: usize = 0;
        while i < n
            invariant
                i <= n,
                off + n <= usize::MAX,
                row == qft_row(off as int, n as int),
                gates@ == concat_map(row, 0, i as int),
            decreases n - i,
        {
            proof {
                lemma_concat_map_prefix(row, 0, i as int, n as int);
            }
            let ghost g0 = gates@;
            let ghost cr = cr_step(off as int, i as int);
            gates.push(QftGate::Hadamard { target: off + i });
            let mut j: usize = i + 1;
            while j < n
                invariant
                    i < j <= n,
                    off + n <= usize::MAX,
                    cr == cr_step(off as int, i as int),
                    gates@ == g0 + seq![QftGate::Hadamard { target: (off + i) as usize }] + concat_map(
                        cr,
                        i + 1,
                        j as int,
                    ),
                decreases n - j,
            {
                proof {
                    lemma_concat_map_prefix(cr, i + 1, j as int, n as int);
                }
                gates.push(QftGate::ControlledRotation { control: off + j, target: off + i, k: j - i + 1 });
                j = j + 1;
            }
            proof {
                assert(row(i as int) == seq![QftGate::Hadamard { target: (off + i) as usize }] + concat_map(
                    cr,
                    i + 1,
                    n as int,
                ));
                assert(gates@ =~= concat_map(row, 0, i + 1));
            }
            i = i + 1;
        }
        let ghost sw = |i: int|
            seq![QftGate::Swap { qubit1: (off + i) as usize, qubit2: (off + n - 1 - i) as usize }];
        let ghost rows = gates@;
        let mut k: usize = 0;
        while k < n / 2
            invariant
                k <= n / 2,
                off + n <= usize::MAX,
                sw == (|i: int|
                    seq![QftGate::Swap { qubit1: (off + i) as usize, qubit2: (off + n - 1 - i) as usize }]),
                gates@ == rows + concat_map(sw, 0, k as int),
            decreases n / 2 - k,
        {
            proof {
                lemma_concat_map_prefix(sw, 0, k as int, (n / 2) as int);
            }
            gates.push(QftGate::Swap { qubit1: off + k, qubit2: off + n - 1 - k });
            k = k + 1;
        }
        gates
    }

    /// Resource count for the QFT: n Hadamards, n(n−1)/2 rotations and
    /// ⌊n/2⌋ swaps.
    pub fn resource_count(&self) -> (r: QftResources)
        requires
            self.num_qubits >= 1,
            self.num_qubits * (self.num_qubits - 1) <= usize::MAX,
            self.num_qubits + self.num_qubits * (self.num_qubits - 1) / 2 + self.num_qubits / 2 <= usize::MAX,
        ensures
            r.hadamard_count == self.num_qubits,
            r.controlled_rotation_count == self.num_qubits * (self.num_qubits - 1) / 2,
            r.swap_count == self.num_qubits / 2,
            r.total_gates == self.num_qubits + self.num_qubits * (self.num_qubits - 1) / 2 + self.num_qubits / 2,
    {
        let n = self.num_qubits;
        proof {
            assert(n * (n - 1) >= 0) by (nonlinear_arith)
                requires
                    n >= 1,
            ;
        }
        QftResources {
            hadamard_count: n,
            controlled_rotation_count: n * (n - 1) / 2,
            swap_count: n / 2,
            total_gates: n + n * (n - 1) / 2 + n / 2,
        }
    }
}

} // verus!
