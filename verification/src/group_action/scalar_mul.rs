//! Windowed double-and-add scalar multiplication as a reversible circuit,
//! in affine coordinates.
use crate::ec::curve::{AffinePoint, CurveParams};
use crate::ec::ec_spec::SpecPoint;
use crate::group_action::precompute::{multiples, PrecomputeTable};
use crate::reversible::adder::{cnot, not_gate, toffoli};
use crate::group_action::window_effects::{
    effect_fits, effect_holds, effect_le, effect_wf, lemma_effect_step, lemma_fits_next,
    lemma_repeat_grows, lemma_rounds_grow, lemma_then_all_grows, lemma_then_all_one, lemma_then_grows, repeat_effect,
    rounds_effect, then_all, then_effect,
};
use crate::reversible::ancilla::{flatten, AncillaPool};
use crate::reversible::blocks::{
    append_copy_of, append_swap, concat_map, lemma_block_lens, lemma_concat_map_prefix,
    lemma_concat_map_split, lemma_concat_map_uniform_len, swap_gates,
};
use crate::reversible::circuit_ops::{ctx_ok, lemma_ops_effect_mono, ops_effect, ops_gates, CircOp, OpCtx};
use crate::reversible::ec_add_affine::{ec_add_affine_ctx, ec_add_affine_ops, ReversibleEcAdd};
use crate::reversible::ec_double_affine::{ec_double_affine_ctx, ec_double_affine_ops, ReversibleEcDouble};
use crate::reversible::gates::Gate;
use crate::reversible::inverter::fermat_ops;
use crate::reversible::multiplier::karatsuba_total_ws;
use crate::reversible::resource_counter::{
    emit, gate_room, gates_recorded, lemma_gates_recorded_concat, lemma_room_left, qubits_unchanged,
    raised_high_water, ResourceCounter,
};
use vstd::arithmetic::power2::pow2;
use vstd::prelude::*;

verus! {

/// Windowed double-and-add scalar multiplication (reversible).
///
/// The scalar is processed in w-bit windows: per window, w point doublings
/// of the accumulator, one table lookup of [window]P and one point addition.
pub struct WindowedScalarMul {
    /// Window size in bits.
    pub window_size: usize,
    /// Number of bits in the scalar.
    pub scalar_bits: usize,
}

impl WindowedScalarMul {
    /// A multiplier for `scalar_bits`-bit scalars in `window_size`-bit
    /// windows; the window size must divide the scalar width.
    pub fn new(window_size: usize, scalar_bits: usize) -> (r: Self)
        requires
            window_size > 0,
            scalar_bits % window_size == 0,
        ensures
            r.window_size == window_size,
            r.scalar_bits == scalar_bits,
    {
        Self { window_size, scalar_bits }
    }

    /// Number of windows to process.
    pub fn num_windows(&self) -> (r: usize)
        requires
            self.window_size > 0,
        ensures
            r == self.scalar_bits / self.window_size,
    {
        self.scalar_bits / self.window_size
    }
}

/// Bit `b` of the 64-bit value `v`.
pub open spec fn bit_set(v: int, b: int) -> bool {
    ((v as u64) >> (b as u64)) & 1u64 == 1u64
}

/// Bit `k` of the table index `e`.
pub open spec fn index_bit(e: int, k: int) -> bool {
    ((e as usize) >> (k as usize)) & 1usize == 1usize
}

/// One step of the Toffoli chain: Toffoli(anc, ws+k → t).
pub open spec fn chain_step(anc: int, ws: int, t: int) -> spec_fn(int) -> Seq<Gate> {
    |k: int| seq![toffoli(anc, ws + k, t)]
}

/// Flip `t` under the w window bits at `ws` (a CNOT for one bit; for more,
/// the first two bits into the scratch qubit `anc`, a Toffoli chain, and the
/// scratch qubit restored).
pub open spec fn mcx_gates(ws: int, w: int, anc: int, t: int) -> Seq<Gate> {
    if w == 1 {
        seq![cnot(ws, t)]
    } else {
        seq![toffoli(ws, ws + 1, anc)] + concat_map(chain_step(anc, ws, t), 2, w) + (if w == 2 {
            seq![cnot(anc, t)]
        } else {
            Seq::empty()
        }) + seq![toffoli(ws, ws + 1, anc)]
    }
}

/// For output bit `b`: the controlled flips of the x and y lookup bits that
/// are set in the entry's coordinates.
pub open spec fn qrom_bit_step(x: int, y: int, ws: int, w: int, anc: int, lx: int, ly: int) -> spec_fn(
    int,
) -> Seq<Gate> {
    |b: int|
        (if bit_set(x, b) {
            mcx_gates(ws, w, anc, lx + b)
        } else {
            Seq::empty()
        }) + (if bit_set(y, b) {
            mcx_gates(ws, w, anc, ly + b)
        } else {
            Seq::empty()
        })
}

/// NOT on window bit k where bit k of the entry index is 0, so that the
/// controls select exactly that index.
pub open spec fn zero_ctrl_step(e: int, ws: int) -> spec_fn(int) -> Seq<Gate> {
    |k: int|
        if index_bit(e, k) {
            Seq::empty()
        } else {
            seq![not_gate(ws + k)]
        }
}

/// The lookup gates of one table entry (none for the point at infinity).
pub open spec fn qrom_entry_affine(p: SpecPoint, e: int, ws: int, w: int, n: int, anc: int, lx: int, ly: int) -> Seq<
    Gate,
> {
    match p {
        None => Seq::empty(),
        Some((x, y)) => concat_map(zero_ctrl_step(e, ws), 0, w) + concat_map(
            qrom_bit_step(x, y, ws, w, anc, lx, ly),
            0,
            n,
        ) + concat_map(zero_ctrl_step(e, ws), 0, w),
    }
}

/// The table lookup: every entry's gates in index order.
pub open spec fn qrom_affine(table: Seq<SpecPoint>, ws: int, w: int, n: int, anc: int, lx: int, ly: int) -> Seq<
    Gate,
> {
    concat_map(|e: int| qrom_entry_affine(table[e], e, ws, w, n, anc, lx, ly), 0, table.len() as int)
}

/// Appends the multi-controlled flip of `t`.
fn append_mcx(gates: &mut Vec<Gate>, counter: &mut ResourceCounter, ws: usize, w: usize, anc: usize, t: usize)
    requires
        w >= 1,
        ws + w <= usize::MAX,
        gate_room(*old(counter), mcx_gates(ws as int, w as int, anc as int, t as int).len() as int),
    ensures
        final(gates)@ == old(gates)@ + mcx_gates(ws as int, w as int, anc as int, t as int),
        gates_recorded(*old(counter), *final(counter), mcx_gates(ws as int, w as int, anc as int, t as int)),
        qubits_unchanged(*old(counter), *final(counter)),
{
    let ghost c0 = *counter;
    let ghost g0 = gates@;
    let ghost total = mcx_gates(ws as int, w as int, anc as int, t as int);
    if w == 1 {
        emit(gates, counter, Gate::Cnot { control: ws, target: t });
        return;
    }
    let ghost f = chain_step(anc as int, ws as int, t as int);
    proof {
        lemma_concat_map_uniform_len(f, 2, w as int, 1);
    }
    let first = Gate::Toffoli { control1: ws, control2: ws + 1, target: anc };
    emit(gates, counter, first);
    let mut k: usize = 2;
    while k < w
        invariant
            2 <= k <= w,
            ws + w <= usize::MAX,
            f == chain_step(anc as int, ws as int, t as int),
            concat_map(f, 2, w as int).len() == w - 2,
            total == mcx_gates(ws as int, w as int, anc as int, t as int),
            gate_room(c0, total.len() as int),
            total.len() >= w,
            gates@ == g0 + seq![first] + concat_map(f, 2, k as int),
            gates_recorded(c0, *counter, seq![first] + concat_map(f, 2, k as int)),
            qubits_unchanged(c0, *counter),
        decreases w - k,
    {
        proof {
            lemma_concat_map_uniform_len(f, 2, k as int, 1);
            lemma_room_left(c0, *counter, seq![first] + concat_map(f, 2, k as int), total.len() as int, 1);
        }
        let ghost c1 = *counter;
        emit(gates, counter, Gate::Toffoli { control1: anc, control2: ws + k, target: t });
        proof {
            lemma_concat_map_prefix(f, 2, k as int, w as int);
            lemma_gates_recorded_concat(c0, c1, *counter, seq![first] + concat_map(f, 2, k as int), f(k as int));
            assert(gates@ =~= g0 + seq![first] + concat_map(f, 2, k + 1));
            assert(seq![first] + concat_map(f, 2, k as int) + f(k as int) =~= seq![first] + concat_map(
                f,
                2,
                k + 1,
            ));
        }
        k = k + 1;
    }
    let ghost mid = seq![first] + concat_map(f, 2, w as int);
    if w == 2 {
        proof {
            lemma_room_left(c0, *counter, mid, total.len() as int, 2);
        }
        let ghost c1 = *counter;
        emit(gates, counter, Gate::Cnot { control: anc, target: t });
        proof {
            lemma_gates_recorded_concat(c0, c1, *counter, mid, seq![cnot(anc as int, t as int)]);
        }
    }
    let ghost mid2 = mid + (if w == 2 {
        seq![cnot(anc as int, t as int)]
    } else {
        Seq::empty()
    });
    proof {
        assert(mid2 =~= mid + (if w == 2 {
            seq![cnot(anc as int, t as int)]
        } else {
            Seq::<Gate>::empty()
        }));
        lemma_room_left(c0, *counter, mid2, total.len() as int, 1);
    }
    let ghost c2 = *counter;
    emit(gates, counter, first);
    proof {
        lemma_gates_recorded_concat(c0, c2, *counter, mid2, seq![first]);
        assert(total =~= mid2 + seq![first]);
        assert(gates@ =~= g0 + total);
    }
}

/// Appends the NOT gates selecting entry `e` on the window bits.
fn append_zero_ctrl(gates: &mut Vec<Gate>, counter: &mut ResourceCounter, e: usize, ws: usize, w: usize)
    requires
        w < usize::BITS,
        ws + w <= usize::MAX,
        gate_room(*old(counter), concat_map(zero_ctrl_step(e as int, ws as int), 0, w as int).len() as int),
    ensures
        final(gates)@ == old(gates)@ + concat_map(zero_ctrl_step(e as int, ws as int), 0, w as int),
        gates_recorded(*old(counter), *final(counter), concat_map(zero_ctrl_step(e as int, ws as int), 0, w as int)),
        qubits_unchanged(*old(counter), *final(counter)),
{
    let ghost c0 = *counter;
    let ghost g0 = gates@;
    let ghost f = zero_ctrl_step(e as int, ws as int);
    let ghost total = concat_map(f, 0, w as int);
    let mut k: usize = 0;
    while k < w
        invariant
            k <= w,
            w < usize::BITS,
            ws + w <= usize::MAX,
            f == zero_ctrl_step(e as int, ws as int),
            total == concat_map(f, 0, w as int),
            gate_room(c0, total.len() as int),
            gates@ == g0 + concat_map(f, 0, k as int),
            gates_recorded(c0, *counter, concat_map(f, 0, k as int)),
            qubits_unchanged(c0, *counter),
        decreases w - k,
    {
        proof {
            lemma_concat_map_prefix(f, 0, k as int, w as int);
        }
        if (e >> k) & 1 == 0 {
            proof {
                assert(!index_bit(e as int, k as int));
                assert(f(k as int) == seq![not_gate(ws + k)]);
                lemma_room_left(c0, *counter, concat_map(f, 0, k as int), total.len() as int, 1);
            }
            let ghost c1 = *counter;
            emit(gates, counter, Gate::Not { target: ws + k });
            proof {
                lemma_gates_recorded_concat(c0, c1, *counter, concat_map(f, 0, k as int), f(k as int));
            }
        } else {
            proof {
                assert((e >> k) & 1 != 0 ==> (e >> k) & 1 == 1) by (bit_vector);
                assert(index_bit(e as int, k as int));
                assert(f(k as int) =~= Seq::<Gate>::empty());
                assert(concat_map(f, 0, k as int) + f(k as int) =~= concat_map(f, 0, k as int));
            }
        }
        proof {
            assert(gates@ =~= g0 + concat_map(f, 0, k + 1));
        }
        k = k + 1;
    }
}

/// Appends the lookup gates of one table entry.
fn append_qrom_entry_affine(
    gates: &mut Vec<Gate>,
    counter: &mut ResourceCounter,
    p: &AffinePoint,
    e: usize,
    ws: usize,
    w: usize,
    n: usize,
    anc: usize,
    lx: usize,
    ly: usize,
)
    requires
        1 <= w < usize::BITS,
        ws + w <= usize::MAX,
        n <= 64,
        lx + n <= usize::MAX,
        ly + n <= usize::MAX,
        gate_room(
            *old(counter),
            qrom_entry_affine(p@, e as int, ws as int, w as int, n as int, anc as int, lx as int, ly as int).len() as int,
        ),
    ensures
        final(gates)@ == old(gates)@ + qrom_entry_affine(
            p@,
            e as int,
            ws as int,
            w as int,
            n as int,
            anc as int,
            lx as int,
            ly as int,
        ),
        gates_recorded(
            *old(counter),
            *final(counter),
            qrom_entry_affine(p@, e as int, ws as int, w as int, n as int, anc as int, lx as int, ly as int),
        ),
        qubits_unchanged(*old(counter), *final(counter)),
{
    let ghost c0 = *counter;
    let ghost g0 = gates@;
    let ghost entry = qrom_entry_affine(p@, e as int, ws as int, w as int, n as int, anc as int, lx as int, ly as int);
    match p {
        AffinePoint::Infinity => {
            proof {
                assert(gates@ =~= g0 + entry);
            }
        },
        AffinePoint::Finite { x, y } => {
            let xv = x.to_canonical();
            let yv = y.to_canonical();
            let ghost z = concat_map(zero_ctrl_step(e as int, ws as int), 0, w as int);
            let ghost f = qrom_bit_step(x@, y@, ws as int, w as int, anc as int, lx as int, ly as int);
            let ghost body = concat_map(f, 0, n as int);
            proof {
                assert(entry == z + body + z);
                lemma_room_left(c0, *counter, Seq::empty(), entry.len() as int, z.len() as int);
            }
            append_zero_ctrl(gates, counter, e, ws, w);
            let ghost c1 = *counter;
            let mut b: usize = 0;
            while b < n
                invariant
                    b <= n,
                    n <= 64,
                    1 <= w < usize::BITS,
                    ws + w <= usize::MAX,
                    lx + n <= usize::MAX,
                    ly + n <= usize::MAX,
                    xv as int == x@,
                    yv as int == y@,
                    f == qrom_bit_step(x@, y@, ws as int, w as int, anc as int, lx as int, ly as int),
                    body == concat_map(f, 0, n as int),
                    entry == z + body + z,
                    gate_room(c0, entry.len() as int),
                    gates_recorded(c0, c1, z),
                    qubits_unchanged(c0, c1),
                    gates@ == g0 + z + concat_map(f, 0, b as int),
                    gates_recorded(c1, *counter, concat_map(f, 0, b as int)),
                    qubits_unchanged(c1, *counter),
                decreases n - b,
            {
                proof {
                    lemma_concat_map_prefix(f, 0, b as int, n as int);
                    lemma_gates_recorded_concat(c0, c1, *counter, z, concat_map(f, 0, b as int));
                }
                let ghost cb = *counter;
                let ghost gb = gates@;
                let ghost xpart = if bit_set(x@, b as int) {
                    mcx_gates(ws as int, w as int, anc as int, lx + b)
                } else {
                    Seq::empty()
                };
                let ghost ypart = if bit_set(y@, b as int) {
                    mcx_gates(ws as int, w as int, anc as int, ly + b)
                } else {
                    Seq::empty()
                };
                proof {
                    assert(f(b as int) == xpart + ypart);
                    lemma_room_left(
                        c0,
                        cb,
                        z + concat_map(f, 0, b as int),
                        entry.len() as int,
                        (xpart + ypart).len() as int,
                    );
                }
                if (xv >> (b as u64)) & 1 == 1 {
                    append_mcx(gates, counter, ws, w, anc, lx + b);
                } else {
                    proof {
                        assert(gates@ =~= gb + xpart);
                    }
                }
                let ghost cx = *counter;
                proof {
                    lemma_room_left(cb, cx, xpart, (xpart + ypart).len() as int, ypart.len() as int);
                }
                if (yv >> (b as u64)) & 1 == 1 {
                    append_mcx(gates, counter, ws, w, anc, ly + b);
                } else {
                    proof {
                        assert(gates@ =~= gb + xpart + ypart);
                    }
                }
                proof {
                    lemma_gates_recorded_concat(cb, cx, *counter, xpart, ypart);
                    lemma_gates_recorded_concat(c1, cb, *counter, concat_map(f, 0, b as int), xpart + ypart);
                    assert(gates@ =~= g0 + z + concat_map(f, 0, b + 1));
                }
                b = b + 1;
            }
            let ghost c2 = *counter;
            proof {
                lemma_gates_recorded_concat(c0, c1, c2, z, body);
                lemma_room_left(c0, c2, z + body, entry.len() as int, z.len() as int);
            }
            append_zero_ctrl(gates, counter, e, ws, w);
            proof {
                lemma_gates_recorded_concat(c0, c2, *counter, z + body, z);
                assert(gates@ =~= g0 + entry);
            }
        },
    }
}

/// Appends the lookup gates of the whole table.
fn append_qrom_affine(
    gates: &mut Vec<Gate>,
    counter: &mut ResourceCounter,
    table: &PrecomputeTable,
    ws: usize,
    w: usize,
    n: usize,
    anc: usize,
    lx: usize,
    ly: usize,
)
    requires
        1 <= w < usize::BITS,
        ws + w <= usize::MAX,
        n <= 64,
        lx + n <= usize::MAX,
        ly + n <= usize::MAX,
        gate_room(
            *old(counter),
            qrom_affine(table.point_views(), ws as int, w as int, n as int, anc as int, lx as int, ly as int).len() as int,
        ),
    ensures
        final(gates)@ == old(gates)@ + qrom_affine(
            table.point_views(),
            ws as int,
            w as int,
            n as int,
            anc as int,
            lx as int,
            ly as int,
        ),
        gates_recorded(
            *old(counter),
            *final(counter),
            qrom_affine(table.point_views(), ws as int, w as int, n as int, anc as int, lx as int, ly as int),
        ),
        qubits_unchanged(*old(counter), *final(counter)),
{
    let ghost c0 = *counter;
    let ghost g0 = gates@;
    let ghost tv = table.point_views();
    let ghost f = |e: int| qrom_entry_affine(tv[e], e, ws as int, w as int, n as int, anc as int, lx as int, ly as int);
    let ghost total = qrom_affine(tv, ws as int, w as int, n as int, anc as int, lx as int, ly as int);
    let mut e: usize = 0;
    while e < table.len()
        invariant
            e <= tv.len(),
            tv == table.point_views(),
            tv.len() == table.points@.len(),
            1 <= w < usize::BITS,
            ws + w <= usize::MAX,
            n <= 64,
            lx + n <= usize::MAX,
            ly + n <= usize::MAX,
            f == (|e: int| qrom_entry_affine(tv[e], e, ws as int, w as int, n as int, anc as int, lx as int, ly as int)),
            total == concat_map(f, 0, tv.len() as int),
            gate_room(c0, total.len() as int),
            gates@ == g0 + concat_map(f, 0, e as int),
            gates_recorded(c0, *counter, concat_map(f, 0, e as int)),
            qubits_unchanged(c0, *counter),
        decreases tv.len() - e,
    {
        proof {
            lemma_concat_map_prefix(f, 0, e as int, tv.len() as int);
            lemma_room_left(c0, *counter, concat_map(f, 0, e as int), total.len() as int, f(e as int).len() as int);
        }
        let p = table.lookup(e);
        let ghost c1 = *counter;
        append_qrom_entry_affine(gates, counter, p, e, ws, w, n, anc, lx, ly);
        proof {
            assert(tv[e as int] == p@);
            lemma_gates_recorded_concat(c0, c1, *counter, concat_map(f, 0, e as int), f(e as int));
            assert(gates@ =~= g0 + concat_map(f, 0, e + 1));
        }
        e = e + 1;
    }
}

/// The gates of a circuit step list.
pub open spec fn ec_part(ctx: OpCtx, ops: Seq<CircOp>) -> Seq<Gate> {
    ops_gates(ctx, ops)
}

/// The ancilla effect of a workspace of `w` qubits around steps with
/// combined effect `e` (see `workspace_effect`).
pub open spec fn ws_effect(w: int, e: (int, int, int, int, bool)) -> (int, int, int, int) {
    (w + e.0, w + e.0, 0, w + if e.4 {
        e.3
    } else {
        0
    })
}

/// The effect of allocating `k` fresh qubits.
pub open spec fn alloc_effect(k: int) -> (int, int, int, int) {
    (k, 0, k, k)
}

/// A workspace effect is well formed.
pub proof fn lemma_ws_effect_wf(ctx: OpCtx, ops: Seq<CircOp>, w: int)
    requires
        w >= 0,
    ensures
        effect_wf(ws_effect(w, ops_effect(ctx, ops))),
        !ops_effect(ctx, ops).4 ==> ops_effect(ctx, ops).3 == 0,
{
    lemma_ops_effect_mono(ctx, ops, ops.len() as int, ops.len() as int);
    assert(ops.take(ops.len() as int) =~= ops);
}

/// Register layout of the affine multiplier: field width n, window w, the
/// scalar register at `sro`, the accumulator at (`px`, `py`), and the
/// ancilla registers handed out from `base` on: lookup x and y, the
/// workspace of 10n + 2 qubits, the doubling and addition results.
pub struct SmLayout {
    pub n: int,
    pub w: int,
    pub sro: int,
    pub px: int,
    pub py: int,
    pub base: int,
}

impl SmLayout {
    pub open spec fn lx(self) -> int {
        self.base
    }

    pub open spec fn ly(self) -> int {
        self.base + self.n
    }

    pub open spec fn ws(self) -> int {
        self.base + 2 * self.n
    }

    pub open spec fn tx(self) -> int {
        self.base + 12 * self.n + 2
    }

    pub open spec fn ty(self) -> int {
        self.base + 13 * self.n + 2
    }

    pub open spec fn ox(self) -> int {
        self.base + 14 * self.n + 2
    }

    pub open spec fn oy(self) -> int {
        self.base + 15 * self.n + 2
    }

    /// Qubits handed out from the pool.
    pub open spec fn allocated(self) -> int {
        16 * self.n + 2
    }

    pub open spec fn dbl_ctx(self) -> OpCtx {
        ec_double_affine_ctx(self.n, self.ws())
    }

    pub open spec fn dbl_ops(self) -> Seq<CircOp> {
        ec_double_affine_ops(self.n, self.px, self.py, self.tx(), self.ty(), self.ws())
    }

    pub open spec fn add_ctx(self) -> OpCtx {
        ec_add_affine_ctx(self.n, self.ws())
    }

    pub open spec fn add_ops(self) -> Seq<CircOp> {
        ec_add_affine_ops(self.n, self.px, self.py, self.lx(), self.ly(), self.ox(), self.oy(), self.ws())
    }

    /// One doubling into the temporaries, swapped back into the accumulator.
    pub open spec fn dbl_block(self) -> Seq<Gate> {
        ec_part(self.dbl_ctx(), self.dbl_ops()) + swap_gates(self.tx(), self.px, self.n) + swap_gates(
            self.ty(),
            self.py,
            self.n,
        )
    }

    /// The addition of the looked-up point into the result registers,
    /// swapped back into the accumulator.
    pub open spec fn add_block(self) -> Seq<Gate> {
        ec_part(self.add_ctx(), self.add_ops()) + swap_gates(self.ox(), self.px, self.n) + swap_gates(
            self.oy(),
            self.py,
            self.n,
        )
    }

    /// The table lookup of window `i`.
    pub open spec fn qrom(self, table: Seq<SpecPoint>, i: int) -> Seq<Gate> {
        qrom_affine(table, self.sro + i * self.w, self.w, self.n, self.ws(), self.lx(), self.ly())
    }

    /// Window `i`: w doublings, the lookup, the addition, and the reversed
    /// lookup (after any gates the pool had deferred before the first window).
    pub open spec fn window(self, table: Seq<SpecPoint>, pre: Seq<Gate>) -> spec_fn(int) -> Seq<Gate> {
        |i: int|
            concat_map(|j: int| self.dbl_block(), 0, self.w) + self.qrom(table, i) + self.add_block() + (
            first_only(pre, i) + self.qrom(table, i)).reverse()
    }

    /// All windows.
    pub open spec fn gates(self, table: Seq<SpecPoint>, pre: Seq<Gate>, windows: int) -> Seq<Gate> {
        concat_map(self.window(table, pre), 0, windows)
    }

    pub open spec fn dbl_effect(self) -> (int, int, int, int) {
        ws_effect(10 * self.n + 3, ops_effect(self.dbl_ctx(), self.dbl_ops()))
    }

    pub open spec fn add_effect(self) -> (int, int, int, int) {
        ws_effect(9 * self.n + 2, ops_effect(self.add_ctx(), self.add_ops()))
    }

    /// The ancilla effect of the allocations and `windows` windows.
    pub open spec fn effect(self, windows: int) -> (int, int, int, int) {
        rounds_effect(
            alloc_effect(self.allocated()),
            self.dbl_effect(),
            seq![self.add_effect()],
            self.w as nat,
            windows as nat,
        )
    }

    /// The registers and the workspace fit in the index range.
    pub open spec fn fits(self, scalar_bits: int) -> bool {
        &&& 1 <= self.n <= 64
        &&& self.w >= 1
        &&& self.sro >= 0
        &&& self.px >= 0
        &&& self.py >= 0
        &&& self.base >= 0
        &&& self.sro + scalar_bits <= usize::MAX
        &&& self.px + self.n <= usize::MAX
        &&& self.py + self.n <= usize::MAX
        &&& self.base + 16 * self.n + 3 <= usize::MAX
        &&& ctx_ok(self.dbl_ctx())
    }
}

/// `pre` for the first window, nothing after.
pub open spec fn first_only(pre: Seq<Gate>, i: int) -> Seq<Gate> {
    if i == 0 {
        pre
    } else {
        Seq::empty()
    }
}

/// One doubling step.
fn sm_double_step(
    Ghost(l): Ghost<SmLayout>,
    doubler: &ReversibleEcDouble,
    gates: &mut Vec<Gate>,
    counter: &mut ResourceCounter,
    px: usize,
    py: usize,
    tx: usize,
    ty: usize,
    ws: usize,
)
    requires
        l.fits(0),
        l.n == doubler.n,
        l.px == px,
        l.py == py,
        l.tx() == tx,
        l.ty() == ty,
        l.ws() == ws,
        gate_room(*old(counter), l.dbl_block().len() as int),
        effect_fits(*old(counter), l.dbl_effect()),
    ensures
        final(gates)@ == old(gates)@ + l.dbl_block(),
        gates_recorded(*old(counter), *final(counter), l.dbl_block()),
        effect_holds(*old(counter), *final(counter), l.dbl_effect()),
{
    let n = doubler.n;
    let ghost c0 = *counter;
    let ghost g0 = gates@;
    let ghost ec = ops_gates(l.dbl_ctx(), l.dbl_ops());
    proof {
        lemma_ws_effect_wf(l.dbl_ctx(), l.dbl_ops(), 10 * l.n + 3);
        lemma_block_lens(l.tx(), l.px, 0, l.n);
        lemma_block_lens(l.ty(), l.py, 0, l.n);
        lemma_room_left(c0, c0, Seq::empty(), l.dbl_block().len() as int, ec.len() as int);
    }
    let dbl = doubler.forward_gates(px, py, tx, ty, ws, counter);
    append_copy_of(gates, &dbl);
    let ghost c1 = *counter;
    proof {
        lemma_room_left(c0, c1, ec, l.dbl_block().len() as int, 3 * n);
    }
    append_swap(gates, counter, tx, px, n);
    let ghost c2 = *counter;
    proof {
        lemma_gates_recorded_concat(c0, c1, c2, ec, swap_gates(l.tx(), l.px, l.n));
        lemma_room_left(c0, c2, ec + swap_gates(l.tx(), l.px, l.n), l.dbl_block().len() as int, 3 * n);
    }
    append_swap(gates, counter, ty, py, n);
    proof {
        lemma_gates_recorded_concat(
            c0,
            c2,
            *counter,
            ec + swap_gates(l.tx(), l.px, l.n),
            swap_gates(l.ty(), l.py, l.n),
        );
        assert(gates@ =~= g0 + l.dbl_block());
    }
}

/// The addition step.
fn sm_add_step(
    Ghost(l): Ghost<SmLayout>,
    adder: &ReversibleEcAdd,
    gates: &mut Vec<Gate>,
    counter: &mut ResourceCounter,
    px: usize,
    py: usize,
    lx: usize,
    ly: usize,
    ox: usize,
    oy: usize,
    ws: usize,
)
    requires
        l.fits(0),
        l.n == adder.n,
        l.px == px,
        l.py == py,
        l.lx() == lx,
        l.ly() == ly,
        l.ox() == ox,
        l.oy() == oy,
        l.ws() == ws,
        gate_room(*old(counter), l.add_block().len() as int),
        effect_fits(*old(counter), l.add_effect()),
    ensures
        final(gates)@ == old(gates)@ + l.add_block(),
        gates_recorded(*old(counter), *final(counter), l.add_block()),
        effect_holds(*old(counter), *final(counter), l.add_effect()),
{
    let n = adder.n;
    let ghost c0 = *counter;
    let ghost g0 = gates@;
    let ghost ec = ops_gates(l.add_ctx(), l.add_ops());
    proof {
        lemma_ws_effect_wf(l.add_ctx(), l.add_ops(), 9 * l.n + 2);
        lemma_block_lens(l.ox(), l.px, 0, l.n);
        lemma_block_lens(l.oy(), l.py, 0, l.n);
        lemma_room_left(c0, c0, Seq::empty(), l.add_block().len() as int, ec.len() as int);
    }
    let add = adder.forward_gates(px, py, lx, ly, ox, oy, ws, counter);
    append_copy_of(gates, &add);
    let ghost c1 = *counter;
    proof {
        lemma_room_left(c0, c1, ec, l.add_block().len() as int, 3 * n);
    }
    append_swap(gates, counter, ox, px, n);
    let ghost c2 = *counter;
    proof {
        lemma_gates_recorded_concat(c0, c1, c2, ec, swap_gates(l.ox(), l.px, l.n));
        lemma_room_left(c0, c2, ec + swap_gates(l.ox(), l.px, l.n), l.add_block().len() as int, 3 * n);
    }
    append_swap(gates, counter, oy, py, n);
    proof {
        lemma_gates_recorded_concat(
            c0,
            c2,
            *counter,
            ec + swap_gates(l.ox(), l.px, l.n),
            swap_gates(l.oy(), l.py, l.n),
        );
        assert(gates@ =~= g0 + l.add_block());
    }
}

/// Hands out the next `k` qubits of the pool; `s` qubits were handed out
/// before, of `total` that the counter has room for.
pub(crate) fn take_register(
    pool: &mut AncillaPool,
    label: &str,
    k: usize,
    counter: &mut ResourceCounter,
    Ghost(c0): Ghost<ResourceCounter>,
    Ghost(s): Ghost<int>,
    Ghost(total): Ghost<int>,
) -> (off: usize)
    requires
        old(pool).wf(),
        old(pool).next() + k <= usize::MAX,
        0 <= s,
        s + k <= total,
        effect_fits(c0, alloc_effect(total)),
        (s == 0 && *old(counter) == c0) || effect_holds(c0, *old(counter), alloc_effect(s)),
    ensures
        off == old(pool).next(),
        final(pool).wf(),
        final(pool).next() == old(pool).next() + k,
        final(pool).base() == old(pool).base(),
        final(pool).deferred() == old(pool).deferred(),
        final(pool).strat() == old(pool).strat(),
        final(pool).num_registers() == old(pool).num_registers() + 1,
        effect_holds(c0, *final(counter), alloc_effect(s + k)),
        gates_recorded(*old(counter), *final(counter), Seq::empty()),
{
    let ghost c1 = *counter;
    let reg = pool.allocate(label, k, counter);
    proof {
        assert(effect_holds(c1, *counter, alloc_effect(k as int)));
        if !(s == 0 && c1 == c0) {
            lemma_effect_step(c0, c1, *counter, alloc_effect(s), alloc_effect(k as int));
        }
    }
    reg.offset
}

/// One window of the multiplication: w doublings, the table lookup, the
/// addition, and the uncomputation of the lookup.
#[verifier::rlimit(80)]
#[verifier::spinoff_prover]
fn sm_run_window(
    Ghost(l): Ghost<SmLayout>,
    Ghost(pre): Ghost<Seq<Gate>>,
    Ghost(c0): Ghost<ResourceCounter>,
    Ghost(p): Ghost<(int, int, int, int)>,
    Ghost(t): Ghost<(int, int, int, int)>,
    doubler: &ReversibleEcDouble,
    adder: &ReversibleEcAdd,
    table: &PrecomputeTable,
    i: usize,
    gates: &mut Vec<Gate>,
    pool: &mut AncillaPool,
    counter: &mut ResourceCounter,
    sro: usize,
    px: usize,
    py: usize,
    w: usize,
    base: usize,
)
    requires
        l.fits(0),
        l.n <= 64,
        l.base == base,
        l.w == w,
        w < usize::BITS,
        l.sro == sro,
        l.px == px,
        l.py == py,
        l.n == doubler.n,
        l.n == adder.n,
        sro + (i + 1) * w <= usize::MAX,
        old(pool).wf(),
        flatten(old(pool).deferred()) == first_only(pre, i as int),
        gate_room(*old(counter), l.window(table.point_views(), pre)(i as int).len() as int),
        effect_holds(c0, *old(counter), p),
        effect_wf(p),
        effect_wf(l.dbl_effect()),
        effect_wf(l.add_effect()),
        effect_fits(c0, t),
        effect_le(then_all(repeat_effect(p, l.dbl_effect(), w as nat), seq![l.add_effect()]), t),
    ensures
        final(gates)@ == old(gates)@ + l.window(table.point_views(), pre)(i as int),
        gates_recorded(*old(counter), *final(counter), l.window(table.point_views(), pre)(i as int)),
        effect_holds(c0, *final(counter), then_all(repeat_effect(p, l.dbl_effect(), w as nat), seq![l.add_effect()])),
        final(pool).wf(),
        final(pool).deferred() == Seq::<Seq<Gate>>::empty(),
        final(pool).next() == old(pool).next(),
        final(pool).base() == old(pool).base(),
        final(pool).strat() == old(pool).strat(),
        final(pool).num_registers() == old(pool).num_registers(),
{
    let n = doubler.n;
    let ghost tv = table.point_views();
    let ghost cs = *counter;
    let ghost g0 = gates@;
    let ghost d = l.dbl_effect();
    let ghost a = l.add_effect();
    let ghost dblf = |j: int| l.dbl_block();
    let ghost dblt = |j: int| l.dbl_block();
    let ghost whole = l.window(tv, pre)(i as int);
    let ghost q = l.qrom(tv, i as int);
    proof {
        assert(whole == concat_map(dblt, 0, w as int) + q + l.add_block() + (first_only(pre, i as int)
            + q).reverse());
    }
    let lx = base;
    let ly = base + n;
    let ws = base + 2 * n;
    let tx = base + 12 * n + 2;
    let ty = base + 13 * n + 2;
    let ox = base + 14 * n + 2;
    let oy = base + 15 * n + 2;
    let mut j: usize = 0;
    while j < w
        invariant
            j <= w,
            l.fits(0),
            l.n == n,
            l.w == w,
            l.px == px,
            l.py == py,
            l.lx() == lx,
            l.ly() == ly,
            l.ws() == ws,
            l.tx() == tx,
            l.ty() == ty,
            l.n == doubler.n,
            dblf == (|j: int| l.dbl_block()),
            dblt == (|j: int| l.dbl_block()),
            d == l.dbl_effect(),
            a == l.add_effect(),
            effect_wf(p),
            effect_wf(d),
            effect_wf(a),
            effect_fits(c0, t),
            effect_le(then_all(repeat_effect(p, d, w as nat), seq![a]), t),
            whole == concat_map(dblt, 0, w as int) + q + l.add_block() + (first_only(pre, i as int) + q).reverse(),
            gate_room(cs, whole.len() as int),
            gates@ == g0 + concat_map(dblf, 0, j as int),
            gates_recorded(cs, *counter, concat_map(dblt, 0, j as int)),
            effect_holds(c0, *counter, repeat_effect(p, d, j as nat)),
        decreases w - j,
    {
        proof {
            lemma_concat_map_prefix(dblt, 0, j as int, w as int);
            lemma_concat_map_prefix(dblf, 0, j as int, w as int);
            lemma_room_left(cs, *counter, concat_map(dblt, 0, j as int), whole.len() as int, l.dbl_block().len() as int);
            lemma_repeat_grows(p, d, j as nat, w as nat);
            lemma_repeat_grows(p, d, (j + 1) as nat, w as nat);
            lemma_then_all_grows(repeat_effect(p, d, w as nat), seq![a], 0);
            assert(repeat_effect(p, d, (j + 1) as nat) == then_effect(repeat_effect(p, d, j as nat), d));
            lemma_fits_next(c0, *counter, repeat_effect(p, d, j as nat), d, t);
        }
        let ghost c1 = *counter;
        sm_double_step(Ghost(l), doubler, gates, counter, px, py, tx, ty, ws);
        proof {
            lemma_gates_recorded_concat(cs, c1, *counter, concat_map(dblt, 0, j as int), dblt(j as int));
            lemma_effect_step(c0, c1, *counter, repeat_effect(p, d, j as nat), d);
        }
        j = j + 1;
    }
    let ghost c2 = *counter;
    let ghost pd = repeat_effect(p, d, w as nat);
    let ghost dbls = concat_map(dblt, 0, w as int);
    proof {
        lemma_room_left(cs, c2, dbls, whole.len() as int, q.len() as int);
        assert(sro + i * w + w <= usize::MAX) by (nonlinear_arith)
            requires
                sro + (i + 1) * w <= usize::MAX,
        ;
    }
    let window_start = sro + i * w;
    let mut qrom: Vec<Gate> = Vec::new();
    append_qrom_affine(&mut qrom, counter, table, window_start, w, n, ws, lx, ly);
    proof {
        assert(qrom@ =~= q);
    }
    append_copy_of(gates, &qrom);
    let ghost old_def = pool.deferred();
    pool.record_for_uncompute(qrom);
    let ghost c3 = *counter;
    proof {
        lemma_gates_recorded_concat(cs, c2, c3, dbls, q);
        crate::reversible::resource_counter::lemma_effect_then_unchanged(c0, c2, c3, pd.0, pd.1, pd.2, pd.3);
        lemma_room_left(cs, c3, dbls + q, whole.len() as int, l.add_block().len() as int);
        lemma_repeat_grows(p, d, w as nat, w as nat);
        lemma_then_all_grows(pd, seq![a], 1);
        lemma_then_all_one(pd, a);
        lemma_fits_next(c0, c3, pd, a, t);
    }
    sm_add_step(Ghost(l), adder, gates, counter, px, py, lx, ly, ox, oy, ws);
    let ghost c4 = *counter;
    proof {
        lemma_gates_recorded_concat(cs, c3, c4, dbls + q, l.add_block());
        lemma_effect_step(c0, c3, c4, pd, a);
        assert(pool.deferred().drop_last() =~= old_def);
        assert(flatten(pool.deferred()) == first_only(pre, i as int) + q);
        lemma_room_left(cs, c4, dbls + q + l.add_block(), whole.len() as int, (first_only(pre, i as int) + q).len() as int);
    }
    let un = pool.flush_uncompute(counter);
    append_copy_of(gates, &un);
    proof {
        lemma_gates_recorded_concat(cs, c4, *counter, dbls + q + l.add_block(), un@);
        crate::reversible::resource_counter::lemma_effect_then_unchanged(
            c0,
            c4,
            *counter,
            then_effect(pd, a).0,
            then_effect(pd, a).1,
            then_effect(pd, a).2,
            then_effect(pd, a).3,
        );
        assert(gates@ =~= g0 + l.window(tv, pre)(i as int));
        assert(dbls + q + l.add_block() + un@ =~= whole);
    }
}

impl WindowedScalarMul {
    /// The register layout for the given offsets, with the ancilla
    /// registers handed out from `base`.
    pub open spec fn layout(&self, sro: int, px: int, py: int, base: int, curve: CurveParams) -> SmLayout {
        SmLayout { n: curve.field_bits as int, w: self.window_size as int, sro, px, py, base }
    }

    /// The full gate sequence of the windowed scalar multiplication by the
    /// scalar register, into the accumulator (x, y).
    ///
    /// Seven ancilla registers are taken from the pool (lookup x and y,
    /// a workspace of 10n + 2 qubits, the doubling results and the addition
    /// results).  Each window emits w doublings (each swapped back into the
    /// accumulator), the table lookup of [window]G, the addition of the
    /// looked-up point (swapped back), and the reversed lookup; the first
    /// window also reverses whatever the pool had deferred before.
    pub fn forward_gates(
        &self,
        scalar_reg_offset: usize,
        point_x_offset: usize,
        point_y_offset: usize,
        ancilla_pool: &mut AncillaPool,
        counter: &mut ResourceCounter,
        curve: &CurveParams,
    ) -> (r: Vec<Gate>)
        requires
            self.window_size > 0,
            self.window_size < usize::BITS,
            curve.field_bits <= 64,
            old(ancilla_pool).wf(),
            self.layout(
                scalar_reg_offset as int,
                point_x_offset as int,
                point_y_offset as int,
                old(ancilla_pool).next() as int,
                *curve,
            ).fits(self.scalar_bits as int),
            gate_room(
                *old(counter),
                self.layout(
                    scalar_reg_offset as int,
                    point_x_offset as int,
                    point_y_offset as int,
                    old(ancilla_pool).next() as int,
                    *curve,
                ).gates(
                    multiples(curve.generator@, curve.a@, pow2(self.window_size as nat)),
                    flatten(old(ancilla_pool).deferred()),
                    (self.scalar_bits / self.window_size) as int,
                ).len() as int,
            ),
            effect_fits(
                *old(counter),
                self.layout(
                    scalar_reg_offset as int,
                    point_x_offset as int,
                    point_y_offset as int,
                    old(ancilla_pool).next() as int,
                    *curve,
                ).effect((self.scalar_bits / self.window_size) as int),
            ),
        ensures
            r@ == self.layout(
                scalar_reg_offset as int,
                point_x_offset as int,
                point_y_offset as int,
                old(ancilla_pool).next() as int,
                *curve,
            ).gates(
                multiples(curve.generator@, curve.a@, pow2(self.window_size as nat)),
                flatten(old(ancilla_pool).deferred()),
                (self.scalar_bits / self.window_size) as int,
            ),
            gates_recorded(
                *old(counter),
                *final(counter),
                self.layout(
                    scalar_reg_offset as int,
                    point_x_offset as int,
                    point_y_offset as int,
                    old(ancilla_pool).next() as int,
                    *curve,
                ).gates(
                    multiples(curve.generator@, curve.a@, pow2(self.window_size as nat)),
                    flatten(old(ancilla_pool).deferred()),
                    (self.scalar_bits / self.window_size) as int,
                ),
            ),
            effect_holds(
                *old(counter),
                *final(counter),
                self.layout(
                    scalar_reg_offset as int,
                    point_x_offset as int,
                    point_y_offset as int,
                    old(ancilla_pool).next() as int,
                    *curve,
                ).effect((self.scalar_bits / self.window_size) as int),
            ),
            final(ancilla_pool).wf(),
            final(ancilla_pool).next() == old(ancilla_pool).next() + 16 * curve.field_bits + 2,
            final(ancilla_pool).base() == old(ancilla_pool).base(),
            final(ancilla_pool).strat() == old(ancilla_pool).strat(),
            final(ancilla_pool).num_registers() == old(ancilla_pool).num_registers() + 7,
            final(ancilla_pool).deferred() == if self.scalar_bits / self.window_size == 0 {
                old(ancilla_pool).deferred()
            } else {
                Seq::<Seq<Gate>>::empty()
            },
    {
        let n = curve.field_bits;
        let num_windows = self.num_windows();
        let w = self.window_size;
        let ghost c0 = *counter;
        let ghost l = self.layout(
            scalar_reg_offset as int,
            point_x_offset as int,
            point_y_offset as int,
            ancilla_pool.next() as int,
            *curve,
        );
        let ghost pre = flatten(ancilla_pool.deferred());
        let ghost old_def = ancilla_pool.deferred();
        let ghost total = l.effect(num_windows as int);
        let ghost start = alloc_effect(l.allocated());
        let ghost d = l.dbl_effect();
        let ghost a = l.add_effect();
        proof {
            lemma_ws_effect_wf(l.dbl_ctx(), l.dbl_ops(), 10 * l.n + 3);
            lemma_ws_effect_wf(l.add_ctx(), l.add_ops(), 9 * l.n + 2);
            lemma_rounds_grow(start, d, seq![a], w as nat, 0, num_windows as nat);
            assert(effect_fits(c0, start));
        }
        let lookup_x = take_register(ancilla_pool, "lookup_x", n, counter, Ghost(c0), Ghost(0), Ghost(l.allocated()));
        let base = lookup_x;
        let lookup_y = take_register(ancilla_pool, "lookup_y", n, counter, Ghost(c0), Ghost(n as int), Ghost(l.allocated()));
        let ec_workspace = take_register(
            ancilla_pool,
            "ec_workspace",
            10 * n + 2,
            counter,
            Ghost(c0),
            Ghost(2 * n),
            Ghost(l.allocated()),
        );
        let dbl_temp_x = take_register(
            ancilla_pool,
            "dbl_temp_x",
            n,
            counter,
            Ghost(c0),
            Ghost(12 * n + 2),
            Ghost(l.allocated()),
        );
        let dbl_temp_y = take_register(
            ancilla_pool,
            "dbl_temp_y",
            n,
            counter,
            Ghost(c0),
            Ghost(13 * n + 2),
            Ghost(l.allocated()),
        );
        let ec_add_out_x = take_register(
            ancilla_pool,
            "ec_add_out_x",
            n,
            counter,
            Ghost(c0),
            Ghost(14 * n + 2),
            Ghost(l.allocated()),
        );
        let ec_add_out_y = take_register(
            ancilla_pool,
            "ec_add_out_y",
            n,
            counter,
            Ghost(c0),
            Ghost(15 * n + 2),
            Ghost(l.allocated()),
        );
        let ghost c1 = *counter;
        proof {
            assert(gates_recorded(c0, c1, Seq::empty()));
            assert(lookup_x == base && ec_workspace == base + 2 * n);
        }
        let precomp = PrecomputeTable::generate_for_point(curve, &curve.generator, w);
        let doubler = ReversibleEcDouble::new(n);
        let adder = ReversibleEcAdd::new(n);
        let ghost tv = precomp.point_views();
        let ghost whole = l.gates(tv, pre, num_windows as int);
        let ghost winf = l.window(tv, pre);
        let ghost wint = l.window(tv, pre);
        let mut gates: Vec<Gate> = Vec::new();
        proof {
            lemma_room_left(c0, c1, Seq::empty(), whole.len() as int, whole.len() as int);
            assert(num_windows * w <= self.scalar_bits) by (nonlinear_arith)
                requires
                    num_windows == self.scalar_bits / w,
                    w > 0,
            ;
            assert(concat_map(winf, 0, 0) =~= Seq::<Gate>::empty());
            assert(concat_map(wint, 0, 0) =~= Seq::<Gate>::empty());
        }
        let mut i: usize = 0;
        while i < num_windows
            invariant
                i <= num_windows,
                num_windows == self.scalar_bits / w,
                num_windows * w <= self.scalar_bits,
                w == self.window_size,
                w > 0,
                w < usize::BITS,
                n == curve.field_bits,
                n <= 64,
                l == self.layout(
                    scalar_reg_offset as int,
                    point_x_offset as int,
                    point_y_offset as int,
                    base as int,
                    *curve,
                ),
                l.fits(self.scalar_bits as int),
                doubler.n == n,
                adder.n == n,
                tv == precomp.point_views(),
                winf == l.window(tv, pre),
                wint == l.window(tv, pre),
                whole == concat_map(wint, 0, num_windows as int),
                total == l.effect(num_windows as int),
                start == alloc_effect(l.allocated()),
                d == l.dbl_effect(),
                a == l.add_effect(),
                effect_wf(d),
                effect_wf(a),
                effect_fits(c0, total),
                gate_room(c1, whole.len() as int),
                gates@ == concat_map(winf, 0, i as int),
                gates_recorded(c1, *counter, concat_map(wint, 0, i as int)),
                gates_recorded(c0, c1, Seq::empty()),
                effect_holds(c0, *counter, l.effect(i as int)),
                ancilla_pool.wf(),
                ancilla_pool.next() == base + 16 * n + 2,
                ancilla_pool.base() == old(ancilla_pool).base(),
                ancilla_pool.strat() == old(ancilla_pool).strat(),
                ancilla_pool.num_registers() == old(ancilla_pool).num_registers() + 7,
                ancilla_pool.deferred() == if i == 0 {
                    old_def
                } else {
                    Seq::<Seq<Gate>>::empty()
                },
                pre == flatten(old_def),
            decreases num_windows - i,
        {
            proof {
                lemma_concat_map_prefix(wint, 0, i as int, num_windows as int);
                lemma_concat_map_prefix(winf, 0, i as int, num_windows as int);
                lemma_room_left(c1, *counter, concat_map(wint, 0, i as int), whole.len() as int, wint(i as int).len() as int);
                lemma_rounds_grow(start, d, seq![a], w as nat, i as nat, num_windows as nat);
                lemma_rounds_grow(start, d, seq![a], w as nat, (i + 1) as nat, num_windows as nat);
                assert(l.effect((i + 1) as int) == then_all(repeat_effect(l.effect(i as int), d, w as nat), seq![a]));
                if i > 0 {
                    assert(flatten(Seq::<Seq<Gate>>::empty()) =~= Seq::<Gate>::empty());
                }
                assert((i + 1) * w <= num_windows * w) by (nonlinear_arith)
                    requires
                        i + 1 <= num_windows,
                        w > 0,
                ;
            }
            let ghost c2 = *counter;
            sm_run_window(
                Ghost(l),
                Ghost(pre),
                Ghost(c0),
                Ghost(l.effect(i as int)),
                Ghost(total),
                &doubler,
                &adder,
                &precomp,
                i,
                &mut gates,
                ancilla_pool,
                counter,
                scalar_reg_offset,
                point_x_offset,
                point_y_offset,
                w,
                base,
            );
            proof {
                lemma_gates_recorded_concat(c1, c2, *counter, concat_map(wint, 0, i as int), wint(i as int));
            }
            i = i + 1;
        }
        proof {
            lemma_gates_recorded_concat(c0, c1, *counter, Seq::empty(), whole);
            assert(Seq::<Gate>::empty() + whole =~= whole);
        }
        gates
    }
}

} // verus!
