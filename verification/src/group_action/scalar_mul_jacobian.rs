//! Windowed scalar multiplication with the accumulator in Jacobian
//! coordinates: Jacobian doublings and mixed additions of the affine table
//! entries, with no inversion inside the loop.
use crate::ec::curve::{AffinePoint, CurveParams};
use crate::ec::ec_spec::SpecPoint;
use crate::group_action::precompute::{multiples, PrecomputeTable};
use crate::group_action::scalar_mul::{
    alloc_effect, bit_set, ec_part, first_only, lemma_ws_effect_wf, take_register, ws_effect,
};
use crate::group_action::window_effects::{
    effect_fits, effect_holds, effect_le, effect_wf, lemma_effect_step, lemma_fits_next,
    lemma_repeat_grows, lemma_rounds_grow, lemma_then_all_grows, lemma_then_all_one, repeat_effect,
    rounds_effect, then_all, then_effect,
};
use crate::reversible::adder::{cnot, toffoli};
use crate::reversible::ancilla::{flatten, AncillaPool};
use crate::reversible::blocks::{
    append_copy_of, append_swap, concat_map, lemma_block_lens, lemma_concat_map_prefix, swap_gates,
};
use crate::reversible::circuit_ops::{ctx_ok, ops_effect, ops_gates, CircOp, OpCtx};
use crate::reversible::ec_add_jacobian::{ec_add_jacobian_ctx, ec_add_jacobian_ops, ReversibleJacobianMixedAdd};
use crate::reversible::ec_double_jacobian::{
    ec_double_jacobian_ctx, ec_double_jacobian_ops, ReversibleJacobianDouble,
};
use crate::reversible::gates::{count_toffoli, lemma_counts_concat, Gate};
use crate::reversible::resource_counter::{
    emit, gate_room, gates_recorded, lemma_effect_then_unchanged, lemma_gates_recorded_concat,
    lemma_room_left, qubits_unchanged, ResourceCounter,
};
use vstd::arithmetic::power2::pow2;
use vstd::prelude::*;

verus! {

/// Windowed scalar multiplication in Jacobian projective coordinates.
///
/// The accumulator stays in Jacobian (X, Y, Z): w Jacobian doublings and one
/// mixed addition of the affine table entry per window.
pub struct WindowedScalarMulJacobian {
    /// Window size in bits.
    pub window_size: usize,
    /// Number of bits in the scalar.
    pub scalar_bits: usize,
}

/// The controlled flip of lookup bit `t`: a CNOT under the single window
/// bit, or a Toffoli under the first two window bits.
pub open spec fn load_gate(ws: int, w: int, t: int) -> Gate {
    if w == 1 {
        cnot(ws, t)
    } else {
        toffoli(ws, ws + 1, t)
    }
}

/// For output bit `b`, the loads of the set x and y coordinate bits.
pub open spec fn load_bit_step(x: int, y: int, ws: int, w: int, lx: int, ly: int) -> spec_fn(int) -> Seq<Gate> {
    |b: int|
        (if bit_set(x, b) {
            seq![load_gate(ws, w, lx + b)]
        } else {
            Seq::empty()
        }) + (if bit_set(y, b) {
            seq![load_gate(ws, w, ly + b)]
        } else {
            Seq::empty()
        })
}

/// The lookup gates of one entry (none for the point at infinity).
pub open spec fn qrom_entry_jac(p: SpecPoint, ws: int, w: int, n: int, lx: int, ly: int) -> Seq<Gate> {
    match p {
        None => Seq::empty(),
        Some((x, y)) => concat_map(load_bit_step(x, y, ws, w, lx, ly), 0, n),
    }
}

/// The table lookup: every entry's gates in index order.
pub open spec fn qrom_jac(table: Seq<SpecPoint>, ws: int, w: int, n: int, lx: int, ly: int) -> Seq<Gate> {
    concat_map(|e: int| qrom_entry_jac(table[e], ws, w, n, lx, ly), 0, table.len() as int)
}

/// Appends the lookup gates of one entry.
fn append_qrom_entry_jac(
    gates: &mut Vec<Gate>,
    counter: &mut ResourceCounter,
    p: &AffinePoint,
    ws: usize,
    w: usize,
    n: usize,
    lx: usize,
    ly: usize,
)
    requires
        w >= 1,
        ws + w <= usize::MAX,
        n <= 64,
        lx + n <= usize::MAX,
        ly + n <= usize::MAX,
        gate_room(*old(counter), qrom_entry_jac(p@, ws as int, w as int, n as int, lx as int, ly as int).len() as int),
    ensures
        final(gates)@ == old(gates)@ + qrom_entry_jac(p@, ws as int, w as int, n as int, lx as int, ly as int),
        gates_recorded(*old(counter), *final(counter), qrom_entry_jac(p@, ws as int, w as int, n as int, lx as int, ly as int)),
        qubits_unchanged(*old(counter), *final(counter)),
{
    let ghost c0 = *counter;
    let ghost g0 = gates@;
    let ghost entry = qrom_entry_jac(p@, ws as int, w as int, n as int, lx as int, ly as int);
    match p {
        AffinePoint::Infinity => {
            proof {
                assert(gates@ =~= g0 + entry);
            }
        },
        AffinePoint::Finite { x, y } => {
            let xv = x.to_canonical();
            let yv = y.to_canonical();
            let ghost f = load_bit_step(x@, y@, ws as int, w as int, lx as int, ly as int);
            let mut b: usize = 0;
            while b < n
                invariant
                    b <= n,
                    n <= 64,
                    w >= 1,
                    ws + w <= usize::MAX,
                    lx + n <= usize::MAX,
                    ly + n <= usize::MAX,
                    xv as int == x@,
                    yv as int == y@,
                    f == load_bit_step(x@, y@, ws as int, w as int, lx as int, ly as int),
                    entry == concat_map(f, 0, n as int),
                    gate_room(c0, entry.len() as int),
                    gates@ == g0 + concat_map(f, 0, b as int),
                    gates_recorded(c0, *counter, concat_map(f, 0, b as int)),
                    qubits_unchanged(c0, *counter),
                decreases n - b,
            {
                proof {
                    lemma_concat_map_prefix(f, 0, b as int, n as int);
                }
                let ghost cb = *counter;
                let ghost gb = gates@;
                let ghost xpart = if bit_set(x@, b as int) {
                    seq![load_gate(ws as int, w as int, lx + b)]
                } else {
                    Seq::empty()
                };
                let ghost ypart = if bit_set(y@, b as int) {
                    seq![load_gate(ws as int, w as int, ly + b)]
                } else {
                    Seq::empty()
                };
                proof {
                    assert(f(b as int) == xpart + ypart);
                    lemma_room_left(c0, cb, concat_map(f, 0, b as int), entry.len() as int, (xpart + ypart).len() as int);
                }
                if (xv >> (b as u64)) & 1 == 1 {
                    let g = if w == 1 {
                        Gate::Cnot { control: ws, target: lx + b }
                    } else {
                        Gate::Toffoli { control1: ws, control2: ws + 1, target: lx + b }
                    };
                    emit(gates, counter, g);
                } else {
                    proof {
                        assert(gates@ =~= gb + xpart);
                    }
                }
                let ghost cx = *counter;
                proof {
                    lemma_room_left(cb, cx, xpart, (xpart + ypart).len() as int, ypart.len() as int);
                }
                if (yv >> (b as u64)) & 1 == 1 {
                    let g = if w == 1 {
                        Gate::Cnot { control: ws, target: ly + b }
                    } else {
                        Gate::Toffoli { control1: ws, control2: ws + 1, target: ly + b }
                    };
                    emit(gates, counter, g);
                } else {
                    proof {
                        assert(gates@ =~= gb + xpart + ypart);
                    }
                }
                proof {
                    lemma_gates_recorded_concat(cb, cx, *counter, xpart, ypart);
                    lemma_gates_recorded_concat(c0, cb, *counter, concat_map(f, 0, b as int), xpart + ypart);
                    assert(gates@ =~= g0 + concat_map(f, 0, b + 1));
                }
                b = b + 1;
            }
        },
    }
}

/// Appends the lookup gates of the whole table.
pub(crate) fn append_qrom_jac(
    gates: &mut Vec<Gate>,
    counter: &mut ResourceCounter,
    table: &PrecomputeTable,
    ws: usize,
    w: usize,
    n: usize,
    lx: usize,
    ly: usize,
)
    requires
        w >= 1,
        ws + w <= usize::MAX,
        n <= 64,
        lx + n <= usize::MAX,
        ly + n <= usize::MAX,
        gate_room(*old(counter), qrom_jac(table.point_views(), ws as int, w as int, n as int, lx as int, ly as int).len() as int),
    ensures
        final(gates)@ == old(gates)@ + qrom_jac(table.point_views(), ws as int, w as int, n as int, lx as int, ly as int),
        gates_recorded(
            *old(counter),
            *final(counter),
            qrom_jac(table.point_views(), ws as int, w as int, n as int, lx as int, ly as int),
        ),
        qubits_unchanged(*old(counter), *final(counter)),
{
    let ghost c0 = *counter;
    let ghost g0 = gates@;
    let ghost tv = table.point_views();
    let ghost f = |e: int| qrom_entry_jac(tv[e], ws as int, w as int, n as int, lx as int, ly as int);
    let ghost total = qrom_jac(tv, ws as int, w as int, n as int, lx as int, ly as int);
    let mut e: usize = 0;
    while e < table.len()
        invariant
            e <= tv.len(),
            tv == table.point_views(),
            tv.len() == table.points@.len(),
            w >= 1,
            ws + w <= usize::MAX,
            n <= 64,
            lx + n <= usize::MAX,
            ly + n <= usize::MAX,
            f == (|e: int| qrom_entry_jac(tv[e], ws as int, w as int, n as int, lx as int, ly as int)),
            total == concat_map(f, 0, tv.len() as int),
            gate_room(c0, total.len() as int),
            gates@ == g0 + concat_map(f, 0, e as int),
            gates_recorded(c0, *counter, concat_map(f, 0, e as int)),
            qubits_unchanged(c0, *counter),
        decreases tv.len() - e,
    {
        proof {
            lemma_concat_map_prefix(f, 0, e as int, tv.len() as int);
            lemma_room_left(c0, *counter, concat_map(f, 0, e as int), total.len() as int, f(e as int).len() as int);
        }
        let p = table.lookup(e);
        let ghost c1 = *counter;
        append_qrom_entry_jac(gates, counter, p, ws, w, n, lx, ly);
        proof {
            assert(tv[e as int] == p@);
            lemma_gates_recorded_concat(c0, c1, *counter, concat_map(f, 0, e as int), f(e as int));
            assert(gates@ =~= g0 + concat_map(f, 0, e + 1));
        }
        e = e + 1;
    }
}

/// Register layout of the Jacobian multiplier: field width n, window w,
/// the scalar register at `sro`, the accumulator at (`px`, `py`, `pz`), and
/// from `base` on the lookup x and y, the temporaries X, Y, Z and the
/// workspace.
pub struct JacLayout {
    pub n: int,
    pub w: int,
    pub sro: int,
    pub px: int,
    pub py: int,
    pub pz: int,
    pub base: int,
}

impl JacLayout {
    pub open spec fn lx(self) -> int {
        self.base
    }

    pub open spec fn ly(self) -> int {
        self.base + self.n
    }

    pub open spec fn tx(self) -> int {
        self.base + 2 * self.n
    }

    pub open spec fn ty(self) -> int {
        self.base + 3 * self.n
    }

    pub open spec fn tz(self) -> int {
        self.base + 4 * self.n
    }

    pub open spec fn ws(self) -> int {
        self.base + 5 * self.n
    }

    /// Qubits handed out from the pool.
    pub open spec fn allocated(self) -> int {
        18 * self.n + 1
    }

    pub open spec fn dbl_ctx(self) -> OpCtx {
        ec_double_jacobian_ctx(self.n, self.ws())
    }

    pub open spec fn dbl_ops(self) -> Seq<CircOp> {
        ec_double_jacobian_ops(self.n, self.px, self.py, self.pz, self.tx(), self.ty(), self.tz(), self.ws())
    }

    pub open spec fn add_ctx(self) -> OpCtx {
        ec_add_jacobian_ctx(self.n, self.ws())
    }

    pub open spec fn add_ops(self) -> Seq<CircOp> {
        ec_add_jacobian_ops(
            self.n,
            self.px,
            self.py,
            self.pz,
            self.lx(),
            self.ly(),
            self.tx(),
            self.ty(),
            self.tz(),
            self.ws(),
        )
    }

    /// The temporaries swapped back into the accumulator.
    pub open spec fn swap_back(self) -> Seq<Gate> {
        swap_gates(self.tx(), self.px, self.n) + swap_gates(self.ty(), self.py, self.n) + swap_gates(
            self.tz(),
            self.pz,
            self.n,
        )
    }

    pub open spec fn dbl_block(self) -> Seq<Gate> {
        ec_part(self.dbl_ctx(), self.dbl_ops()) + self.swap_back()
    }

    pub open spec fn add_block(self) -> Seq<Gate> {
        ec_part(self.add_ctx(), self.add_ops()) + self.swap_back()
    }

    pub open spec fn qrom(self, table: Seq<SpecPoint>, i: int) -> Seq<Gate> {
        qrom_jac(table, self.sro + i * self.w, self.w, self.n, self.lx(), self.ly())
    }

    /// The doublings of one window.
    pub open spec fn dbl_part(self) -> Seq<Gate> {
        concat_map(|j: int| self.dbl_block(), 0, self.w)
    }

    /// The lookup of window `i` and its uncomputation.
    pub open spec fn qrom_part(self, table: Seq<SpecPoint>, pre: Seq<Gate>, i: int) -> Seq<Gate> {
        self.qrom(table, i) + (first_only(pre, i) + self.qrom(table, i)).reverse()
    }

    /// Window `i`: w doublings, the lookup, the mixed addition, and the
    /// reversed lookup (after any gates deferred before the first window).
    pub open spec fn window(self, table: Seq<SpecPoint>, pre: Seq<Gate>) -> spec_fn(int) -> Seq<Gate> {
        |i: int|
            concat_map(|j: int| self.dbl_block(), 0, self.w) + self.qrom(table, i) + self.add_block() + (
            first_only(pre, i) + self.qrom(table, i)).reverse()
    }

    pub open spec fn gates(self, table: Seq<SpecPoint>, pre: Seq<Gate>, windows: int) -> Seq<Gate> {
        concat_map(self.window(table, pre), 0, windows)
    }

    pub open spec fn dbl_effect(self) -> (int, int, int, int) {
        ws_effect(14 * self.n + 2, ops_effect(self.dbl_ctx(), self.dbl_ops()))
    }

    pub open spec fn add_effect(self) -> (int, int, int, int) {
        ws_effect(13 * self.n + 2, ops_effect(self.add_ctx(), self.add_ops()))
    }

    pub open spec fn effect(self, windows: int) -> (int, int, int, int) {
        rounds_effect(
            alloc_effect(self.allocated()),
            self.dbl_effect(),
            seq![self.add_effect()],
            self.w as nat,
            windows as nat,
        )
    }

    pub open spec fn fits(self, scalar_bits: int) -> bool {
        &&& self.n >= 0
        &&& self.w >= 1
        &&& self.sro >= 0
        &&& self.px >= 0
        &&& self.py >= 0
        &&& self.pz >= 0
        &&& self.base >= 0
        &&& self.sro + scalar_bits <= usize::MAX
        &&& self.px + self.n <= usize::MAX
        &&& self.py + self.n <= usize::MAX
        &&& self.pz + self.n <= usize::MAX
        &&& self.base + 19 * self.n + 2 <= usize::MAX
        &&& ctx_ok(self.dbl_ctx())
        &&& ctx_ok(self.add_ctx())
    }
}

/// Appends the swaps of the temporaries back into the accumulator.
fn jac_swap_back(
    Ghost(l): Ghost<JacLayout>,
    gates: &mut Vec<Gate>,
    counter: &mut ResourceCounter,
    px: usize,
    py: usize,
    pz: usize,
    tx: usize,
    ty: usize,
    tz: usize,
    n: usize,
)
    requires
        l.fits(0),
        l.n == n,
        l.px == px,
        l.py == py,
        l.pz == pz,
        l.tx() == tx,
        l.ty() == ty,
        l.tz() == tz,
        gate_room(*old(counter), 9 * n),
    ensures
        final(gates)@ == old(gates)@ + l.swap_back(),
        gates_recorded(*old(counter), *final(counter), l.swap_back()),
        qubits_unchanged(*old(counter), *final(counter)),
        l.swap_back().len() == 9 * n,
{
    let ghost c0 = *counter;
    let ghost g0 = gates@;
    let ghost s1 = swap_gates(l.tx(), l.px, l.n);
    let ghost s2 = swap_gates(l.ty(), l.py, l.n);
    let ghost s3 = swap_gates(l.tz(), l.pz, l.n);
    proof {
        lemma_block_lens(l.tx(), l.px, 0, l.n);
        lemma_block_lens(l.ty(), l.py, 0, l.n);
        lemma_block_lens(l.tz(), l.pz, 0, l.n);
    }
    append_swap(gates, counter, tx, px, n);
    let ghost c1 = *counter;
    proof {
        lemma_room_left(c0, c1, s1, 9 * n, 3 * n);
    }
    append_swap(gates, counter, ty, py, n);
    let ghost c2 = *counter;
    proof {
        lemma_gates_recorded_concat(c0, c1, c2, s1, s2);
        lemma_room_left(c0, c2, s1 + s2, 9 * n, 3 * n);
    }
    append_swap(gates, counter, tz, pz, n);
    proof {
        lemma_gates_recorded_concat(c0, c2, *counter, s1 + s2, s3);
        assert(gates@ =~= g0 + l.swap_back());
    }
}

/// One Jacobian doubling, swapped back into the accumulator.
fn jac_double_step(
    Ghost(l): Ghost<JacLayout>,
    doubler: &ReversibleJacobianDouble,
    gates: &mut Vec<Gate>,
    counter: &mut ResourceCounter,
    px: usize,
    py: usize,
    pz: usize,
    tx: usize,
    ty: usize,
    tz: usize,
    ws: usize,
)
    requires
        l.fits(0),
        l.n == doubler.n,
        l.px == px,
        l.py == py,
        l.pz == pz,
        l.tx() == tx,
        l.ty() == ty,
        l.tz() == tz,
        l.ws() == ws,
        gate_room(*old(counter), l.dbl_block().len() as int),
        effect_fits(*old(counter), l.dbl_effect()),
    ensures
        final(gates)@ == old(gates)@ + l.dbl_block(),
        gates_recorded(*old(counter), *final(counter), l.dbl_block()),
        effect_holds(*old(counter), *final(counter), l.dbl_effect()),
{
    let n = doubler.n;
    let ghost c0 = *counter;
    let ghost g0 = gates@;
    let ghost ec = ops_gates(l.dbl_ctx(), l.dbl_ops());
    proof {
        lemma_ws_effect_wf(l.dbl_ctx(), l.dbl_ops(), 14 * l.n + 2);
        lemma_block_lens(l.tx(), l.px, 0, l.n);
        lemma_block_lens(l.ty(), l.py, 0, l.n);
        lemma_block_lens(l.tz(), l.pz, 0, l.n);
        lemma_room_left(c0, c0, Seq::empty(), l.dbl_block().len() as int, ec.len() as int);
    }
    let dbl = doubler.forward_gates(px, py, pz, tx, ty, tz, ws, counter);
    append_copy_of(gates, &dbl);
    let ghost c1 = *counter;
    proof {
        lemma_room_left(c0, c1, ec, l.dbl_block().len() as int, 9 * n);
    }
    jac_swap_back(Ghost(l), gates, counter, px, py, pz, tx, ty, tz, n);
    proof {
        lemma_gates_recorded_concat(c0, c1, *counter, ec, l.swap_back());
        lemma_effect_then_unchanged(
            c0,
            c1,
            *counter,
            l.dbl_effect().0,
            l.dbl_effect().1,
            l.dbl_effect().2,
            l.dbl_effect().3,
        );
        assert(gates@ =~= g0 + l.dbl_block());
    }
}

/// The mixed addition of the looked-up point, swapped back.
fn jac_add_step(
    Ghost(l): Ghost<JacLayout>,
    adder: &ReversibleJacobianMixedAdd,
    gates: &mut Vec<Gate>,
    counter: &mut ResourceCounter,
    px: usize,
    py: usize,
    pz: usize,
    lx: usize,
    ly: usize,
    tx: usize,
    ty: usize,
    tz: usize,
    ws: usize,
)
    requires
        l.fits(0),
        l.n == adder.n,
        l.px == px,
        l.py == py,
        l.pz == pz,
        l.lx() == lx,
        l.ly() == ly,
        l.tx() == tx,
        l.ty() == ty,
        l.tz() == tz,
        l.ws() == ws,
        gate_room(*old(counter), l.add_block().len() as int),
        effect_fits(*old(counter), l.add_effect()),
    ensures
        final(gates)@ == old(gates)@ + l.add_block(),
        gates_recorded(*old(counter), *final(counter), l.add_block()),
        effect_holds(*old(counter), *final(counter), l.add_effect()),
{
    let n = adder.n;
    let ghost c0 = *counter;
    let ghost g0 = gates@;
    let ghost ec = ops_gates(l.add_ctx(), l.add_ops());
    proof {
        lemma_ws_effect_wf(l.add_ctx(), l.add_ops(), 13 * l.n + 2);
        lemma_block_lens(l.tx(), l.px, 0, l.n);
        lemma_block_lens(l.ty(), l.py, 0, l.n);
        lemma_block_lens(l.tz(), l.pz, 0, l.n);
        lemma_room_left(c0, c0, Seq::empty(), l.add_block().len() as int, ec.len() as int);
    }
    let add = adder.forward_gates(px, py, pz, lx, ly, tx, ty, tz, ws, counter);
    append_copy_of(gates, &add);
    let ghost c1 = *counter;
    proof {
        lemma_room_left(c0, c1, ec, l.add_block().len() as int, 9 * n);
    }
    jac_swap_back(Ghost(l), gates, counter, px, py, pz, tx, ty, tz, n);
    proof {
        lemma_gates_recorded_concat(c0, c1, *counter, ec, l.swap_back());
        lemma_effect_then_unchanged(
            c0,
            c1,
            *counter,
            l.add_effect().0,
            l.add_effect().1,
            l.add_effect().2,
            l.add_effect().3,
        );
        assert(gates@ =~= g0 + l.add_block());
    }
}

/// One window: w Jacobian doublings, the table lookup, the mixed addition,
/// and the uncomputation of the lookup.
#[verifier::rlimit(80)]
#[verifier::spinoff_prover]
fn jac_run_window(
    Ghost(l): Ghost<JacLayout>,
    Ghost(pre): Ghost<Seq<Gate>>,
    Ghost(c0): Ghost<ResourceCounter>,
    Ghost(p): Ghost<(int, int, int, int)>,
    Ghost(t): Ghost<(int, int, int, int)>,
    doubler: &ReversibleJacobianDouble,
    adder: &ReversibleJacobianMixedAdd,
    table: &PrecomputeTable,
    i: usize,
    gates: &mut Vec<Gate>,
    pool: &mut AncillaPool,
    counter: &mut ResourceCounter,
    sro: usize,
    px: usize,
    py: usize,
    pz: usize,
    w: usize,
    base: usize,
) -> (r: (usize, usize, usize))
    requires
        l.fits(0),
        l.n <= 64,
        l.base == base,
        l.w == w,
        w < usize::BITS,
        l.sro == sro,
        l.px == px,
        l.py == py,
        l.pz == pz,
        l.n == doubler.n,
        l.n == adder.n,
        sro + (i + 1) * w <= usize::MAX,
        old(pool).wf(),
        flatten(old(pool).deferred()) == first_only(pre, i as int),
        gate_room(*old(counter), l.window(table.point_views(), pre)(i as int).len() as int),
        effect_holds(c0, *old(counter), p),
        effect_wf(p),
        effect_wf(l.dbl_effect()),
        effect_wf(l.add_effect()),
        effect_fits(c0, t),
        effect_le(then_all(repeat_effect(p, l.dbl_effect(), w as nat), seq![l.add_effect()]), t),
    ensures
        final(gates)@ == old(gates)@ + l.window(table.point_views(), pre)(i as int),
        gates_recorded(*old(counter), *final(counter), l.window(table.point_views(), pre)(i as int)),
        effect_holds(c0, *final(counter), then_all(repeat_effect(p, l.dbl_effect(), w as nat), seq![l.add_effect()])),
        r.0 == count_toffoli(l.dbl_part()),
        r.1 == count_toffoli(l.qrom_part(table.point_views(), pre, i as int)),
        r.2 == count_toffoli(l.add_block()),
        count_toffoli(l.window(table.point_views(), pre)(i as int)) == r.0 + r.1 + r.2,
        final(pool).wf(),
        final(pool).deferred() == Seq::<Seq<Gate>>::empty(),
        final(pool).next() == old(pool).next(),
        final(pool).base() == old(pool).base(),
        final(pool).strat() == old(pool).strat(),
        final(pool).num_registers() == old(pool).num_registers(),
{
    let n = doubler.n;
    let ghost tv = table.point_views();
    let ghost cs = *counter;
    let ghost g0 = gates@;
    let ghost d = l.dbl_effect();
    let ghost a = l.add_effect();
    let ghost dblf = |j: int| l.dbl_block();
    let ghost dblt = |j: int| l.dbl_block();
    let ghost whole = l.window(tv, pre)(i as int);
    let ghost q = l.qrom(tv, i as int);
    proof {
        assert(whole == concat_map(dblt, 0, w as int) + q + l.add_block() + (first_only(pre, i as int)
            + q).reverse());
    }
    let lx = base;
    let ly = base + n;
    let tx = base + 2 * n;
    let ty = base + 3 * n;
    let tz = base + 4 * n;
    let ws = base + 5 * n;
    let t_before_dbl = counter.toffoli_count;
    let mut j: usize = 0;
    while j < w
        invariant
            j <= w,
            l.fits(0),
            l.n == n,
            l.w == w,
            l.px == px,
            l.py == py,
            l.pz == pz,
            l.lx() == lx,
            l.ly() == ly,
            l.ws() == ws,
            l.tx() == tx,
            l.ty() == ty,
            l.tz() == tz,
            l.n == doubler.n,
            dblf == (|j: int| l.dbl_block()),
            dblt == (|j: int| l.dbl_block()),
            d == l.dbl_effect(),
            a == l.add_effect(),
            effect_wf(p),
            effect_wf(d),
            effect_wf(a),
            effect_fits(c0, t),
            effect_le(then_all(repeat_effect(p, d, w as nat), seq![a]), t),
            whole == concat_map(dblt, 0, w as int) + q + l.add_block() + (first_only(pre, i as int) + q).reverse(),
            gate_room(cs, whole.len() as int),
            gates@ == g0 + concat_map(dblf, 0, j as int),
            gates_recorded(cs, *counter, concat_map(dblt, 0, j as int)),
            effect_holds(c0, *counter, repeat_effect(p, d, j as nat)),
        decreases w - j,
    {
        proof {
            lemma_concat_map_prefix(dblt, 0, j as int, w as int);
            lemma_concat_map_prefix(dblf, 0, j as int, w as int);
            lemma_room_left(cs, *counter, concat_map(dblt, 0, j as int), whole.len() as int, l.dbl_block().len() as int);
            lemma_repeat_grows(p, d, j as nat, w as nat);
            lemma_repeat_grows(p, d, (j + 1) as nat, w as nat);
            lemma_then_all_grows(repeat_effect(p, d, w as nat), seq![a], 0);
            assert(repeat_effect(p, d, (j + 1) as nat) == then_effect(repeat_effect(p, d, j as nat), d));
            lemma_fits_next(c0, *counter, repeat_effect(p, d, j as nat), d, t);
        }
        let ghost c1 = *counter;
        jac_double_step(Ghost(l), doubler, gates, counter, px, py, pz, tx, ty, tz, ws);
        proof {
            lemma_gates_recorded_concat(cs, c1, *counter, concat_map(dblt, 0, j as int), dblt(j as int));
            lemma_effect_step(c0, c1, *counter, repeat_effect(p, d, j as nat), d);
        }
        j = j + 1;
    }
    let t_after_dbl = counter.toffoli_count;
    let doubling_toffoli = t_after_dbl - t_before_dbl;
    let ghost c2 = *counter;
    let ghost pd = repeat_effect(p, d, w as nat);
    let ghost dbls = concat_map(dblt, 0, w as int);
    proof {
        lemma_room_left(cs, c2, dbls, whole.len() as int, q.len() as int);
        assert(sro + i * w + w <= usize::MAX) by (nonlinear_arith)
            requires
                sro + (i + 1) * w <= usize::MAX,
        ;
    }
    let window_start = sro + i * w;
    let mut qrom: Vec<Gate> = Vec::new();
    append_qrom_jac(&mut qrom, counter, table, window_start, w, n, lx, ly);
    proof {
        assert(qrom@ =~= q);
    }
    append_copy_of(gates, &qrom);
    let ghost old_def = pool.deferred();
    pool.record_for_uncompute(qrom);
    let t_after_qrom = counter.toffoli_count;
    let ghost c3 = *counter;
    proof {
        lemma_gates_recorded_concat(cs, c2, c3, dbls, q);
        lemma_effect_then_unchanged(c0, c2, c3, pd.0, pd.1, pd.2, pd.3);
        lemma_room_left(cs, c3, dbls + q, whole.len() as int, l.add_block().len() as int);
        lemma_repeat_grows(p, d, w as nat, w as nat);
        lemma_then_all_grows(pd, seq![a], 1);
        lemma_then_all_one(pd, a);
        lemma_fits_next(c0, c3, pd, a, t);
    }
    jac_add_step(Ghost(l), adder, gates, counter, px, py, pz, lx, ly, tx, ty, tz, ws);
    let t_after_add = counter.toffoli_count;
    let addition_toffoli = t_after_add - t_after_qrom;
    let ghost c4 = *counter;
    proof {
        lemma_gates_recorded_concat(cs, c3, c4, dbls + q, l.add_block());
        lemma_effect_step(c0, c3, c4, pd, a);
        assert(pool.deferred().drop_last() =~= old_def);
        assert(flatten(pool.deferred()) == first_only(pre, i as int) + q);
        lemma_room_left(cs, c4, dbls + q + l.add_block(), whole.len() as int, (first_only(pre, i as int) + q).len() as int);
    }
    let un = pool.flush_uncompute(counter);
    append_copy_of(gates, &un);
    let t_after_uncompute = counter.toffoli_count;
    proof {
        lemma_gates_recorded_concat(cs, c4, *counter, dbls + q + l.add_block(), un@);
        let unc = (first_only(pre, i as int) + q).reverse();
        assert(un@ == unc);
        assert(dbls == l.dbl_part());
        lemma_counts_concat(dbls, q);
        lemma_counts_concat(dbls + q, l.add_block());
        lemma_counts_concat(dbls + q + l.add_block(), unc);
        lemma_counts_concat(q, unc);
        lemma_effect_then_unchanged(
            c0,
            c4,
            *counter,
            then_effect(pd, a).0,
            then_effect(pd, a).1,
            then_effect(pd, a).2,
            then_effect(pd, a).3,
        );
        assert(gates@ =~= g0 + l.window(tv, pre)(i as int));
        assert(dbls + q + l.add_block() + un@ =~= whole);
    }
    let qrom_toffoli = (t_after_qrom - t_after_dbl) + (t_after_uncompute - t_after_add);
    (doubling_toffoli, qrom_toffoli, addition_toffoli)
}

impl WindowedScalarMulJacobian {
    /// A multiplier for `scalar_bits`-bit scalars in `window_size`-bit
    /// windows; the window size must divide the scalar width.
    pub fn new(window_size: usize, scalar_bits: usize) -> (r: Self)
        requires
            window_size > 0,
            scalar_bits % window_size == 0,
        ensures
            r.window_size == window_size,
            r.scalar_bits == scalar_bits,
    {
        Self { window_size, scalar_bits }
    }

    /// Number of windows to process.
    pub fn num_windows(&self) -> (r: usize)
        requires
            self.window_size > 0,
        ensures
            r == self.scalar_bits / self.window_size,
    {
        self.scalar_bits / self.window_size
    }
}

impl WindowedScalarMulJacobian {
    /// The register layout for the given offsets, with the ancilla
    /// registers handed out from `base`.
    pub open spec fn layout(&self, sro: int, px: int, py: int, pz: int, base: int, curve: CurveParams) -> JacLayout {
        JacLayout { n: curve.field_bits as int, w: self.window_size as int, sro, px, py, pz, base }
    }

    /// The full gate sequence of the windowed scalar multiplication by the
    /// scalar register, into the Jacobian accumulator (X, Y, Z).
    ///
    /// Six ancilla registers are taken from the pool (lookup x and y, the
    /// temporaries X, Y, Z and a workspace of 13n + 1 qubits).  Each window
    /// emits w Jacobian doublings (each swapped back into the accumulator),
    /// the table lookup of [window]G, the mixed addition (swapped back), and
    /// the reversed lookup; the first window also reverses whatever the pool
    /// had deferred before.  Also returns the Toffoli counts of the
    /// doublings, of the lookups with their uncomputation, and of the
    /// additions.
    #[verifier::rlimit(100)]
    #[verifier::spinoff_prover]
    pub fn forward_gates(
        &self,
        scalar_reg_offset: usize,
        point_x_offset: usize,
        point_y_offset: usize,
        point_z_offset: usize,
        ancilla_pool: &mut AncillaPool,
        counter: &mut ResourceCounter,
        curve: &CurveParams,
    ) -> (r: (Vec<Gate>, (usize, usize, usize)))
        requires
            self.window_size > 0,
            self.window_size < usize::BITS,
            curve.field_bits <= 64,
            old(ancilla_pool).wf(),
            self.layout(
                scalar_reg_offset as int,
                point_x_offset as int,
                point_y_offset as int,
                point_z_offset as int,
                old(ancilla_pool).next() as int,
                *curve,
            ).fits(self.scalar_bits as int),
            gate_room(
                *old(counter),
                self.layout(
                    scalar_reg_offset as int,
                    point_x_offset as int,
                    point_y_offset as int,
                    point_z_offset as int,
                    old(ancilla_pool).next() as int,
                    *curve,
                ).gates(
                    multiples(curve.generator@, curve.a@, pow2(self.window_size as nat)),
                    flatten(old(ancilla_pool).deferred()),
                    (self.scalar_bits / self.window_size) as int,
                ).len() as int,
            ),
            effect_fits(
                *old(counter),
                self.layout(
                    scalar_reg_offset as int,
                    point_x_offset as int,
                    point_y_offset as int,
                    point_z_offset as int,
                    old(ancilla_pool).next() as int,
                    *curve,
                ).effect((self.scalar_bits / self.window_size) as int),
            ),
        ensures
            r.0@ == self.layout(
                scalar_reg_offset as int,
                point_x_offset as int,
                point_y_offset as int,
                point_z_offset as int,
                old(ancilla_pool).next() as int,
                *curve,
            ).gates(
                multiples(curve.generator@, curve.a@, pow2(self.window_size as nat)),
                flatten(old(ancilla_pool).deferred()),
                (self.scalar_bits / self.window_size) as int,
            ),
            gates_recorded(
                *old(counter),
                *final(counter),
                self.layout(
                    scalar_reg_offset as int,
                    point_x_offset as int,
                    point_y_offset as int,
                    point_z_offset as int,
                    old(ancilla_pool).next() as int,
                    *curve,
                ).gates(
                    multiples(curve.generator@, curve.a@, pow2(self.window_size as nat)),
                    flatten(old(ancilla_pool).deferred()),
                    (self.scalar_bits / self.window_size) as int,
                ),
            ),
            effect_holds(
                *old(counter),
                *final(counter),
                self.layout(
                    scalar_reg_offset as int,
                    point_x_offset as int,
                    point_y_offset as int,
                    point_z_offset as int,
                    old(ancilla_pool).next() as int,
                    *curve,
                ).effect((self.scalar_bits / self.window_size) as int),
            ),
            ({
                let l = self.layout(
                    scalar_reg_offset as int,
                    point_x_offset as int,
                    point_y_offset as int,
                    point_z_offset as int,
                    old(ancilla_pool).next() as int,
                    *curve,
                );
                let tv = multiples(curve.generator@, curve.a@, pow2(self.window_size as nat));
                let pre = flatten(old(ancilla_pool).deferred());
                let num = (self.scalar_bits / self.window_size) as int;
                &&& r.1.0 == count_toffoli(concat_map(|i: int| l.dbl_part(), 0, num))
                &&& r.1.1 == count_toffoli(concat_map(|i: int| l.qrom_part(tv, pre, i), 0, num))
                &&& r.1.2 == count_toffoli(concat_map(|i: int| l.add_block(), 0, num))
                &&& r.1.0 + r.1.1 + r.1.2 == count_toffoli(l.gates(tv, pre, num))
            }),
            final(ancilla_pool).wf(),
            final(ancilla_pool).next() == old(ancilla_pool).next() + 18 * curve.field_bits + 1,
            final(ancilla_pool).base() == old(ancilla_pool).base(),
            final(ancilla_pool).strat() == old(ancilla_pool).strat(),
            final(ancilla_pool).num_registers() == old(ancilla_pool).num_registers() + 6,
            final(ancilla_pool).deferred() == if self.scalar_bits / self.window_size == 0 {
                old(ancilla_pool).deferred()
            } else {
                Seq::<Seq<Gate>>::empty()
            },
    {
        let n = curve.field_bits;
        let num_windows = self.num_windows();
        let w = self.window_size;
        let ghost c0 = *counter;
        let ghost l = self.layout(
            scalar_reg_offset as int,
            point_x_offset as int,
            point_y_offset as int,
            point_z_offset as int,
            ancilla_pool.next() as int,
            *curve,
        );
        let ghost pre = flatten(ancilla_pool.deferred());
        let ghost old_def = ancilla_pool.deferred();
        let ghost total = l.effect(num_windows as int);
        let ghost start = alloc_effect(l.allocated());
        let ghost d = l.dbl_effect();
        let ghost a = l.add_effect();
        proof {
            lemma_ws_effect_wf(l.dbl_ctx(), l.dbl_ops(), 14 * l.n + 2);
            lemma_ws_effect_wf(l.add_ctx(), l.add_ops(), 13 * l.n + 2);
            lemma_rounds_grow(start, d, seq![a], w as nat, 0, num_windows as nat);
            assert(effect_fits(c0, start));
        }
        let lookup_x = take_register(ancilla_pool, "lookup_x", n, counter, Ghost(c0), Ghost(0), Ghost(l.allocated()));
        let base = lookup_x;
        let lookup_y = take_register(ancilla_pool, "lookup_y", n, counter, Ghost(c0), Ghost(n as int), Ghost(l.allocated()));
        let temp_x = take_register(ancilla_pool, "jac_temp_x", n, counter, Ghost(c0), Ghost(2 * n), Ghost(l.allocated()));
        let temp_y = take_register(ancilla_pool, "jac_temp_y", n, counter, Ghost(c0), Ghost(3 * n), Ghost(l.allocated()));
        let temp_z = take_register(ancilla_pool, "jac_temp_z", n, counter, Ghost(c0), Ghost(4 * n), Ghost(l.allocated()));
        let ec_workspace = take_register(
            ancilla_pool,
            "ec_workspace_jac",
            13 * n + 1,
            counter,
            Ghost(c0),
            Ghost(5 * n),
            Ghost(l.allocated()),
        );
        let ghost c1 = *counter;
        proof {
            assert(gates_recorded(c0, c1, Seq::empty()));
            assert(lookup_x == base && ec_workspace == base + 5 * n);
        }
        let precomp = PrecomputeTable::generate_for_point(curve, &curve.generator, w);
        let doubler = ReversibleJacobianDouble::new(n);
        let adder = ReversibleJacobianMixedAdd::new(n);
        let ghost tv = precomp.point_views();
        let ghost whole = l.gates(tv, pre, num_windows as int);
        let ghost winf = l.window(tv, pre);
        let ghost wint = l.window(tv, pre);
        let ghost fd = |i: int| l.dbl_part();
        let ghost fq = |i: int| l.qrom_part(tv, pre, i);
        let ghost fa = |i: int| l.add_block();
        let mut gates: Vec<Gate> = Vec::new();
        let mut doubling_toffoli: usize = 0;
        let mut qrom_toffoli: usize = 0;
        let mut addition_toffoli: usize = 0;
        proof {
            assert(concat_map(fd, 0, 0) =~= Seq::<Gate>::empty());
            assert(concat_map(fq, 0, 0) =~= Seq::<Gate>::empty());
            assert(concat_map(fa, 0, 0) =~= Seq::<Gate>::empty());
            lemma_room_left(c0, c1, Seq::empty(), whole.len() as int, whole.len() as int);
            assert(num_windows * w <= self.scalar_bits) by (nonlinear_arith)
                requires
                    num_windows == self.scalar_bits / w,
                    w > 0,
            ;
            assert(concat_map(winf, 0, 0) =~= Seq::<Gate>::empty());
            assert(concat_map(wint, 0, 0) =~= Seq::<Gate>::empty());
        }
        let mut i: usize = 0;
        while i < num_windows
            invariant
                i <= num_windows,
                num_windows == self.scalar_bits / w,
                num_windows * w <= self.scalar_bits,
                w == self.window_size,
                w > 0,
                w < usize::BITS,
                n == curve.field_bits,
                n <= 64,
                l == self.layout(
                    scalar_reg_offset as int,
                    point_x_offset as int,
                    point_y_offset as int,
                    point_z_offset as int,
                    base as int,
                    *curve,
                ),
                l.fits(self.scalar_bits as int),
                doubler.n == n,
                adder.n == n,
                tv == precomp.point_views(),
                winf == l.window(tv, pre),
                wint == l.window(tv, pre),
                whole == concat_map(wint, 0, num_windows as int),
                total == l.effect(num_windows as int),
                start == alloc_effect(l.allocated()),
                d == l.dbl_effect(),
                a == l.add_effect(),
                effect_wf(d),
                effect_wf(a),
                effect_fits(c0, total),
                gate_room(c1, whole.len() as int),
                gates@ == concat_map(winf, 0, i as int),
                gates_recorded(c1, *counter, concat_map(wint, 0, i as int)),
                gates_recorded(c0, c1, Seq::empty()),
                effect_holds(c0, *counter, l.effect(i as int)),
                fd == (|i: int| l.dbl_part()),
                fq == (|i: int| l.qrom_part(tv, pre, i)),
                fa == (|i: int| l.add_block()),
                doubling_toffoli == count_toffoli(concat_map(fd, 0, i as int)),
                qrom_toffoli == count_toffoli(concat_map(fq, 0, i as int)),
                addition_toffoli == count_toffoli(concat_map(fa, 0, i as int)),
                doubling_toffoli + qrom_toffoli + addition_toffoli == count_toffoli(concat_map(wint, 0, i as int)),
                ancilla_pool.wf(),
                ancilla_pool.next() == base + 18 * n + 1,
                ancilla_pool.base() == old(ancilla_pool).base(),
                ancilla_pool.strat() == old(ancilla_pool).strat(),
                ancilla_pool.num_registers() == old(ancilla_pool).num_registers() + 6,
                ancilla_pool.deferred() == if i == 0 {
                    old_def
                } else {
                    Seq::<Seq<Gate>>::empty()
                },
                pre == flatten(old_def),
            decreases num_windows - i,
        {
            proof {
                lemma_concat_map_prefix(wint, 0, i as int, num_windows as int);
                lemma_concat_map_prefix(winf, 0, i as int, num_windows as int);
                lemma_concat_map_prefix(fd, 0, i as int, (i + 1) as int);
                lemma_concat_map_prefix(fq, 0, i as int, (i + 1) as int);
                lemma_concat_map_prefix(fa, 0, i as int, (i + 1) as int);
                lemma_room_left(c1, *counter, concat_map(wint, 0, i as int), whole.len() as int, wint(i as int).len() as int);
                lemma_rounds_grow(start, d, seq![a], w as nat, i as nat, num_windows as nat);
                lemma_rounds_grow(start, d, seq![a], w as nat, (i + 1) as nat, num_windows as nat);
                assert(l.effect((i + 1) as int) == then_all(repeat_effect(l.effect(i as int), d, w as nat), seq![a]));
                if i > 0 {
                    assert(flatten(Seq::<Seq<Gate>>::empty()) =~= Seq::<Gate>::empty());
                }
                assert((i + 1) * w <= num_windows * w) by (nonlinear_arith)
                    requires
                        i + 1 <= num_windows,
                        w > 0,
                ;
            }
            let ghost c2 = *counter;
            let (dt, qt, at) = jac_run_window(
                Ghost(l),
                Ghost(pre),
                Ghost(c0),
                Ghost(l.effect(i as int)),
                Ghost(total),
                &doubler,
                &adder,
                &precomp,
                i,
                &mut gates,
                ancilla_pool,
                counter,
                scalar_reg_offset,
                point_x_offset,
                point_y_offset,
                point_z_offset,
                w,
                base,
            );
            proof {
                lemma_gates_recorded_concat(c1, c2, *counter, concat_map(wint, 0, i as int), wint(i as int));
                lemma_counts_concat(concat_map(wint, 0, i as int), wint(i as int));
                lemma_counts_concat(concat_map(fd, 0, i as int), fd(i as int));
                lemma_counts_concat(concat_map(fq, 0, i as int), fq(i as int));
                lemma_counts_concat(concat_map(fa, 0, i as int), fa(i as int));
            }
            doubling_toffoli = doubling_toffoli + dt;
            qrom_toffoli = qrom_toffoli + qt;
            addition_toffoli = addition_toffoli + at;
            i = i + 1;
        }
        proof {
            lemma_gates_recorded_concat(c0, c1, *counter, Seq::empty(), whole);
            assert(Seq::<Gate>::empty() + whole =~= whole);
        }
        (gates, (doubling_toffoli, qrom_toffoli, addition_toffoli))
    }
}

} // verus!
