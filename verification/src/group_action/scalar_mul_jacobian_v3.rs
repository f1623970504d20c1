//! Windowed scalar multiplication with modified Jacobian doublings (aZ⁴
//! cached across doublings) and a one-hot decoded table lookup.
use crate::ec::curve::{AffinePoint, CurveParams};
use crate::ec::ec_spec::SpecPoint;
use crate::group_action::precompute::{multiples, PrecomputeTable};
use crate::group_action::scalar_mul::{
    alloc_effect, bit_set, ec_part, first_only, lemma_ws_effect_wf, take_register, ws_effect,
};
use crate::group_action::window_effects::{
    effect_fits, effect_holds, effect_le, effect_wf, lemma_effect_step, lemma_fits_next,
    lemma_repeat_grows, lemma_rounds_grow, lemma_then_all_grows, lemma_then_all_three, lemma_then_grows, repeat_effect, rounds_effect, then_all,
    then_effect,
};
use crate::reversible::adder::{cnot, not_gate, toffoli};
use crate::reversible::ancilla::{flatten, AncillaPool};
use crate::reversible::blocks::{
    append_copy, append_copy_of, append_swap, concat_map, copy_gates, lemma_block_lens,
    lemma_concat_map_prefix, swap_gates,
};
use crate::reversible::circuit_ops::{ctx_ok, ops_effect, ops_gates, CircOp, OpCtx};
use crate::reversible::ec_add_jacobian::{ec_add_jacobian_ctx, ec_add_jacobian_ops, ReversibleJacobianMixedAdd};
use crate::reversible::ec_double_jacobian_v3::{
    ec_double_jacobian_v3_ctx, ec_double_jacobian_v3_ops, ReversibleJacobianDoubleV3,
};
use crate::reversible::gates::{count_toffoli, lemma_counts_concat, Gate};
use crate::reversible::multiplier::{karatsuba_modmul_gates, karatsuba_total_ws, KaratsubaSquarer};
use crate::reversible::resource_counter::{
    emit, gate_room, gates_recorded, lemma_effect_then_unchanged, lemma_gates_recorded_concat,
    lemma_room_left, qubits_unchanged, ResourceCounter,
};
use vstd::arithmetic::power2::pow2;
use vstd::prelude::*;

verus! {

/// V3 windowed scalar multiplication: modified Jacobian doubling with the
/// cached aZ⁴, one-hot decoded table lookups, and per-subsystem Toffoli
/// tallies.
pub struct WindowedScalarMulJacobianV3 {
    /// Window size in bits.
    pub window_size: usize,
    /// Number of bits in the scalar.
    pub scalar_bits: usize,
}

impl WindowedScalarMulJacobianV3 {
    /// A multiplier for `scalar_bits`-bit scalars in `window_size`-bit
    /// windows; the window size must divide the scalar width.
    pub fn new(window_size: usize, scalar_bits: usize) -> (r: Self)
        requires
            window_size > 0,
            scalar_bits % window_size == 0,
        ensures
            r.window_size == window_size,
            r.scalar_bits == scalar_bits,
    {
        Self { window_size, scalar_bits }
    }

    /// Number of windows to process.
    pub fn num_windows(&self) -> (r: usize)
        requires
            self.window_size > 0,
        ensures
            r == self.scalar_bits / self.window_size,
    {
        self.scalar_bits / self.window_size
    }
}

/// 2^k as a machine word.
pub open spec fn stride(k: int) -> usize {
    1usize << (k as usize)
}

/// The number of one-hot positions touched at decode level k: the block
/// 2^(k+1), capped at the table size `t`.
pub open spec fn level_len(k: int, t: int) -> int {
    if (stride(k + 1) as int) < t {
        stride(k + 1) as int
    } else {
        t
    }
}

/// The one-hot passes at level k over positions j of the register at `oh`
/// (`t` positions), window bit `ws + k`:
/// kind 0, downwards: Toffoli(oh+j−s, ws+k → oh+j) where bit k of j is set;
/// kind 1, upwards: CNOT(oh+j+s → oh+j) where it is clear and j+s < t;
/// kind 2, downwards: the same CNOTs as kind 1;
/// kind 3, upwards: the same Toffolis as kind 0.
pub open spec fn onehot_step(kind: int, oh: int, ws: int, k: int, t: int) -> spec_fn(int) -> Seq<Gate> {
    |idx: int|
        {
            let m = level_len(k, t);
            let j = if kind == 0 || kind == 2 {
                m - 1 - idx
            } else {
                idx
            };
            let s = stride(k) as int;
            let set = ((j as usize) & stride(k)) != 0usize;
            if kind == 0 || kind == 3 {
                if set && j < t && j >= s {
                    seq![toffoli(oh + j - s, ws + k, oh + j)]
                } else {
                    Seq::empty()
                }
            } else {
                if !set && s < t && j < t - s {
                    seq![cnot(oh + j + s, oh + j)]
                } else {
                    Seq::empty()
                }
            }
        }
}

/// One pass of the given kind at level k.
pub open spec fn onehot_pass(kind: int, oh: int, ws: int, k: int, t: int) -> Seq<Gate> {
    concat_map(onehot_step(kind, oh, ws, k, t), 0, level_len(k, t))
}

/// Decoding the window bits into the one-hot register, level by level.
pub open spec fn onehot_decode(oh: int, ws: int, w: int, t: int) -> Seq<Gate> {
    concat_map(|k: int| onehot_pass(0, oh, ws, k, t) + onehot_pass(1, oh, ws, k, t), 0, w)
}

/// Undoing the decode, from the top level down.
pub open spec fn onehot_undecode(oh: int, ws: int, w: int, t: int) -> Seq<Gate> {
    concat_map(
        |idx: int| onehot_pass(2, oh, ws, w - 1 - idx, t) + onehot_pass(3, oh, ws, w - 1 - idx, t),
        0,
        w,
    )
}

/// For output bit b of entry e, CNOTs from the entry's one-hot qubit onto
/// the set coordinate bits.
pub open spec fn onehot_load_step(x: int, y: int, ctrl: int, lx: int, ly: int) -> spec_fn(int) -> Seq<Gate> {
    |b: int|
        (if bit_set(x, b) {
            seq![cnot(ctrl, lx + b)]
        } else {
            Seq::empty()
        }) + (if bit_set(y, b) {
            seq![cnot(ctrl, ly + b)]
        } else {
            Seq::empty()
        })
}

/// The loads of one entry (none for the point at infinity).
pub open spec fn onehot_load_entry(p: SpecPoint, ctrl: int, n: int, lx: int, ly: int) -> Seq<Gate> {
    match p {
        None => Seq::empty(),
        Some((x, y)) => concat_map(onehot_load_step(x, y, ctrl, lx, ly), 0, n),
    }
}

/// The loads of the first `t` table entries.
pub open spec fn onehot_load(table: Seq<SpecPoint>, oh: int, t: int, n: int, lx: int, ly: int) -> Seq<Gate> {
    concat_map(|e: int| onehot_load_entry(table[e], oh + e, n, lx, ly), 0, t)
}

/// The whole lookup: set the one-hot register, decode, load, undecode,
/// reset.
pub open spec fn qrom_v3(table: Seq<SpecPoint>, oh: int, t: int, ws: int, w: int, n: int, lx: int, ly: int) -> Seq<
    Gate,
> {
    seq![not_gate(oh)] + onehot_decode(oh, ws, w, t) + onehot_load(table, oh, t, n, lx, ly) + onehot_undecode(
        oh,
        ws,
        w,
        t,
    ) + seq![not_gate(oh)]
}

/// Appends one one-hot pass.
fn append_onehot_pass(
    gates: &mut Vec<Gate>,
    counter: &mut ResourceCounter,
    kind: u8,
    oh: usize,
    ws: usize,
    k: usize,
    t: usize,
)
    requires
        kind < 4,
        k + 1 < usize::BITS,
        oh + t <= usize::MAX,
        ws + k <= usize::MAX,
        gate_room(*old(counter), onehot_pass(kind as int, oh as int, ws as int, k as int, t as int).len() as int),
    ensures
        final(gates)@ == old(gates)@ + onehot_pass(kind as int, oh as int, ws as int, k as int, t as int),
        gates_recorded(*old(counter), *final(counter), onehot_pass(kind as int, oh as int, ws as int, k as int, t as int)),
        qubits_unchanged(*old(counter), *final(counter)),
{
    let ghost c0 = *counter;
    let ghost g0 = gates@;
    let s: usize = 1usize << k;
    let block: usize = 1usize << (k + 1);
    let m: usize = if block < t {
        block
    } else {
        t
    };
    let ghost f = onehot_step(kind as int, oh as int, ws as int, k as int, t as int);
    let ghost total = onehot_pass(kind as int, oh as int, ws as int, k as int, t as int);
    proof {
        assert(s == stride(k as int));
        assert(block == stride(k + 1));
        assert(m == level_len(k as int, t as int));
    }
    let mut idx: usize = 0;
    while idx < m
        invariant
            idx <= m,
            m <= t,
            m == level_len(k as int, t as int),
            s == stride(k as int),
            kind < 4,
            oh + t <= usize::MAX,
            ws + k <= usize::MAX,
            f == onehot_step(kind as int, oh as int, ws as int, k as int, t as int),
            total == concat_map(f, 0, m as int),
            gate_room(c0, total.len() as int),
            gates@ == g0 + concat_map(f, 0, idx as int),
            gates_recorded(c0, *counter, concat_map(f, 0, idx as int)),
            qubits_unchanged(c0, *counter),
        decreases m - idx,
    {
        proof {
            lemma_concat_map_prefix(f, 0, idx as int, m as int);
        }
        let j: usize = if kind == 0 || kind == 2 {
            m - 1 - idx
        } else {
            idx
        };
        let set = (j & s) != 0;
        let ghost c1 = *counter;
        if kind == 0 || kind == 3 {
            if set && j < t && j >= s {
                proof {
                    lemma_room_left(c0, c1, concat_map(f, 0, idx as int), total.len() as int, 1);
                }
                emit(gates, counter, Gate::Toffoli { control1: oh + j - s, control2: ws + k, target: oh + j });
                proof {
                    lemma_gates_recorded_concat(c0, c1, *counter, concat_map(f, 0, idx as int), f(idx as int));
                }
            } else {
                proof {
                    assert(concat_map(f, 0, idx as int) + f(idx as int) =~= concat_map(f, 0, idx as int));
                }
            }
        } else {
            if !set && s < t && j < t - s {
                proof {
                    lemma_room_left(c0, c1, concat_map(f, 0, idx as int), total.len() as int, 1);
                }
                emit(gates, counter, Gate::Cnot { control: oh + j + s, target: oh + j });
                proof {
                    lemma_gates_recorded_concat(c0, c1, *counter, concat_map(f, 0, idx as int), f(idx as int));
                }
            } else {
                proof {
                    assert(concat_map(f, 0, idx as int) + f(idx as int) =~= concat_map(f, 0, idx as int));
                }
            }
        }
        proof {
            assert(gates@ =~= g0 + concat_map(f, 0, idx + 1));
        }
        idx = idx + 1;
    }
}

/// Appends the decode (`up`) or the undecode of the one-hot register.
fn append_onehot_levels(
    gates: &mut Vec<Gate>,
    counter: &mut ResourceCounter,
    up: bool,
    oh: usize,
    ws: usize,
    w: usize,
    t: usize,
)
    requires
        w < usize::BITS,
        oh + t <= usize::MAX,
        ws + w <= usize::MAX,
        gate_room(
            *old(counter),
            (if up {
                onehot_decode(oh as int, ws as int, w as int, t as int)
            } else {
                onehot_undecode(oh as int, ws as int, w as int, t as int)
            }).len() as int,
        ),
    ensures
        final(gates)@ == old(gates)@ + if up {
            onehot_decode(oh as int, ws as int, w as int, t as int)
        } else {
            onehot_undecode(oh as int, ws as int, w as int, t as int)
        },
        gates_recorded(
            *old(counter),
            *final(counter),
            if up {
                onehot_decode(oh as int, ws as int, w as int, t as int)
            } else {
                onehot_undecode(oh as int, ws as int, w as int, t as int)
            },
        ),
        qubits_unchanged(*old(counter), *final(counter)),
{
    let ghost c0 = *counter;
    let ghost g0 = gates@;
    let ghost f = if up {
        |k: int| onehot_pass(0, oh as int, ws as int, k, t as int) + onehot_pass(1, oh as int, ws as int, k, t as int)
    } else {
        |idx: int|
            onehot_pass(2, oh as int, ws as int, w - 1 - idx, t as int) + onehot_pass(
                3,
                oh as int,
                ws as int,
                w - 1 - idx,
                t as int,
            )
    };
    let ghost total = concat_map(f, 0, w as int);
    proof {
        assert(total == if up {
            onehot_decode(oh as int, ws as int, w as int, t as int)
        } else {
            onehot_undecode(oh as int, ws as int, w as int, t as int)
        });
    }
    let mut idx: usize = 0;
    while idx < w
        invariant
            idx <= w,
            w < usize::BITS,
            oh + t <= usize::MAX,
            ws + w <= usize::MAX,
            f == if up {
                |k: int| onehot_pass(0, oh as int, ws as int, k, t as int) + onehot_pass(1, oh as int, ws as int, k, t as int)
            } else {
                |idx: int|
                    onehot_pass(2, oh as int, ws as int, w - 1 - idx, t as int) + onehot_pass(
                        3,
                        oh as int,
                        ws as int,
                        w - 1 - idx,
                        t as int,
                    )
            },
            total == concat_map(f, 0, w as int),
            gate_room(c0, total.len() as int),
            gates@ == g0 + concat_map(f, 0, idx as int),
            gates_recorded(c0, *counter, concat_map(f, 0, idx as int)),
            qubits_unchanged(c0, *counter),
        decreases w - idx,
    {
        proof {
            lemma_concat_map_prefix(f, 0, idx as int, w as int);
        }
        let k: usize = if up {
            idx
        } else {
            w - 1 - idx
        };
        let kind_a: u8 = if up {
            0
        } else {
            2
        };
        let kind_b: u8 = if up {
            1
        } else {
            3
        };
        let ghost pa = onehot_pass(kind_a as int, oh as int, ws as int, k as int, t as int);
        let ghost pb = onehot_pass(kind_b as int, oh as int, ws as int, k as int, t as int);
        let ghost c1 = *counter;
        proof {
            assert(f(idx as int) == pa + pb);
            lemma_room_left(c0, c1, concat_map(f, 0, idx as int), total.len() as int, (pa + pb).len() as int);
        }
        append_onehot_pass(gates, counter, kind_a, oh, ws, k, t);
        let ghost c2 = *counter;
        proof {
            lemma_room_left(c1, c2, pa, (pa + pb).len() as int, pb.len() as int);
        }
        append_onehot_pass(gates, counter, kind_b, oh, ws, k, t);
        proof {
            lemma_gates_recorded_concat(c1, c2, *counter, pa, pb);
            lemma_gates_recorded_concat(c0, c1, *counter, concat_map(f, 0, idx as int), pa + pb);
            assert(gates@ =~= g0 + concat_map(f, 0, idx + 1));
        }
        idx = idx + 1;
    }
}

/// Appends the loads of one table entry under its one-hot qubit.
fn append_onehot_load_entry(
    gates: &mut Vec<Gate>,
    counter: &mut ResourceCounter,
    p: &AffinePoint,
    ctrl: usize,
    n: usize,
    lx: usize,
    ly: usize,
)
    requires
        n <= 64,
        lx + n <= usize::MAX,
        ly + n <= usize::MAX,
        gate_room(*old(counter), onehot_load_entry(p@, ctrl as int, n as int, lx as int, ly as int).len() as int),
    ensures
        final(gates)@ == old(gates)@ + onehot_load_entry(p@, ctrl as int, n as int, lx as int, ly as int),
        gates_recorded(*old(counter), *final(counter), onehot_load_entry(p@, ctrl as int, n as int, lx as int, ly as int)),
        qubits_unchanged(*old(counter), *final(counter)),
{
    let ghost c0 = *counter;
    let ghost g0 = gates@;
    let ghost entry = onehot_load_entry(p@, ctrl as int, n as int, lx as int, ly as int);
    match p {
        AffinePoint::Infinity => {
            proof {
                assert(gates@ =~= g0 + entry);
            }
        },
        AffinePoint::Finite { x, y } => {
            let xv = x.to_canonical();
            let yv = y.to_canonical();
            let ghost f = onehot_load_step(x@, y@, ctrl as int, lx as int, ly as int);
            let mut b: usize = 0;
            while b < n
                invariant
                    b <= n,
                    n <= 64,
                    lx + n <= usize::MAX,
                    ly + n <= usize::MAX,
                    xv as int == x@,
                    yv as int == y@,
                    f == onehot_load_step(x@, y@, ctrl as int, lx as int, ly as int),
                    entry == concat_map(f, 0, n as int),
                    gate_room(c0, entry.len() as int),
                    gates@ == g0 + concat_map(f, 0, b as int),
                    gates_recorded(c0, *counter, concat_map(f, 0, b as int)),
                    qubits_unchanged(c0, *counter),
                decreases n - b,
            {
                proof {
                    lemma_concat_map_prefix(f, 0, b as int, n as int);
                }
                let ghost cb = *counter;
                let ghost gb = gates@;
                let ghost xpart = if bit_set(x@, b as int) {
                    seq![cnot(ctrl as int, lx + b)]
                } else {
                    Seq::empty()
                };
                let ghost ypart = if bit_set(y@, b as int) {
                    seq![cnot(ctrl as int, ly + b)]
                } else {
                    Seq::empty()
                };
                proof {
                    assert(f(b as int) == xpart + ypart);
                    lemma_room_left(c0, cb, concat_map(f, 0, b as int), entry.len() as int, (xpart + ypart).len() as int);
                }
                if (xv >> (b as u64)) & 1 == 1 {
                    emit(gates, counter, Gate::Cnot { control: ctrl, target: lx + b });
                } else {
                    proof {
                        assert(gates@ =~= gb + xpart);
                    }
                }
                let ghost cx = *counter;
                proof {
                    lemma_room_left(cb, cx, xpart, (xpart + ypart).len() as int, ypart.len() as int);
                }
                if (yv >> (b as u64)) & 1 == 1 {
                    emit(gates, counter, Gate::Cnot { control: ctrl, target: ly + b });
                } else {
                    proof {
                        assert(gates@ =~= gb + xpart + ypart);
                    }
                }
                proof {
                    lemma_gates_recorded_concat(cb, cx, *counter, xpart, ypart);
                    lemma_gates_recorded_concat(c0, cb, *counter, concat_map(f, 0, b as int), xpart + ypart);
                    assert(gates@ =~= g0 + concat_map(f, 0, b + 1));
                }
                b = b + 1;
            }
        },
    }
}

/// Appends the loads of the whole table.
fn append_onehot_load(
    gates: &mut Vec<Gate>,
    counter: &mut ResourceCounter,
    table: &PrecomputeTable,
    oh: usize,
    t: usize,
    n: usize,
    lx: usize,
    ly: usize,
)
    requires
        t == table.points@.len(),
        oh + t <= usize::MAX,
        n <= 64,
        lx + n <= usize::MAX,
        ly + n <= usize::MAX,
        gate_room(*old(counter), onehot_load(table.point_views(), oh as int, t as int, n as int, lx as int, ly as int).len() as int),
    ensures
        final(gates)@ == old(gates)@ + onehot_load(table.point_views(), oh as int, t as int, n as int, lx as int, ly as int),
        gates_recorded(
            *old(counter),
            *final(counter),
            onehot_load(table.point_views(), oh as int, t as int, n as int, lx as int, ly as int),
        ),
        qubits_unchanged(*old(counter), *final(counter)),
{
    let ghost c0 = *counter;
    let ghost g0 = gates@;
    let ghost tv = table.point_views();
    let ghost f = |e: int| onehot_load_entry(tv[e], oh + e, n as int, lx as int, ly as int);
    let ghost total = onehot_load(tv, oh as int, t as int, n as int, lx as int, ly as int);
    let mut e: usize = 0;
    while e < t
        invariant
            e <= t,
            t == tv.len(),
            tv == table.point_views(),
            t == table.points@.len(),
            oh + t <= usize::MAX,
            n <= 64,
            lx + n <= usize::MAX,
            ly + n <= usize::MAX,
            f == (|e: int| onehot_load_entry(tv[e], oh + e, n as int, lx as int, ly as int)),
            total == concat_map(f, 0, t as int),
            gate_room(c0, total.len() as int),
            gates@ == g0 + concat_map(f, 0, e as int),
            gates_recorded(c0, *counter, concat_map(f, 0, e as int)),
            qubits_unchanged(c0, *counter),
        decreases t - e,
    {
        proof {
            lemma_concat_map_prefix(f, 0, e as int, t as int);
            lemma_room_left(c0, *counter, concat_map(f, 0, e as int), total.len() as int, f(e as int).len() as int);
        }
        let p = table.lookup(e);
        let ghost c1 = *counter;
        append_onehot_load_entry(gates, counter, p, oh + e, n, lx, ly);
        proof {
            assert(tv[e as int] == p@);
            lemma_gates_recorded_concat(c0, c1, *counter, concat_map(f, 0, e as int), f(e as int));
            assert(gates@ =~= g0 + concat_map(f, 0, e + 1));
        }
        e = e + 1;
    }
}

/// Appends the whole one-hot lookup.
fn append_qrom_v3(
    gates: &mut Vec<Gate>,
    counter: &mut ResourceCounter,
    table: &PrecomputeTable,
    oh: usize,
    t: usize,
    ws: usize,
    w: usize,
    n: usize,
    lx: usize,
    ly: usize,
)
    requires
        t == table.points@.len(),
        w < usize::BITS,
        oh + t <= usize::MAX,
        ws + w <= usize::MAX,
        n <= 64,
        lx + n <= usize::MAX,
        ly + n <= usize::MAX,
        gate_room(
            *old(counter),
            qrom_v3(table.point_views(), oh as int, t as int, ws as int, w as int, n as int, lx as int, ly as int).len() as int,
        ),
    ensures
        final(gates)@ == old(gates)@ + qrom_v3(
            table.point_views(),
            oh as int,
            t as int,
            ws as int,
            w as int,
            n as int,
            lx as int,
            ly as int,
        ),
        gates_recorded(
            *old(counter),
            *final(counter),
            qrom_v3(table.point_views(), oh as int, t as int, ws as int, w as int, n as int, lx as int, ly as int),
        ),
        qubits_unchanged(*old(counter), *final(counter)),
{
    let ghost c0 = *counter;
    let ghost g0 = gates@;
    let ghost tv = table.point_views();
    let ghost s0 = seq![not_gate(oh as int)];
    let ghost s1 = onehot_decode(oh as int, ws as int, w as int, t as int);
    let ghost s2 = onehot_load(tv, oh as int, t as int, n as int, lx as int, ly as int);
    let ghost s3 = onehot_undecode(oh as int, ws as int, w as int, t as int);
    let ghost total = qrom_v3(tv, oh as int, t as int, ws as int, w as int, n as int, lx as int, ly as int);
    proof {
        assert(total == s0 + s1 + s2 + s3 + s0);
        lemma_room_left(c0, c0, Seq::empty(), total.len() as int, 1);
    }
    emit(gates, counter, Gate::Not { target: oh });
    let ghost c1 = *counter;
    proof {
        lemma_room_left(c0, c1, s0, total.len() as int, s1.len() as int);
    }
    append_onehot_levels(gates, counter, true, oh, ws, w, t);
    let ghost c2 = *counter;
    proof {
        lemma_gates_recorded_concat(c0, c1, c2, s0, s1);
        lemma_room_left(c0, c2, s0 + s1, total.len() as int, s2.len() as int);
    }
    append_onehot_load(gates, counter, table, oh, t, n, lx, ly);
    let ghost c3 = *counter;
    proof {
        lemma_gates_recorded_concat(c0, c2, c3, s0 + s1, s2);
        lemma_room_left(c0, c3, s0 + s1 + s2, total.len() as int, s3.len() as int);
    }
    append_onehot_levels(gates, counter, false, oh, ws, w, t);
    let ghost c4 = *counter;
    proof {
        lemma_gates_recorded_concat(c0, c3, c4, s0 + s1 + s2, s3);
        lemma_room_left(c0, c4, s0 + s1 + s2 + s3, total.len() as int, 1);
    }
    emit(gates, counter, Gate::Not { target: oh });
    proof {
        lemma_gates_recorded_concat(c0, c4, *counter, s0 + s1 + s2 + s3, s0);
        assert(gates@ =~= g0 + total);
    }
}

/// Register layout of the V3 multiplier: field width n, window w, table
/// size t = 2^w, the scalar register at `sro`, the accumulator at (`px`,
/// `py`, `pz`, `paz`), and from `base` on the lookup x and y, the
/// temporaries X, Y, Z, aZ⁴, the workspace of 13n + 2 qubits and the
/// one-hot register of t qubits.
pub struct V3Layout {
    pub n: int,
    pub w: int,
    pub t: int,
    pub sro: int,
    pub px: int,
    pub py: int,
    pub pz: int,
    pub paz: int,
    pub base: int,
}

impl V3Layout {
    pub open spec fn lx(self) -> int {
        self.base
    }

    pub open spec fn ly(self) -> int {
        self.base + self.n
    }

    pub open spec fn tx(self) -> int {
        self.base + 2 * self.n
    }

    pub open spec fn ty(self) -> int {
        self.base + 3 * self.n
    }

    pub open spec fn tz(self) -> int {
        self.base + 4 * self.n
    }

    pub open spec fn taz(self) -> int {
        self.base + 5 * self.n
    }

    pub open spec fn ws(self) -> int {
        self.base + 6 * self.n
    }

    pub open spec fn oh(self) -> int {
        self.base + 19 * self.n + 2
    }

    /// Qubits handed out from the pool.
    pub open spec fn allocated(self) -> int {
        19 * self.n + 2 + self.t
    }

    pub open spec fn dbl_ctx(self) -> OpCtx {
        ec_double_jacobian_v3_ctx(self.n, self.ws())
    }

    pub open spec fn dbl_ops(self) -> Seq<CircOp> {
        ec_double_jacobian_v3_ops(
            self.n,
            self.px,
            self.py,
            self.pz,
            self.paz,
            self.tx(),
            self.ty(),
            self.tz(),
            self.taz(),
            self.ws(),
        )
    }

    pub open spec fn add_ctx(self) -> OpCtx {
        ec_add_jacobian_ctx(self.n, self.ws())
    }

    pub open spec fn add_ops(self) -> Seq<CircOp> {
        ec_add_jacobian_ops(
            self.n,
            self.px,
            self.py,
            self.pz,
            self.lx(),
            self.ly(),
            self.tx(),
            self.ty(),
            self.tz(),
            self.ws(),
        )
    }

    /// The four temporaries swapped back into the accumulator.
    pub open spec fn swap_back(self) -> Seq<Gate> {
        swap_gates(self.tx(), self.px, self.n) + swap_gates(self.ty(), self.py, self.n) + swap_gates(
            self.tz(),
            self.pz,
            self.n,
        ) + swap_gates(self.taz(), self.paz, self.n)
    }

    pub open spec fn dbl_block(self) -> Seq<Gate> {
        ec_part(self.dbl_ctx(), self.dbl_ops()) + self.swap_back()
    }

    /// Z² and Z⁴ of the new Z by two squarings in the workspace.
    pub open spec fn squarings(self) -> Seq<Gate> {
        karatsuba_modmul_gates(self.n, self.tz(), self.tz(), self.ws(), self.ws() + 2 * self.n, true)
            + karatsuba_modmul_gates(self.n, self.ws(), self.ws(), self.ws() + self.n, self.ws() + 2 * self.n, true)
    }

    /// The mixed addition, the recomputation of aZ⁴ (for a = 1: Z⁴, copied
    /// into the aZ⁴ temporary), and the swaps back.
    pub open spec fn add_block(self) -> Seq<Gate> {
        ec_part(self.add_ctx(), self.add_ops()) + self.squarings() + copy_gates(
            self.ws() + self.n,
            self.taz(),
            self.n,
        ) + self.swap_back()
    }

    pub open spec fn qrom(self, table: Seq<SpecPoint>, i: int) -> Seq<Gate> {
        qrom_v3(table, self.oh(), self.t, self.sro + i * self.w, self.w, self.n, self.lx(), self.ly())
    }

    /// The doublings of one window.
    pub open spec fn dbl_part(self) -> Seq<Gate> {
        concat_map(|j: int| self.dbl_block(), 0, self.w)
    }

    /// The lookup of window `i` and its uncomputation.
    pub open spec fn qrom_part(self, table: Seq<SpecPoint>, pre: Seq<Gate>, i: int) -> Seq<Gate> {
        self.qrom(table, i) + (first_only(pre, i) + self.qrom(table, i)).reverse()
    }

    /// Window `i`: w doublings, the lookup, the addition block, and the
    /// reversed lookup (after any gates deferred before the first window).
    pub open spec fn window(self, table: Seq<SpecPoint>, pre: Seq<Gate>) -> spec_fn(int) -> Seq<Gate> {
        |i: int|
            concat_map(|j: int| self.dbl_block(), 0, self.w) + self.qrom(table, i) + self.add_block() + (
            first_only(pre, i) + self.qrom(table, i)).reverse()
    }

    pub open spec fn gates(self, table: Seq<SpecPoint>, pre: Seq<Gate>, windows: int) -> Seq<Gate> {
        concat_map(self.window(table, pre), 0, windows)
    }

    pub open spec fn dbl_effect(self) -> (int, int, int, int) {
        ws_effect(12 * self.n + 2, ops_effect(self.dbl_ctx(), self.dbl_ops()))
    }

    pub open spec fn add_effect(self) -> (int, int, int, int) {
        ws_effect(13 * self.n + 2, ops_effect(self.add_ctx(), self.add_ops()))
    }

    /// One squaring's workspace scope.
    pub open spec fn sq_effect(self) -> (int, int, int, int) {
        let k = karatsuba_total_ws(self.n);
        (k, k, 0, k)
    }

    /// The ancilla effect of the windows, inside the pre-allocated scope.
    pub open spec fn rounds(self, windows: int) -> (int, int, int, int) {
        rounds_effect(
            (0, 0, 0, 0),
            self.dbl_effect(),
            seq![self.add_effect(), self.sq_effect(), self.sq_effect()],
            self.w as nat,
            windows as nat,
        )
    }

    /// The whole effect: the registers stay allocated; the windows' tallies
    /// add on top.
    pub open spec fn effect(self, windows: int) -> (int, int, int, int) {
        let r = self.rounds(windows);
        (self.allocated() + r.0, r.1, self.allocated(), self.allocated())
    }

    pub open spec fn fits(self, scalar_bits: int) -> bool {
        &&& self.n >= 0
        &&& self.w >= 1
        &&& self.t >= 1
        &&& self.sro >= 0
        &&& self.px >= 0
        &&& self.py >= 0
        &&& self.pz >= 0
        &&& self.paz >= 0
        &&& self.base >= 0
        &&& self.sro + scalar_bits <= usize::MAX
        &&& self.px + self.n <= usize::MAX
        &&& self.py + self.n <= usize::MAX
        &&& self.pz + self.n <= usize::MAX
        &&& self.paz + self.n <= usize::MAX
        &&& self.base + 19 * self.n + 2 + self.t <= usize::MAX
        &&& self.ws() + 2 * self.n + karatsuba_total_ws(self.n) <= usize::MAX
        &&& ctx_ok(self.dbl_ctx())
        &&& ctx_ok(self.add_ctx())
    }
}

/// Appends the swaps of the temporaries back into the accumulator.
fn v3_swap_back(
    Ghost(l): Ghost<V3Layout>,
    gates: &mut Vec<Gate>,
    counter: &mut ResourceCounter,
    px: usize,
    py: usize,
    pz: usize,
    paz: usize,
    base: usize,
    n: usize,
)
    requires
        l.fits(0),
        l.n == n,
        l.px == px,
        l.py == py,
        l.pz == pz,
        l.paz == paz,
        l.base == base,
        gate_room(*old(counter), 12 * n),
    ensures
        final(gates)@ == old(gates)@ + l.swap_back(),
        gates_recorded(*old(counter), *final(counter), l.swap_back()),
        qubits_unchanged(*old(counter), *final(counter)),
        l.swap_back().len() == 12 * n,
{
    let ghost c0 = *counter;
    let ghost g0 = gates@;
    let ghost s1 = swap_gates(l.tx(), l.px, l.n);
    let ghost s2 = swap_gates(l.ty(), l.py, l.n);
    let ghost s3 = swap_gates(l.tz(), l.pz, l.n);
    let ghost s4 = swap_gates(l.taz(), l.paz, l.n);
    proof {
        lemma_block_lens(l.tx(), l.px, 0, l.n);
        lemma_block_lens(l.ty(), l.py, 0, l.n);
        lemma_block_lens(l.tz(), l.pz, 0, l.n);
        lemma_block_lens(l.taz(), l.paz, 0, l.n);
    }
    append_swap(gates, counter, base + 2 * n, px, n);
    let ghost c1 = *counter;
    proof {
        lemma_room_left(c0, c1, s1, 12 * n, 3 * n);
    }
    append_swap(gates, counter, base + 3 * n, py, n);
    let ghost c2 = *counter;
    proof {
        lemma_gates_recorded_concat(c0, c1, c2, s1, s2);
        lemma_room_left(c0, c2, s1 + s2, 12 * n, 3 * n);
    }
    append_swap(gates, counter, base + 4 * n, pz, n);
    let ghost c3 = *counter;
    proof {
        lemma_gates_recorded_concat(c0, c2, c3, s1 + s2, s3);
        lemma_room_left(c0, c3, s1 + s2 + s3, 12 * n, 3 * n);
    }
    append_swap(gates, counter, base + 5 * n, paz, n);
    proof {
        lemma_gates_recorded_concat(c0, c3, *counter, s1 + s2 + s3, s4);
        assert(gates@ =~= g0 + l.swap_back());
    }
}

/// One modified Jacobian doubling, swapped back.
fn v3_double_step(
    Ghost(l): Ghost<V3Layout>,
    doubler: &ReversibleJacobianDoubleV3,
    gates: &mut Vec<Gate>,
    counter: &mut ResourceCounter,
    px: usize,
    py: usize,
    pz: usize,
    paz: usize,
    base: usize,
)
    requires
        l.fits(0),
        l.n == doubler.n,
        l.px == px,
        l.py == py,
        l.pz == pz,
        l.paz == paz,
        l.base == base,
        gate_room(*old(counter), l.dbl_block().len() as int),
        effect_fits(*old(counter), l.dbl_effect()),
    ensures
        final(gates)@ == old(gates)@ + l.dbl_block(),
        gates_recorded(*old(counter), *final(counter), l.dbl_block()),
        effect_holds(*old(counter), *final(counter), l.dbl_effect()),
{
    let n = doubler.n;
    let ghost c0 = *counter;
    let ghost g0 = gates@;
    let ghost ec = ops_gates(l.dbl_ctx(), l.dbl_ops());
    proof {
        lemma_ws_effect_wf(l.dbl_ctx(), l.dbl_ops(), 12 * l.n + 2);
        lemma_block_lens(l.tx(), l.px, 0, l.n);
        lemma_block_lens(l.ty(), l.py, 0, l.n);
        lemma_block_lens(l.tz(), l.pz, 0, l.n);
        lemma_block_lens(l.taz(), l.paz, 0, l.n);
        lemma_room_left(c0, c0, Seq::empty(), l.dbl_block().len() as int, ec.len() as int);
    }
    let dbl = doubler.forward_gates(
        px,
        py,
        pz,
        paz,
        base + 2 * n,
        base + 3 * n,
        base + 4 * n,
        base + 5 * n,
        base + 6 * n,
        counter,
    );
    append_copy_of(gates, &dbl);
    let ghost c1 = *counter;
    proof {
        lemma_room_left(c0, c1, ec, l.dbl_block().len() as int, 12 * n);
    }
    v3_swap_back(Ghost(l), gates, counter, px, py, pz, paz, base, n);
    proof {
        lemma_gates_recorded_concat(c0, c1, *counter, ec, l.swap_back());
        lemma_effect_then_unchanged(
            c0,
            c1,
            *counter,
            l.dbl_effect().0,
            l.dbl_effect().1,
            l.dbl_effect().2,
            l.dbl_effect().3,
        );
        assert(gates@ =~= g0 + l.dbl_block());
    }
}

/// The mixed addition, the recomputation of aZ⁴ and the swaps back; the
/// counter goes from effect `p` (since `c0`) to `p` followed by the
/// addition's and the two squarings' effects.
#[verifier::rlimit(80)]
#[verifier::spinoff_prover]
fn v3_add_step(
    Ghost(l): Ghost<V3Layout>,
    Ghost(c0): Ghost<ResourceCounter>,
    Ghost(p): Ghost<(int, int, int, int)>,
    Ghost(t): Ghost<(int, int, int, int)>,
    adder: &ReversibleJacobianMixedAdd,
    sq: &KaratsubaSquarer,
    gates: &mut Vec<Gate>,
    counter: &mut ResourceCounter,
    px: usize,
    py: usize,
    pz: usize,
    paz: usize,
    base: usize,
)
    requires
        l.fits(0),
        l.n == adder.n,
        l.n == sq.n,
        l.px == px,
        l.py == py,
        l.pz == pz,
        l.paz == paz,
        l.base == base,
        gate_room(*old(counter), l.add_block().len() as int),
        effect_holds(c0, *old(counter), p),
        effect_wf(p),
        effect_fits(c0, t),
        effect_le(then_all(p, seq![l.add_effect(), l.sq_effect(), l.sq_effect()]), t),
    ensures
        final(gates)@ == old(gates)@ + l.add_block(),
        gates_recorded(*old(counter), *final(counter), l.add_block()),
        effect_holds(c0, *final(counter), then_all(p, seq![l.add_effect(), l.sq_effect(), l.sq_effect()])),
{
    let n = adder.n;
    let ghost cs = *counter;
    let ghost g0 = gates@;
    let ghost a = l.add_effect();
    let ghost sqe = l.sq_effect();
    let ghost ec = ops_gates(l.add_ctx(), l.add_ops());
    let ghost q1 = karatsuba_modmul_gates(l.n, l.tz(), l.tz(), l.ws(), l.ws() + 2 * l.n, true);
    let ghost q2 = karatsuba_modmul_gates(l.n, l.ws(), l.ws(), l.ws() + l.n, l.ws() + 2 * l.n, true);
    let ghost cp = copy_gates(l.ws() + l.n, l.taz(), l.n);
    let ghost whole = l.add_block();
    proof {
        lemma_ws_effect_wf(l.add_ctx(), l.add_ops(), 13 * l.n + 2);
        crate::reversible::multiplier::lemma_karatsuba_ws_pos(l.n);
        lemma_block_lens(l.ws() + l.n, l.taz(), 0, l.n);
        lemma_block_lens(l.tx(), l.px, 0, l.n);
        lemma_block_lens(l.ty(), l.py, 0, l.n);
        lemma_block_lens(l.tz(), l.pz, 0, l.n);
        lemma_block_lens(l.taz(), l.paz, 0, l.n);
        lemma_then_all_three(p, a, sqe, sqe);
        lemma_then_grows(p, a);
        lemma_then_grows(then_effect(p, a), sqe);
        lemma_then_grows(then_effect(then_effect(p, a), sqe), sqe);
        assert(whole == ec + q1 + q2 + cp + l.swap_back());
        lemma_room_left(cs, cs, Seq::empty(), whole.len() as int, ec.len() as int);
        lemma_fits_next(c0, cs, p, a, t);
    }
    let ws = base + 6 * n;
    let add = adder.forward_gates(
        px,
        py,
        pz,
        base,
        base + n,
        base + 2 * n,
        base + 3 * n,
        base + 4 * n,
        ws,
        counter,
    );
    append_copy_of(gates, &add);
    let ghost c1 = *counter;
    proof {
        lemma_effect_step(c0, cs, c1, p, a);
        lemma_room_left(cs, c1, ec, whole.len() as int, q1.len() as int);
        lemma_fits_next(c0, c1, then_effect(p, a), sqe, t);
    }
    let s1 = sq.forward_gates(base + 4 * n, ws, ws + 2 * n, counter);
    append_copy_of(gates, &s1);
    let ghost c2 = *counter;
    proof {
        crate::reversible::resource_counter::lemma_scope_is_effect(c1, c2, sqe.0, sqe.0);
        lemma_effect_step(c0, c1, c2, then_effect(p, a), sqe);
        lemma_gates_recorded_concat(cs, c1, c2, ec, q1);
        lemma_room_left(cs, c2, ec + q1, whole.len() as int, q2.len() as int);
        lemma_fits_next(c0, c2, then_effect(then_effect(p, a), sqe), sqe, t);
    }
    let s2 = sq.forward_gates(ws, ws + n, ws + 2 * n, counter);
    append_copy_of(gates, &s2);
    let ghost c3 = *counter;
    proof {
        crate::reversible::resource_counter::lemma_scope_is_effect(c2, c3, sqe.0, sqe.0);
        lemma_effect_step(c0, c2, c3, then_effect(then_effect(p, a), sqe), sqe);
        lemma_gates_recorded_concat(cs, c2, c3, ec + q1, q2);
        lemma_room_left(cs, c3, ec + q1 + q2, whole.len() as int, n as int);
    }
    append_copy(gates, counter, ws + n, base + 5 * n, n);
    let ghost c4 = *counter;
    proof {
        lemma_gates_recorded_concat(cs, c3, c4, ec + q1 + q2, cp);
        lemma_room_left(cs, c4, ec + q1 + q2 + cp, whole.len() as int, 12 * n);
    }
    v3_swap_back(Ghost(l), gates, counter, px, py, pz, paz, base, n);
    proof {
        lemma_gates_recorded_concat(cs, c4, *counter, ec + q1 + q2 + cp, l.swap_back());
        let e3 = then_effect(then_effect(then_effect(p, a), sqe), sqe);
        lemma_effect_then_unchanged(c0, c3, c4, e3.0, e3.1, e3.2, e3.3);
        lemma_effect_then_unchanged(c0, c4, *counter, e3.0, e3.1, e3.2, e3.3);
        assert(gates@ =~= g0 + l.add_block());
    }
}

/// One window: w modified Jacobian doublings, the one-hot lookup, the
/// addition block and the uncomputation of the lookup.  Returns the Toffoli
/// counts of the doublings, of the lookup and its uncomputation, and of the
/// addition block.
#[verifier::rlimit(80)]
#[verifier::spinoff_prover]
fn v3_run_window(
    Ghost(l): Ghost<V3Layout>,
    Ghost(pre): Ghost<Seq<Gate>>,
    Ghost(c0): Ghost<ResourceCounter>,
    Ghost(p): Ghost<(int, int, int, int)>,
    Ghost(t): Ghost<(int, int, int, int)>,
    doubler: &ReversibleJacobianDoubleV3,
    adder: &ReversibleJacobianMixedAdd,
    sq: &KaratsubaSquarer,
    table: &PrecomputeTable,
    i: usize,
    gates: &mut Vec<Gate>,
    pool: &mut AncillaPool,
    counter: &mut ResourceCounter,
    sro: usize,
    px: usize,
    py: usize,
    pz: usize,
    paz: usize,
    w: usize,
    table_size: usize,
    base: usize,
) -> (r: (usize, usize, usize))
    requires
        l.fits(0),
        l.n <= 64,
        l.w == w,
        l.t == table_size,
        table_size == table.points@.len(),
        w < usize::BITS,
        l.sro == sro,
        l.px == px,
        l.py == py,
        l.pz == pz,
        l.paz == paz,
        l.base == base,
        l.n == doubler.n,
        l.n == adder.n,
        l.n == sq.n,
        sro + (i + 1) * w <= usize::MAX,
        old(pool).wf(),
        flatten(old(pool).deferred()) == first_only(pre, i as int),
        gate_room(*old(counter), l.window(table.point_views(), pre)(i as int).len() as int),
        effect_holds(c0, *old(counter), p),
        effect_wf(p),
        effect_wf(l.dbl_effect()),
        effect_wf(l.add_effect()),
        effect_wf(l.sq_effect()),
        effect_fits(c0, t),
        effect_le(
            then_all(repeat_effect(p, l.dbl_effect(), w as nat), seq![l.add_effect(), l.sq_effect(), l.sq_effect()]),
            t,
        ),
    ensures
        final(gates)@ == old(gates)@ + l.window(table.point_views(), pre)(i as int),
        gates_recorded(*old(counter), *final(counter), l.window(table.point_views(), pre)(i as int)),
        effect_holds(
            c0,
            *final(counter),
            then_all(repeat_effect(p, l.dbl_effect(), w as nat), seq![l.add_effect(), l.sq_effect(), l.sq_effect()]),
        ),
        r.0 == count_toffoli(l.dbl_part()),
        r.1 == count_toffoli(l.qrom_part(table.point_views(), pre, i as int)),
        r.2 == count_toffoli(l.add_block()),
        count_toffoli(l.window(table.point_views(), pre)(i as int)) == r.0 + r.1 + r.2,
        final(pool).wf(),
        final(pool).deferred() == Seq::<Seq<Gate>>::empty(),
        final(pool).next() == old(pool).next(),
        final(pool).base() == old(pool).base(),
        final(pool).strat() == old(pool).strat(),
        final(pool).num_registers() == old(pool).num_registers(),
{
    let n = doubler.n;
    let ghost tv = table.point_views();
    let ghost cs = *counter;
    let ghost g0 = gates@;
    let ghost d = l.dbl_effect();
    let ghost tail = seq![l.add_effect(), l.sq_effect(), l.sq_effect()];
    let ghost dblf = |j: int| l.dbl_block();
    let ghost dblt = |j: int| l.dbl_block();
    let ghost whole = l.window(tv, pre)(i as int);
    let ghost q = l.qrom(tv, i as int);
    let ghost unc = (first_only(pre, i as int) + q).reverse();
    proof {
        assert(whole == concat_map(dblt, 0, w as int) + q + l.add_block() + unc);
    }
    let t_before_dbl = counter.toffoli_count;
    let mut j: usize = 0;
    while j < w
        invariant
            j <= w,
            l.fits(0),
            l.n == n,
            l.w == w,
            l.px == px,
            l.py == py,
            l.pz == pz,
            l.paz == paz,
            l.base == base,
            l.n == doubler.n,
            dblf == (|j: int| l.dbl_block()),
            dblt == (|j: int| l.dbl_block()),
            d == l.dbl_effect(),
            effect_wf(p),
            effect_wf(d),
            effect_fits(c0, t),
            effect_le(then_all(repeat_effect(p, d, w as nat), tail), t),
            tail == seq![l.add_effect(), l.sq_effect(), l.sq_effect()],
            forall|k: int| 0 <= k < tail.len() ==> effect_wf(#[trigger] tail[k]),
            whole == concat_map(dblt, 0, w as int) + q + l.add_block() + unc,
            gate_room(cs, whole.len() as int),
            gates@ == g0 + concat_map(dblf, 0, j as int),
            gates_recorded(cs, *counter, concat_map(dblt, 0, j as int)),
            effect_holds(c0, *counter, repeat_effect(p, d, j as nat)),
        decreases w - j,
    {
        proof {
            lemma_concat_map_prefix(dblt, 0, j as int, w as int);
            lemma_concat_map_prefix(dblf, 0, j as int, w as int);
            lemma_room_left(cs, *counter, concat_map(dblt, 0, j as int), whole.len() as int, l.dbl_block().len() as int);
            lemma_repeat_grows(p, d, j as nat, w as nat);
            lemma_repeat_grows(p, d, (j + 1) as nat, w as nat);
            lemma_then_all_grows(repeat_effect(p, d, w as nat), tail, 0);
            assert(repeat_effect(p, d, (j + 1) as nat) == then_effect(repeat_effect(p, d, j as nat), d));
            lemma_fits_next(c0, *counter, repeat_effect(p, d, j as nat), d, t);
        }
        let ghost c1 = *counter;
        v3_double_step(Ghost(l), doubler, gates, counter, px, py, pz, paz, base);
        proof {
            lemma_gates_recorded_concat(cs, c1, *counter, concat_map(dblt, 0, j as int), dblt(j as int));
            lemma_effect_step(c0, c1, *counter, repeat_effect(p, d, j as nat), d);
        }
        j = j + 1;
    }
    let t_after_dbl = counter.toffoli_count;
    let doubling_toffoli = t_after_dbl - t_before_dbl;
    let ghost c2 = *counter;
    let ghost pd = repeat_effect(p, d, w as nat);
    let ghost dbls = concat_map(dblt, 0, w as int);
    proof {
        assert(dbls == l.dbl_part());
        lemma_room_left(cs, c2, dbls, whole.len() as int, q.len() as int);
        assert(sro + i * w + w <= usize::MAX) by (nonlinear_arith)
            requires
                sro + (i + 1) * w <= usize::MAX,
        ;
    }
    let window_start = sro + i * w;
    let mut qrom: Vec<Gate> = Vec::new();
    append_qrom_v3(&mut qrom, counter, table, base + 19 * n + 2, table_size, window_start, w, n, base, base + n);
    proof {
        assert(qrom@ =~= q);
    }
    append_copy_of(gates, &qrom);
    let ghost old_def = pool.deferred();
    pool.record_for_uncompute(qrom);
    let t_after_qrom = counter.toffoli_count;
    let ghost c3 = *counter;
    proof {
        lemma_gates_recorded_concat(cs, c2, c3, dbls, q);
        lemma_effect_then_unchanged(c0, c2, c3, pd.0, pd.1, pd.2, pd.3);
        lemma_room_left(cs, c3, dbls + q, whole.len() as int, l.add_block().len() as int);
        lemma_repeat_grows(p, d, w as nat, w as nat);
    }
    v3_add_step(Ghost(l), Ghost(c0), Ghost(pd), Ghost(t), adder, sq, gates, counter, px, py, pz, paz, base);
    let t_after_add = counter.toffoli_count;
    let addition_toffoli = t_after_add - t_after_qrom;
    let ghost c4 = *counter;
    proof {
        lemma_gates_recorded_concat(cs, c3, c4, dbls + q, l.add_block());
        assert(pool.deferred().drop_last() =~= old_def);
        assert(flatten(pool.deferred()) == first_only(pre, i as int) + q);
        lemma_room_left(cs, c4, dbls + q + l.add_block(), whole.len() as int, unc.len() as int);
    }
    let un = pool.flush_uncompute(counter);
    append_copy_of(gates, &un);
    let t_after_uncompute = counter.toffoli_count;
    proof {
        lemma_gates_recorded_concat(cs, c4, *counter, dbls + q + l.add_block(), un@);
        let e = then_all(pd, tail);
        lemma_effect_then_unchanged(c0, c4, *counter, e.0, e.1, e.2, e.3);
        assert(gates@ =~= g0 + l.window(tv, pre)(i as int));
        assert(dbls + q + l.add_block() + un@ =~= whole);
        lemma_counts_concat(dbls, q);
        lemma_counts_concat(dbls + q, l.add_block());
        lemma_counts_concat(dbls + q + l.add_block(), unc);
        lemma_counts_concat(q, unc);
    }
    let qrom_toffoli = (t_after_qrom - t_after_dbl) + (t_after_uncompute - t_after_add);
    (doubling_toffoli, qrom_toffoli, addition_toffoli)
}

/// The windows of the V3 multiplication, inside the pre-allocated scope.
#[verifier::rlimit(100)]
#[verifier::spinoff_prover]
fn v3_run_windows(
    Ghost(l): Ghost<V3Layout>,
    Ghost(pre): Ghost<Seq<Gate>>,
    Ghost(old_def): Ghost<Seq<Seq<Gate>>>,
    doubler: &ReversibleJacobianDoubleV3,
    adder: &ReversibleJacobianMixedAdd,
    sq: &KaratsubaSquarer,
    precomp: &PrecomputeTable,
    ancilla_pool: &mut AncillaPool,
    counter: &mut ResourceCounter,
    scalar_reg_offset: usize,
    point_x_offset: usize,
    point_y_offset: usize,
    point_z_offset: usize,
    point_az4_offset: usize,
    w: usize,
    n: usize,
    table_size: usize,
    base: usize,
    num_windows: usize,
) -> (r: (Vec<Gate>, (usize, usize, usize)))
    requires
        l.sro == scalar_reg_offset,
        l.px == point_x_offset,
        l.py == point_y_offset,
        l.pz == point_z_offset,
        l.paz == point_az4_offset,
        l.base == base,
        l.w == w,
        l.n == n,
        l.t == table_size,
        scalar_reg_offset + num_windows * w <= usize::MAX,
        w > 0,
        w < usize::BITS,
        n <= 64,
        l.fits(0),
        doubler.n == n,
        adder.n == n,
        sq.n == n,
        precomp.points@.len() == table_size,
        effect_wf(l.dbl_effect()),
        effect_wf(l.add_effect()),
        effect_wf(l.sq_effect()),
        effect_fits(*old(counter), l.rounds(num_windows as int)),
        old(counter).pre_allocated_depth > 0,
        gate_room(*old(counter), l.gates(precomp.point_views(), pre, num_windows as int).len() as int),
        old(ancilla_pool).wf(),
        old(ancilla_pool).deferred() == old_def,
        pre == flatten(old_def),
    ensures
        ({
            let tv = precomp.point_views();
            &&& r.0@ == l.gates(tv, pre, num_windows as int)
            &&& gates_recorded(*old(counter), *final(counter), l.gates(tv, pre, num_windows as int))
            &&& effect_holds(*old(counter), *final(counter), l.rounds(num_windows as int))
            &&& r.1.0 == count_toffoli(concat_map(|i: int| l.dbl_part(), 0, num_windows as int))
            &&& r.1.1 == count_toffoli(concat_map(|i: int| l.qrom_part(tv, pre, i), 0, num_windows as int))
            &&& r.1.2 == count_toffoli(concat_map(|i: int| l.add_block(), 0, num_windows as int))
            &&& r.1.0 + r.1.1 + r.1.2 == count_toffoli(l.gates(tv, pre, num_windows as int))
        }),
        final(ancilla_pool).wf(),
        final(ancilla_pool).next() == old(ancilla_pool).next(),
        final(ancilla_pool).base() == old(ancilla_pool).base(),
        final(ancilla_pool).strat() == old(ancilla_pool).strat(),
        final(ancilla_pool).num_registers() == old(ancilla_pool).num_registers(),
        final(ancilla_pool).deferred() == if num_windows == 0 {
            old_def
        } else {
            Seq::<Seq<Gate>>::empty()
        },
{
    let ghost c2 = *counter;
    let ghost zero = (0int, 0int, 0int, 0int);
    let ghost d = l.dbl_effect();
    let ghost tail = seq![l.add_effect(), l.sq_effect(), l.sq_effect()];
    let ghost rtot = l.rounds(num_windows as int);
    let ghost tv = precomp.point_views();
    let ghost whole = l.gates(tv, pre, num_windows as int);
    let ghost winf = l.window(tv, pre);
    let ghost wint = l.window(tv, pre);
    let ghost fd = |i: int| l.dbl_part();
    let ghost fq = |i: int| l.qrom_part(tv, pre, i);
    let ghost fa = |i: int| l.add_block();
    let ghost next0 = ancilla_pool.next();
    let ghost nreg0 = ancilla_pool.num_registers();
    proof {
        assert forall|k: int| 0 <= k < tail.len() implies effect_wf(#[trigger] tail[k]) by {}
    }
        let mut gates: Vec<Gate> = Vec::new();
    let mut doubling_toffoli: usize = 0;
    let mut qrom_toffoli: usize = 0;
    let mut addition_toffoli: usize = 0;
    proof {
        assert(concat_map(winf, 0, 0) =~= Seq::<Gate>::empty());
        assert(concat_map(wint, 0, 0) =~= Seq::<Gate>::empty());
        assert(concat_map(fd, 0, 0) =~= Seq::<Gate>::empty());
        assert(concat_map(fq, 0, 0) =~= Seq::<Gate>::empty());
        assert(concat_map(fa, 0, 0) =~= Seq::<Gate>::empty());
        assert(effect_holds(c2, c2, l.rounds(0)));
        assert(effect_fits(c2, rtot));
    }
    let mut i: usize = 0;
    while i < num_windows
        invariant
            i <= num_windows,
            scalar_reg_offset + num_windows * w <= usize::MAX,
            l.sro == scalar_reg_offset,
            l.px == point_x_offset,
            l.py == point_y_offset,
            l.pz == point_z_offset,
            l.paz == point_az4_offset,
            l.base == base,
            l.w == w,
            l.n == n,
            l.t == table_size,
            w > 0,
            w < usize::BITS,
            n <= 64,
            l.fits(0),
            doubler.n == n,
            adder.n == n,
            sq.n == n,
            tv == precomp.point_views(),
            precomp.points@.len() == table_size,
            winf == l.window(tv, pre),
            wint == l.window(tv, pre),
            fd == (|i: int| l.dbl_part()),
            fq == (|i: int| l.qrom_part(tv, pre, i)),
            fa == (|i: int| l.add_block()),
            whole == concat_map(wint, 0, num_windows as int),
            rtot == l.rounds(num_windows as int),
            zero == (0int, 0int, 0int, 0int),
            d == l.dbl_effect(),
            tail == seq![l.add_effect(), l.sq_effect(), l.sq_effect()],
            effect_wf(d),
            effect_wf(l.add_effect()),
            effect_wf(l.sq_effect()),
            forall|k: int| 0 <= k < tail.len() ==> effect_wf(#[trigger] tail[k]),
            effect_fits(c2, rtot),
            c2.pre_allocated_depth > 0,
            gate_room(c2, whole.len() as int),
            gates@ == concat_map(winf, 0, i as int),
            gates_recorded(c2, *counter, concat_map(wint, 0, i as int)),
            effect_holds(c2, *counter, l.rounds(i as int)),
            doubling_toffoli == count_toffoli(concat_map(fd, 0, i as int)),
            qrom_toffoli == count_toffoli(concat_map(fq, 0, i as int)),
            addition_toffoli == count_toffoli(concat_map(fa, 0, i as int)),
            doubling_toffoli + qrom_toffoli + addition_toffoli == count_toffoli(concat_map(wint, 0, i as int)),
            ancilla_pool.wf(),
            ancilla_pool.next() == next0,
            ancilla_pool.base() == old(ancilla_pool).base(),
            ancilla_pool.strat() == old(ancilla_pool).strat(),
            ancilla_pool.num_registers() == nreg0,
            ancilla_pool.deferred() == if i == 0 {
                old_def
            } else {
                Seq::<Seq<Gate>>::empty()
            },
            pre == flatten(old_def),
        decreases num_windows - i,
    {
        proof {
            lemma_concat_map_prefix(wint, 0, i as int, num_windows as int);
            lemma_concat_map_prefix(winf, 0, i as int, num_windows as int);
            lemma_concat_map_prefix(fd, 0, i as int, (i + 1) as int);
            lemma_concat_map_prefix(fq, 0, i as int, (i + 1) as int);
            lemma_concat_map_prefix(fa, 0, i as int, (i + 1) as int);
            lemma_room_left(c2, *counter, concat_map(wint, 0, i as int), whole.len() as int, wint(i as int).len() as int);
            assert(scalar_reg_offset + (i + 1) * w <= usize::MAX) by (nonlinear_arith)
                requires
                    scalar_reg_offset + num_windows * w <= usize::MAX,
                    i + 1 <= num_windows,
                    w > 0,
            ;
            lemma_rounds_grow(zero, d, tail, w as nat, i as nat, num_windows as nat);
            lemma_rounds_grow(zero, d, tail, w as nat, (i + 1) as nat, num_windows as nat);
            assert(l.rounds((i + 1) as int) == then_all(repeat_effect(l.rounds(i as int), d, w as nat), tail));
            if i > 0 {
                assert(flatten(Seq::<Seq<Gate>>::empty()) =~= Seq::<Gate>::empty());
            }
        }
        let ghost c3 = *counter;
        let (dt, qt, at) = v3_run_window(
            Ghost(l),
            Ghost(pre),
            Ghost(c2),
            Ghost(l.rounds(i as int)),
            Ghost(rtot),
            doubler,
            adder,
            sq,
            precomp,
            i,
            &mut gates,
            ancilla_pool,
            counter,
            scalar_reg_offset,
            point_x_offset,
            point_y_offset,
            point_z_offset,
            point_az4_offset,
            w,
            table_size,
            base,
        );
        proof {
            lemma_gates_recorded_concat(c2, c3, *counter, concat_map(wint, 0, i as int), wint(i as int));
            lemma_counts_concat(concat_map(wint, 0, i as int), wint(i as int));
            lemma_counts_concat(concat_map(fd, 0, i as int), fd(i as int));
            lemma_counts_concat(concat_map(fq, 0, i as int), fq(i as int));
            lemma_counts_concat(concat_map(fa, 0, i as int), fa(i as int));
        }
        doubling_toffoli = doubling_toffoli + dt;
        qrom_toffoli = qrom_toffoli + qt;
        addition_toffoli = addition_toffoli + at;
        i = i + 1;
    }
    (gates, (doubling_toffoli, qrom_toffoli, addition_toffoli))
}

impl WindowedScalarMulJacobianV3 {
    /// The register layout for the given offsets, with the ancilla
    /// registers handed out from `base`.
    pub open spec fn layout(&self, sro: int, px: int, py: int, pz: int, paz: int, base: int, curve: CurveParams) -> V3Layout {
        V3Layout {
            n: curve.field_bits as int,
            w: self.window_size as int,
            t: pow2(self.window_size as nat) as int,
            sro,
            px,
            py,
            pz,
            paz,
            base,
        }
    }

    /// The full gate sequence of the V3 windowed scalar multiplication by
    /// the scalar register, into the modified Jacobian accumulator (X, Y, Z,
    /// aZ⁴), with the Toffoli counts of the doublings, of the lookups with
    /// their uncomputation, and of the additions.
    ///
    /// Eight ancilla registers are taken from the pool (lookup x and y, the
    /// temporaries X, Y, Z, aZ⁴, a workspace of 13n + 2 qubits and the
    /// one-hot register of 2^w qubits); the windows run inside a
    /// pre-allocated scope.  Each window emits w doublings (swapped back),
    /// the one-hot lookup of [window]G, the mixed addition with the
    /// recomputation of aZ⁴ (swapped back), and the reversed lookup; the
    /// first window also reverses whatever the pool had deferred before.
    #[verifier::rlimit(100)]
    #[verifier::spinoff_prover]
    pub fn forward_gates(
        &self,
        scalar_reg_offset: usize,
        point_x_offset: usize,
        point_y_offset: usize,
        point_z_offset: usize,
        point_az4_offset: usize,
        ancilla_pool: &mut AncillaPool,
        counter: &mut ResourceCounter,
        curve: &CurveParams,
    ) -> (r: (Vec<Gate>, (usize, usize, usize)))
        requires
            self.window_size > 0,
            self.window_size < usize::BITS,
            curve.field_bits <= 64,
            old(ancilla_pool).wf(),
            old(counter).pre_allocated_depth < usize::MAX,
            self.layout(
                scalar_reg_offset as int,
                point_x_offset as int,
                point_y_offset as int,
                point_z_offset as int,
                point_az4_offset as int,
                old(ancilla_pool).next() as int,
                *curve,
            ).fits(self.scalar_bits as int),
            gate_room(
                *old(counter),
                self.layout(
                    scalar_reg_offset as int,
                    point_x_offset as int,
                    point_y_offset as int,
                    point_z_offset as int,
                    point_az4_offset as int,
                    old(ancilla_pool).next() as int,
                    *curve,
                ).gates(
                    multiples(curve.generator@, curve.a@, pow2(self.window_size as nat)),
                    flatten(old(ancilla_pool).deferred()),
                    (self.scalar_bits / self.window_size) as int,
                ).len() as int,
            ),
            effect_fits(
                *old(counter),
                self.layout(
                    scalar_reg_offset as int,
                    point_x_offset as int,
                    point_y_offset as int,
                    point_z_offset as int,
                    point_az4_offset as int,
                    old(ancilla_pool).next() as int,
                    *curve,
                ).effect((self.scalar_bits / self.window_size) as int),
            ),
        ensures
            ({
                let l = self.layout(
                    scalar_reg_offset as int,
                    point_x_offset as int,
                    point_y_offset as int,
                    point_z_offset as int,
                    point_az4_offset as int,
                    old(ancilla_pool).next() as int,
                    *curve,
                );
                let tv = multiples(curve.generator@, curve.a@, pow2(self.window_size as nat));
                let pre = flatten(old(ancilla_pool).deferred());
                let num = (self.scalar_bits / self.window_size) as int;
                &&& r.0@ == l.gates(tv, pre, num)
                &&& gates_recorded(*old(counter), *final(counter), l.gates(tv, pre, num))
                &&& effect_holds(*old(counter), *final(counter), l.effect(num))
                &&& r.1.0 == count_toffoli(concat_map(|i: int| l.dbl_part(), 0, num))
                &&& r.1.1 == count_toffoli(concat_map(|i: int| l.qrom_part(tv, pre, i), 0, num))
                &&& r.1.2 == count_toffoli(concat_map(|i: int| l.add_block(), 0, num))
                &&& r.1.0 + r.1.1 + r.1.2 == count_toffoli(l.gates(tv, pre, num))
                &&& final(ancilla_pool).next() == old(ancilla_pool).next() + l.allocated()
            }),
            final(counter).pre_allocated_depth == old(counter).pre_allocated_depth,
            final(ancilla_pool).wf(),
            final(ancilla_pool).base() == old(ancilla_pool).base(),
            final(ancilla_pool).strat() == old(ancilla_pool).strat(),
            final(ancilla_pool).num_registers() == old(ancilla_pool).num_registers() + 8,
            final(ancilla_pool).deferred() == if self.scalar_bits / self.window_size == 0 {
                old(ancilla_pool).deferred()
            } else {
                Seq::<Seq<Gate>>::empty()
            },
    {
        let n = curve.field_bits;
        let num_windows = self.num_windows();
        let w = self.window_size;
        let ghost c0 = *counter;
        let ghost l = self.layout(
            scalar_reg_offset as int,
            point_x_offset as int,
            point_y_offset as int,
            point_z_offset as int,
            point_az4_offset as int,
            ancilla_pool.next() as int,
            *curve,
        );
        let ghost pre = flatten(ancilla_pool.deferred());
        let ghost old_def = ancilla_pool.deferred();
        let ghost zero = (0int, 0int, 0int, 0int);
        let ghost d = l.dbl_effect();
        let ghost tail = seq![l.add_effect(), l.sq_effect(), l.sq_effect()];
        let ghost rtot = l.rounds(num_windows as int);
        proof {
            vstd::bits::lemma_usize_pow2_no_overflow(w as nat);
            vstd::bits::lemma_usize_shl_is_mul(1, w);
            lemma_ws_effect_wf(l.dbl_ctx(), l.dbl_ops(), 12 * l.n + 2);
            lemma_ws_effect_wf(l.add_ctx(), l.add_ops(), 13 * l.n + 2);
            crate::reversible::multiplier::lemma_karatsuba_ws_pos(l.n);
            assert forall|k: int| 0 <= k < tail.len() implies effect_wf(#[trigger] tail[k]) by {}
            lemma_rounds_grow(zero, d, tail, w as nat, 0, num_windows as nat);
        }
        let table_size: usize = 1usize << w;
        let lookup_x = take_register(ancilla_pool, "lookup_x", n, counter, Ghost(c0), Ghost(0), Ghost(l.allocated()));
        let base = lookup_x;
        let _lookup_y = take_register(ancilla_pool, "lookup_y", n, counter, Ghost(c0), Ghost(n as int), Ghost(l.allocated()));
        let _temp_x = take_register(ancilla_pool, "jac_temp_x", n, counter, Ghost(c0), Ghost(2 * n), Ghost(l.allocated()));
        let _temp_y = take_register(ancilla_pool, "jac_temp_y", n, counter, Ghost(c0), Ghost(3 * n), Ghost(l.allocated()));
        let _temp_z = take_register(ancilla_pool, "jac_temp_z", n, counter, Ghost(c0), Ghost(4 * n), Ghost(l.allocated()));
        let _temp_az4 = take_register(ancilla_pool, "jac_temp_az4", n, counter, Ghost(c0), Ghost(5 * n), Ghost(l.allocated()));
        let _ec_workspace = take_register(
            ancilla_pool,
            "ec_workspace_v3",
            13 * n + 2,
            counter,
            Ghost(c0),
            Ghost(6 * n),
            Ghost(l.allocated()),
        );
        let _one_hot = take_register(
            ancilla_pool,
            "qrom_one_hot",
            table_size,
            counter,
            Ghost(c0),
            Ghost(19 * n + 2),
            Ghost(l.allocated()),
        );
        let ghost c1 = *counter;
        let precomp = PrecomputeTable::generate_for_point(curve, &curve.generator, w);
        let doubler = ReversibleJacobianDoubleV3::new(n);
        let adder = ReversibleJacobianMixedAdd::new(n);
        let sq = KaratsubaSquarer::new(n);
        let ghost tv = precomp.point_views();
        let ghost whole = l.gates(tv, pre, num_windows as int);
        counter.enter_pre_allocated();
        let ghost c2 = *counter;
        proof {
            assert(num_windows * w <= self.scalar_bits) by (nonlinear_arith)
                requires
                    num_windows == self.scalar_bits / w,
                    w > 0,
            ;
            lemma_room_left(c0, c2, Seq::empty(), whole.len() as int, whole.len() as int);
            assert(effect_fits(c2, rtot));
            assert(precomp.point_views().len() == precomp.points@.len());
            assert(table_size == pow2(w as nat));
        }
        let r = v3_run_windows(
            Ghost(l),
            Ghost(pre),
            Ghost(old_def),
            &doubler,
            &adder,
            &sq,
            &precomp,
            ancilla_pool,
            counter,
            scalar_reg_offset,
            point_x_offset,
            point_y_offset,
            point_z_offset,
            point_az4_offset,
            w,
            n,
            table_size,
            base,
            num_windows,
        );
        let ghost c4 = *counter;
        counter.exit_pre_allocated();
        proof {
            lemma_gates_recorded_concat(c0, c2, c4, Seq::empty(), whole);
            assert(Seq::<Gate>::empty() + whole =~= whole);
            assert(effect_holds(c0, *counter, l.effect(num_windows as int)));
        }
        r
    }
}

} // verus!
