//! Reversible multiplication and squaring: schoolbook and Karatsuba integer
//! products, Goldilocks reduction, and Bennett compute-copy-uncompute.
use crate::reversible::adder::{
    append_cnot_where_set, append_mod_add, capture_adder, capture_adder_gates, cnot, cnot_where_set,
    cuccaro_gates, cuccaro_len, goldilocks_p, lemma_capture_len, lemma_cuccaro_len, modular_adder_gates,
    toffoli, CuccaroAdder,
};
use crate::reversible::blocks::{
    append_copy, append_copy_of, append_recorded, append_reversed, append_toffoli_row, concat_map,
    copy_gates, lemma_block_lens, lemma_concat_map_split, toffoli_row_gates,
};
use crate::reversible::gates::Gate;
use crate::reversible::modmul_laws::{computes_product_mod_p, lemma_modmul_gates_compute};
use crate::reversible::resource_counter::{
    ancilla_room, ancilla_scope, emit, gate_room, gates_recorded, lemma_gates_recorded_concat,
    lemma_room_left, qubits_unchanged, ResourceCounter,
};
use vstd::arithmetic::power2::pow2;
use vstd::prelude::*;

verus! {

/// One schoolbook row i: load pp[j] = a[i]·b[j], add pp into acc at column
/// i (n-bit Cuccaro adder whose carry-out lands in acc[i+n]), unload pp.
pub open spec fn mul_row(n: int, a: int, b: int, acc: int, pp: int, carry: int) -> spec_fn(int) -> Seq<Gate> {
    |i: int|
        toffoli_row_gates(a + i, b, pp, n) + capture_adder_gates(n, pp, acc + i, carry, acc + i + n)
            + toffoli_row_gates(a + i, b, pp, n)
}

/// The schoolbook partial-product accumulation acc += a·b.
pub open spec fn schoolbook_gates(n: int, a: int, b: int, acc: int, pp: int, carry: int) -> Seq<Gate> {
    concat_map(mul_row(n, a, b, acc, pp, carry), 0, n)
}

/// Toffoli(h, base+s → carry), CNOT(carry → base+s+1), Toffoli(h, base+s →
/// carry): one carry/borrow propagation step.
pub open spec fn carry3_step(h: int, base: int, carry: int) -> spec_fn(int) -> Seq<Gate> {
    |s: int| seq![toffoli(h, base + s, carry), cnot(carry, base + s + 1), toffoli(h, base + s, carry)]
}

/// The propagation chain of `len` steps above `base`.
pub open spec fn carry_chain(h: int, base: int, carry: int, len: int) -> Seq<Gate> {
    concat_map(carry3_step(h, base, carry), 0, len)
}

/// The fold of high bit n+k: +2^(k+half) (when k+half < n) and −2^k into
/// the low half, each a flip followed by a propagation chain.
pub open spec fn reduce_step(n: int, half: int, acc: int, carry: int) -> spec_fn(int) -> Seq<Gate> {
    |k: int|
        (if k + half < n {
            seq![cnot(acc + n + k, acc + k + half)] + carry_chain(
                acc + n + k,
                acc + k + half,
                carry,
                n - k - half - 1,
            )
        } else {
            Seq::empty()
        }) + seq![cnot(acc + n + k, acc + k)] + carry_chain(acc + n + k, acc + k, carry, n - k - 1)
}

/// The cost model of the Karatsuba multiplier's reduction: for every high
/// bit n+k of the accumulator, the flips and propagation chains of the fold
/// 2^n ≡ 2^half − 1 (mod p).  Each chain is a flip followed by Toffoli
/// carry propagation, priced as a controlled increment; the sequence is a
/// resource model of the fold, not an exact modular reduction (the
/// schoolbook multiplier's `mod_reduce_gates` is the exact one).
pub open spec fn reduce_gates(n: int, half: int, acc: int, carry: int) -> Seq<Gate> {
    concat_map(reduce_step(n, half, acc, carry), 0, n)
}

/// Compute, copy out, uncompute.
pub open spec fn bennett(fwd: Seq<Gate>, copy: Seq<Gate>) -> Seq<Gate> {
    fwd + copy + fwd.reverse()
}

/// 2^j mod p, the weight of accumulator bit j modulo the Goldilocks prime.
pub open spec fn fold_const(j: int) -> nat {
    pow2(j as nat) % goldilocks_p()
}

/// Reduction step j: pp ← x_j·(2^j mod p) (CNOTs from accumulator bit j),
/// r ← (r + pp) mod p, pp ← 0.
pub open spec fn mod_reduce_step(n: int, acc: int, pp: int, r: int, c: int, mw: int) -> spec_fn(int) -> Seq<Gate> {
    |j: int|
        cnot_where_set(fold_const(j), acc + j, pp, n) + modular_adder_gates(n, pp, r, c, mw) + cnot_where_set(
            fold_const(j),
            acc + j,
            pp,
            n,
        )
}

/// The reduction of the 2n-bit accumulator into r: the sum over its set
/// bits j of 2^j mod p, modulo p.
pub open spec fn mod_reduce_gates(n: int, acc: int, pp: int, r: int, c: int, mw: int) -> Seq<Gate> {
    concat_map(mod_reduce_step(n, acc, pp, r, c, mw), 0, 2 * n)
}

/// The forward half of the schoolbook modular multiplier with workspace at
/// ws: accumulator ws[0..2n], carry ws[2n], partial products ws[2n+1..3n+1],
/// the reduced value ws[3n+1..4n+1] and the modular adder's workspace
/// ws[4n+1..5n+2].
pub open spec fn schoolbook_modmul_forward(n: int, a: int, b: int, ws: int) -> Seq<Gate> {
    schoolbook_gates(n, a, b, ws, ws + 2 * n + 1, ws + 2 * n) + mod_reduce_gates(
        n,
        ws,
        ws + 2 * n + 1,
        ws + 3 * n + 1,
        ws + 2 * n,
        ws + 4 * n + 1,
    )
}

/// The whole schoolbook modular multiplier: forward pass, copy of the
/// reduced value into `result`, forward pass reversed.
pub open spec fn schoolbook_modmul_gates(n: int, a: int, b: int, result: int, ws: int) -> Seq<Gate> {
    bennett(schoolbook_modmul_forward(n, a, b, ws), copy_gates(ws + 3 * n + 1, result, n))
}

/// One reduction step has at most 38n + 10 gates.
pub proof fn lemma_mod_reduce_step_len(n: int, acc: int, pp: int, r: int, c: int, mw: int, j: int)
    requires
        1 <= n <= 64,
    ensures
        mod_reduce_step(n, acc, pp, r, c, mw)(j).len() <= 38 * n + 10,
{
    crate::reversible::adder::lemma_mod_add_len(n, pp, r, c, mw);
    crate::reversible::adder::lemma_where_set_len(fold_const(j), acc + j, pp, 0, n);
}

/// Appends the reduction of the accumulator into r.
#[verifier::rlimit(60)]
fn append_mod_reduce(
    gates: &mut Vec<Gate>,
    counter: &mut ResourceCounter,
    n: usize,
    acc: usize,
    pp: usize,
    r: usize,
    c: usize,
    mw: usize,
)
    requires
        1 <= n <= 64,
        acc + 2 * n <= usize::MAX,
        pp + n <= usize::MAX,
        r + n <= usize::MAX,
        mw + n + 1 <= usize::MAX,
        gate_room(*old(counter), mod_reduce_gates(n as int, acc as int, pp as int, r as int, c as int, mw as int).len() as int),
    ensures
        final(gates)@ == old(gates)@ + mod_reduce_gates(n as int, acc as int, pp as int, r as int, c as int, mw as int),
        gates_recorded(
            *old(counter),
            *final(counter),
            mod_reduce_gates(n as int, acc as int, pp as int, r as int, c as int, mw as int),
        ),
        qubits_unchanged(*old(counter), *final(counter)),
{
    let ghost c0 = *counter;
    let ghost g0 = gates@;
    let ghost f = mod_reduce_step(n as int, acc as int, pp as int, r as int, c as int, mw as int);
    let ghost total = mod_reduce_gates(n as int, acc as int, pp as int, r as int, c as int, mw as int);
    let p: u128 = 0xFFFF_FFFF_0000_0001;
    let mut cj: u64 = 1;
    let mut j: usize = 0;
    proof {
        vstd::arithmetic::power2::lemma2_to64();
        vstd::arithmetic::div_mod::lemma_small_mod(1, goldilocks_p());
    }
    while j < 2 * n
        invariant
            j <= 2 * n,
            1 <= n <= 64,
            acc + 2 * n <= usize::MAX,
            pp + n <= usize::MAX,
            r + n <= usize::MAX,
            mw + n + 1 <= usize::MAX,
            p == goldilocks_p(),
            cj as nat == fold_const(j as int),
            f == mod_reduce_step(n as int, acc as int, pp as int, r as int, c as int, mw as int),
            total == concat_map(f, 0, 2 * n),
            gate_room(c0, total.len() as int),
            gates@ == g0 + concat_map(f, 0, j as int),
            gates_recorded(c0, *counter, concat_map(f, 0, j as int)),
            qubits_unchanged(c0, *counter),
        decreases 2 * n - j,
    {
        let ghost d = concat_map(f, 0, j as int);
        let ghost cb = *counter;
        let ghost step = f(j as int);
        proof {
            crate::reversible::blocks::lemma_concat_map_prefix(f, 0, j as int, 2 * n);
            lemma_room_left(c0, cb, d, total.len() as int, step.len() as int);
            lemma_mod_reduce_step_len(n as int, acc as int, pp as int, r as int, c as int, mw as int, j as int);
            crate::reversible::adder::lemma_where_set_len(cj as nat, (acc + j) as int, pp as int, 0, n as int);
            crate::reversible::adder::lemma_mod_add_len(n as int, pp as int, r as int, c as int, mw as int);
        }
        let mut piece: Vec<Gate> = Vec::new();
        append_cnot_where_set(&mut piece, counter, cj, acc + j, pp, n);
        let ghost cm1 = *counter;
        let ghost x = cnot_where_set(cj as nat, (acc + j) as int, pp as int, n as int);
        let ghost y = modular_adder_gates(n as int, pp as int, r as int, c as int, mw as int);
        proof {
            lemma_room_left(cb, cm1, x, step.len() as int, y.len() as int);
        }
        append_mod_add(&mut piece, counter, n, pp, r, c, mw);
        let ghost cm2 = *counter;
        proof {
            lemma_gates_recorded_concat(cb, cm1, cm2, x, y);
            lemma_room_left(cb, cm2, x + y, step.len() as int, x.len() as int);
        }
        append_cnot_where_set(&mut piece, counter, cj, acc + j, pp, n);
        let ghost ca = *counter;
        proof {
            lemma_gates_recorded_concat(cb, cm2, ca, x + y, x);
            assert(piece@ =~= step);
        }
        append_recorded(gates, piece, Ghost(c0), Ghost(cb), Ghost(ca), Ghost(d));
        proof {
            assert(concat_map(f, 0, j + 1) == d + step);
            vstd::arithmetic::power2::lemma_pow2_unfold((j + 1) as nat);
            vstd::arithmetic::div_mod::lemma_mul_mod_noop_right(2, pow2(j as nat) as int, goldilocks_p() as int);
        }
        cj = ((2 * (cj as u128)) % p) as u64;
        j = j + 1;
    }
}

pub proof fn lemma_carry_chain_len(h: int, base: int, carry: int, len: int)
    requires
        len >= 0,
    ensures
        carry_chain(h, base, carry, len).len() == 3 * len,
{
    crate::reversible::blocks::lemma_concat_map_uniform_len(carry3_step(h, base, carry), 0, len, 3);
}

/// Appends the propagation chain of `len` steps.
fn append_carry_chain(
    gates: &mut Vec<Gate>,
    counter: &mut ResourceCounter,
    h: usize,
    base: usize,
    carry: usize,
    len: usize,
)
    requires
        base + len + 1 <= usize::MAX,
        gate_room(*old(counter), 3 * len),
    ensures
        final(gates)@ == old(gates)@ + carry_chain(h as int, base as int, carry as int, len as int),
        gates_recorded(
            *old(counter),
            *final(counter),
            carry_chain(h as int, base as int, carry as int, len as int),
        ),
        qubits_unchanged(*old(counter), *final(counter)),
{
    let ghost c0 = *counter;
    let ghost g0 = gates@;
    let ghost f = carry3_step(h as int, base as int, carry as int);
    let mut s: usize = 0;
    while s < len
        invariant
            s <= len,
            base + len + 1 <= usize::MAX,
            f == carry3_step(h as int, base as int, carry as int),
            gate_room(c0, 3 * len),
            gates@ == g0 + concat_map(f, 0, s as int),
            gates_recorded(c0, *counter, concat_map(f, 0, s as int)),
            qubits_unchanged(c0, *counter),
        decreases len - s,
    {
        proof {
            lemma_carry_chain_len(h as int, base as int, carry as int, s as int);
        }
        let pos = base + s;
        let g1 = Gate::Toffoli { control1: h, control2: pos, target: carry };
        let g2 = Gate::Cnot { control: carry, target: pos + 1 };
        let ghost d0 = concat_map(f, 0, s as int);
        proof {
            lemma_room_left(c0, *counter, d0, 3 * len, 3);
        }
        let ghost c1 = *counter;
        emit(gates, counter, g1);
        let ghost c2 = *counter;
        proof {
            lemma_gates_recorded_concat(c0, c1, c2, d0, seq![g1]);
            lemma_room_left(c0, c2, d0 + seq![g1], 3 * len, 2);
        }
        emit(gates, counter, g2);
        let ghost c3 = *counter;
        proof {
            lemma_gates_recorded_concat(c0, c2, c3, d0 + seq![g1], seq![g2]);
            lemma_room_left(c0, c3, d0 + seq![g1] + seq![g2], 3 * len, 1);
        }
        emit(gates, counter, g1);
        proof {
            lemma_gates_recorded_concat(c0, c3, *counter, d0 + seq![g1] + seq![g2], seq![g1]);
            assert(f(s as int) =~= seq![g1] + seq![g2] + seq![g1]);
            assert(d0 + seq![g1] + seq![g2] + seq![g1] =~= concat_map(f, 0, s + 1));
            assert(gates@ =~= g0 + concat_map(f, 0, s + 1));
        }
        s = s + 1;
    }
}

/// Appends the fold of high bit n+k.
fn append_reduce_step(
    gates: &mut Vec<Gate>,
    counter: &mut ResourceCounter,
    n: usize,
    half: usize,
    acc: usize,
    carry: usize,
    k: usize,
)
    requires
        k < n,
        acc + 2 * n + 1 <= usize::MAX,
        n + half <= usize::MAX,
        gate_room(
            *old(counter),
            reduce_step(n as int, half as int, acc as int, carry as int)(k as int).len() as int,
        ),
    ensures
        final(gates)@ == old(gates)@ + reduce_step(n as int, half as int, acc as int, carry as int)(
            k as int,
        ),
        gates_recorded(
            *old(counter),
            *final(counter),
            reduce_step(n as int, half as int, acc as int, carry as int)(k as int),
        ),
        qubits_unchanged(*old(counter), *final(counter)),
{
    let ghost c0 = *counter;
    let ghost g0 = gates@;
    let ghost step = reduce_step(n as int, half as int, acc as int, carry as int)(k as int);
    let h = acc + n + k;
    let ghost part1 = if k + half < n {
        seq![cnot(h as int, acc + k + half)] + carry_chain(
            h as int,
            acc + k + half,
            carry as int,
            n - k - half - 1,
        )
    } else {
        Seq::<Gate>::empty()
    };
    let ghost chain = carry_chain(h as int, acc + k, carry as int, n - k - 1);
    proof {
        assert(step == part1 + seq![cnot(h as int, acc + k)] + chain);
        lemma_carry_chain_len(h as int, acc + k, carry as int, n - k - 1);
        if k + half < n {
            lemma_carry_chain_len(h as int, acc + k + half, carry as int, n - k - half - 1);
        }
    }
    if k + half < n {
        emit(gates, counter, Gate::Cnot { control: h, target: acc + k + half });
        let ghost c1 = *counter;
        proof {
            lemma_room_left(c0, c1, seq![cnot(h as int, acc + k + half)], step.len() as int, 3 * (n - k - half - 1));
        }
        append_carry_chain(gates, counter, h, acc + k + half, carry, n - k - half - 1);
        proof {
            lemma_gates_recorded_concat(
                c0,
                c1,
                *counter,
                seq![cnot(h as int, acc + k + half)],
                carry_chain(h as int, acc + k + half, carry as int, n - k - half - 1),
            );
        }
    }
    proof {
        assert(gates@ =~= g0 + part1);
        if !(k + half < n) {
            assert(gates_recorded(c0, *counter, Seq::<Gate>::empty()));
        }
        lemma_room_left(c0, *counter, part1, step.len() as int, 1);
    }
    let ghost c2 = *counter;
    emit(gates, counter, Gate::Cnot { control: h, target: acc + k });
    let ghost c3 = *counter;
    proof {
        lemma_gates_recorded_concat(c0, c2, c3, part1, seq![cnot(h as int, acc + k)]);
        lemma_room_left(c0, c3, part1 + seq![cnot(h as int, acc + k)], step.len() as int, 3 * (n - k - 1));
    }
    append_carry_chain(gates, counter, h, acc + k, carry, n - k - 1);
    proof {
        lemma_gates_recorded_concat(c0, c3, *counter, part1 + seq![cnot(h as int, acc + k)], chain);
        assert(gates@ =~= g0 + step);
    }
}

/// Appends the reduction folding acc[n..2n] into acc[0..n].
fn append_reduce(
    gates: &mut Vec<Gate>,
    counter: &mut ResourceCounter,
    n: usize,
    half: usize,
    acc: usize,
    carry: usize,
)
    requires
        acc + 2 * n + 1 <= usize::MAX,
        n + half <= usize::MAX,
        gate_room(*old(counter), reduce_gates(n as int, half as int, acc as int, carry as int).len() as int),
    ensures
        final(gates)@ == old(gates)@ + reduce_gates(n as int, half as int, acc as int, carry as int),
        gates_recorded(
            *old(counter),
            *final(counter),
            reduce_gates(n as int, half as int, acc as int, carry as int),
        ),
        qubits_unchanged(*old(counter), *final(counter)),
{
    let ghost c0 = *counter;
    let ghost g0 = gates@;
    let ghost f = reduce_step(n as int, half as int, acc as int, carry as int);
    let ghost total = reduce_gates(n as int, half as int, acc as int, carry as int);
    let mut k: usize = 0;
    while k < n
        invariant
            k <= n,
            n + half <= usize::MAX,
            acc + 2 * n + 1 <= usize::MAX,
            f == reduce_step(n as int, half as int, acc as int, carry as int),
            total == concat_map(f, 0, n as int),
            gate_room(c0, total.len() as int),
            gates@ == g0 + concat_map(f, 0, k as int),
            gates_recorded(c0, *counter, concat_map(f, 0, k as int)),
            qubits_unchanged(c0, *counter),
        decreases n - k,
    {
        let ghost d0 = concat_map(f, 0, k as int);
        proof {
            lemma_concat_map_split(f, 0, k + 1, n as int);
            assert(concat_map(f, 0, k + 1) == d0 + f(k as int));
            lemma_room_left(c0, *counter, d0, total.len() as int, f(k as int).len() as int);
        }
        let ghost c1 = *counter;
        append_reduce_step(gates, counter, n, half, acc, carry, k);
        proof {
            lemma_gates_recorded_concat(c0, c1, *counter, d0, f(k as int));
            assert(gates@ =~= g0 + concat_map(f, 0, k + 1));
        }
        k = k + 1;
    }
}

/// Appends schoolbook row i.
fn append_mul_row(
    gates: &mut Vec<Gate>,
    counter: &mut ResourceCounter,
    n: usize,
    a: usize,
    b: usize,
    acc: usize,
    pp: usize,
    carry: usize,
    i: usize,
)
    requires
        i < n,
        a + n <= usize::MAX,
        b + n <= usize::MAX,
        acc + 2 * n <= usize::MAX,
        pp + n <= usize::MAX,
        gate_room(
            *old(counter),
            mul_row(n as int, a as int, b as int, acc as int, pp as int, carry as int)(i as int).len() as int,
        ),
    ensures
        final(gates)@ == old(gates)@ + mul_row(n as int, a as int, b as int, acc as int, pp as int, carry as int)(
            i as int,
        ),
        gates_recorded(
            *old(counter),
            *final(counter),
            mul_row(n as int, a as int, b as int, acc as int, pp as int, carry as int)(i as int),
        ),
        qubits_unchanged(*old(counter), *final(counter)),
{
    let ghost c0 = *counter;
    let ghost g0 = gates@;
    let ghost row = toffoli_row_gates((a + i) as int, b as int, pp as int, n as int);
    let ghost add = capture_adder_gates(n as int, pp as int, (acc + i) as int, carry as int, (acc + i + n) as int);
    let ghost step = mul_row(n as int, a as int, b as int, acc as int, pp as int, carry as int)(i as int);
    proof {
        assert(step == row + add + row);
        lemma_block_lens((a + i) as int, b as int, pp as int, n as int);
        lemma_capture_len(n as int, pp as int, (acc + i) as int, carry as int, (acc + i + n) as int);
    }
    append_toffoli_row(gates, counter, a + i, b, pp, n);
    let ghost c1 = *counter;
    proof {
        lemma_room_left(c0, c1, row, step.len() as int, 6 * n + 1);
    }
    let sub = capture_adder(n, pp, acc + i, carry, acc + i + n, counter);
    let ghost c2 = *counter;
    append_recorded(gates, sub, Ghost(c0), Ghost(c1), Ghost(c2), Ghost(row));
    proof {
        lemma_room_left(c0, c2, row + add, step.len() as int, n as int);
    }
    append_toffoli_row(gates, counter, a + i, b, pp, n);
    proof {
        lemma_gates_recorded_concat(c0, c2, *counter, row + add, row);
        assert(gates@ =~= g0 + step);
    }
}

/// Appends the schoolbook accumulation acc += a·b (partial products in pp,
/// adder carry in `carry`).
fn append_schoolbook(
    gates: &mut Vec<Gate>,
    counter: &mut ResourceCounter,
    n: usize,
    a: usize,
    b: usize,
    acc: usize,
    pp: usize,
    carry: usize,
)
    requires
        a + n <= usize::MAX,
        b + n <= usize::MAX,
        acc + 2 * n <= usize::MAX,
        pp + n <= usize::MAX,
        gate_room(
            *old(counter),
            schoolbook_gates(n as int, a as int, b as int, acc as int, pp as int, carry as int).len() as int,
        ),
    ensures
        final(gates)@ == old(gates)@ + schoolbook_gates(
            n as int,
            a as int,
            b as int,
            acc as int,
            pp as int,
            carry as int,
        ),
        gates_recorded(
            *old(counter),
            *final(counter),
            schoolbook_gates(n as int, a as int, b as int, acc as int, pp as int, carry as int),
        ),
        qubits_unchanged(*old(counter), *final(counter)),
{
    let ghost c0 = *counter;
    let ghost g0 = gates@;
    let ghost f = mul_row(n as int, a as int, b as int, acc as int, pp as int, carry as int);
    let ghost total = schoolbook_gates(n as int, a as int, b as int, acc as int, pp as int, carry as int);
    let mut i: usize = 0;
    while i < n
        invariant
            i <= n,
            a + n <= usize::MAX,
            b + n <= usize::MAX,
            acc + 2 * n <= usize::MAX,
            pp + n <= usize::MAX,
            f == mul_row(n as int, a as int, b as int, acc as int, pp as int, carry as int),
            total == concat_map(f, 0, n as int),
            gate_room(c0, total.len() as int),
            gates@ == g0 + concat_map(f, 0, i as int),
            gates_recorded(c0, *counter, concat_map(f, 0, i as int)),
            qubits_unchanged(c0, *counter),
        decreases n - i,
    {
        let ghost d0 = concat_map(f, 0, i as int);
        proof {
            lemma_concat_map_split(f, 0, i + 1, n as int);
            assert(concat_map(f, 0, i + 1) == d0 + f(i as int));
            lemma_room_left(c0, *counter, d0, total.len() as int, f(i as int).len() as int);
        }
        let ghost c1 = *counter;
        append_mul_row(gates, counter, n, a, b, acc, pp, carry, i);
        proof {
            lemma_gates_recorded_concat(c0, c1, *counter, d0, f(i as int));
            assert(gates@ =~= g0 + concat_map(f, 0, i + 1));
        }
        i = i + 1;
    }
}

/// The workspace of the schoolbook integer product: n partial-product
/// qubits and one carry.
fn schoolbook_int_ws(n: usize) -> (r: usize)
    requires
        n < usize::MAX,
    ensures
        r == n + 1,
{
    n + 1
}

/// Schoolbook integer product acc[0..2n] += a·b; the workspace (pp at ws,
/// carry at ws+n) returns to zero.
fn schoolbook_integer_mul(
    n: usize,
    a: usize,
    b: usize,
    acc: usize,
    ws: usize,
    counter: &mut ResourceCounter,
) -> (r: Vec<Gate>)
    requires
        a + n <= usize::MAX,
        b + n <= usize::MAX,
        acc + 2 * n <= usize::MAX,
        ws + n + 1 <= usize::MAX,
        gate_room(
            *old(counter),
            schoolbook_gates(n as int, a as int, b as int, acc as int, ws as int, ws + n).len() as int,
        ),
    ensures
        r@ == schoolbook_gates(n as int, a as int, b as int, acc as int, ws as int, ws + n),
        gates_recorded(*old(counter), *final(counter), r@),
        qubits_unchanged(*old(counter), *final(counter)),
{
    let mut gates: Vec<Gate> = Vec::new();
    append_schoolbook(&mut gates, counter, n, a, b, acc, ws, ws + n);
    proof {
        assert(gates@ =~= schoolbook_gates(n as int, a as int, b as int, acc as int, ws as int, ws + n));
    }
    gates
}

/// Goldilocks reduction: fold acc[n..2n] into acc[0..n] using
/// 2^n ≡ 2^(n/2) − 1 (mod p); `carry` starts and ends at zero.
fn goldilocks_reduce(n: usize, acc: usize, carry: usize, counter: &mut ResourceCounter) -> (r: Vec<Gate>)
    requires
        acc + 2 * n + 1 <= usize::MAX,
        gate_room(*old(counter), reduce_gates(n as int, (n / 2) as int, acc as int, carry as int).len() as int),
    ensures
        r@ == reduce_gates(n as int, (n / 2) as int, acc as int, carry as int),
        gates_recorded(*old(counter), *final(counter), r@),
        qubits_unchanged(*old(counter), *final(counter)),
{
    let half = n / 2;
    let mut gates: Vec<Gate> = Vec::new();
    append_reduce(&mut gates, counter, n, half, acc, carry);
    proof {
        assert(gates@ =~= reduce_gates(n as int, (n / 2) as int, acc as int, carry as int));
    }
    gates
}

/// Cuccaro addition with carry-out capture: sum[0..n+1] = sum[0..n] +
/// add[0..n], sum[n] receiving the carry-out; `add` is preserved.
fn add_with_carryout(n: usize, add: usize, sum: usize, carry: usize, counter: &mut ResourceCounter) -> (r:
    Vec<Gate>)
    requires
        n >= 1,
        add + n <= usize::MAX,
        sum + n + 1 <= usize::MAX,
        gate_room(*old(counter), 6 * n + 1),
    ensures
        r@ == capture_adder_gates(n as int, add as int, sum as int, carry as int, sum + n),
        r@.len() == 6 * n + 1,
        gates_recorded(*old(counter), *final(counter), r@),
        qubits_unchanged(*old(counter), *final(counter)),
{
    capture_adder(n, add, sum, carry, sum + n, counter)
}

/// Reversible integer subtraction b −= a (a preserved): the Cuccaro adder's
/// gates in reverse order.  Only the emitted gates are recorded.
pub fn cuccaro_subtract(n: usize, a: usize, b: usize, carry: usize, counter: &mut ResourceCounter) -> (r:
    Vec<Gate>)
    requires
        a + n <= usize::MAX,
        b + n <= usize::MAX,
        gate_room(*old(counter), cuccaro_len(n as int)),
    ensures
        r@ == cuccaro_gates(n as int, a as int, b as int, carry as int).reverse(),
        r@.len() == cuccaro_len(n as int),
        gates_recorded(*old(counter), *final(counter), r@),
        qubits_unchanged(*old(counter), *final(counter)),
{
    let mut tmp_counter = ResourceCounter::new();
    let adder = CuccaroAdder::new(n);
    let fwd = adder.forward_gates(a, b, carry, &mut tmp_counter);
    let mut gates: Vec<Gate> = Vec::new();
    append_reversed(&mut gates, counter, &fwd);
    proof {
        assert(gates@ =~= fwd@.reverse());
    }
    gates
}

/// Reversible modular multiplier for GF(p) (schoolbook method):
/// |a⟩|b⟩|0⟩ → |a⟩|b⟩|a·b mod p⟩ with O(n²) Toffoli gates.
pub struct ReversibleMultiplier {
    /// Number of bits per operand.
    pub n: usize,
}

impl ReversibleMultiplier {
    pub fn new(n: usize) -> (r: Self)
        ensures
            r.n == n,
    {
        Self { n }
    }

    /// The multiplier's gates |a⟩|b⟩|0⟩ → |a⟩|b⟩|a·b mod p⟩: schoolbook
    /// accumulation of the integer product into a 2n-bit accumulator and its
    /// reduction modulo p by modular additions of 2^j mod p for each set bit
    /// j (the forward pass), a copy of the reduced value into `result`, and
    /// the forward pass in reverse.  The 5n+2 workspace qubits are allocated
    /// and released in the counter.  For 64-bit operands the gates compute
    /// the product: from a zero result register and a zero workspace they
    /// leave a·b mod p in `result` and every other qubit as it was.
    pub fn forward_gates(
        &self,
        a_offset: usize,
        b_offset: usize,
        result_offset: usize,
        workspace_offset: usize,
        counter: &mut ResourceCounter,
    ) -> (r: Vec<Gate>)
        requires
            1 <= self.n <= 64,
            a_offset + self.n <= usize::MAX,
            b_offset + self.n <= usize::MAX,
            result_offset + self.n <= usize::MAX,
            workspace_offset + 5 * self.n + 2 <= usize::MAX,
            gate_room(
                *old(counter),
                schoolbook_modmul_gates(
                    self.n as int,
                    a_offset as int,
                    b_offset as int,
                    result_offset as int,
                    workspace_offset as int,
                ).len() as int,
            ),
            ancilla_room(*old(counter), 5 * self.n + 2, 5 * self.n + 2),
        ensures
            r@ == schoolbook_modmul_gates(
                self.n as int,
                a_offset as int,
                b_offset as int,
                result_offset as int,
                workspace_offset as int,
            ),
            gates_recorded(*old(counter), *final(counter), r@),
            ancilla_scope(*old(counter), *final(counter), 5 * self.n + 2, 5 * self.n + 2),
            self.n == 64 ==> computes_product_mod_p(
                r@,
                a_offset as int,
                b_offset as int,
                result_offset as int,
                workspace_offset as int,
            ),
    {
        let n = self.n;
        let ghost c0 = *counter;
        proof {
            lemma_modmul_gates_compute(a_offset as int, b_offset as int, result_offset as int, workspace_offset as int);
        }
        let acc = workspace_offset;
        let carry = workspace_offset + 2 * n;
        let pp = workspace_offset + 2 * n + 1;
        let rr = workspace_offset + 3 * n + 1;
        let mw = workspace_offset + 4 * n + 1;
        let ghost fwd_spec = schoolbook_modmul_forward(n as int, a_offset as int, b_offset as int, acc as int);
        let ghost total = schoolbook_modmul_gates(
            n as int,
            a_offset as int,
            b_offset as int,
            result_offset as int,
            workspace_offset as int,
        );
        let ghost sb = schoolbook_gates(n as int, a_offset as int, b_offset as int, acc as int, pp as int, carry as int);
        let ghost rd = mod_reduce_gates(n as int, acc as int, pp as int, rr as int, carry as int, mw as int);
        proof {
            assert(fwd_spec == sb + rd);
            lemma_block_lens(rr as int, result_offset as int, 0, n as int);
            assert(total.len() == 2 * fwd_spec.len() + n);
        }
        counter.allocate_ancilla(5 * n + 2);
        let ghost c1 = *counter;
        proof {
            lemma_room_left(c0, c1, Seq::empty(), total.len() as int, sb.len() as int);
        }
        let mut fwd: Vec<Gate> = Vec::new();
        append_schoolbook(&mut fwd, counter, n, a_offset, b_offset, acc, pp, carry);
        let ghost c2 = *counter;
        proof {
            lemma_room_left(c0, c2, sb, total.len() as int, rd.len() as int);
        }
        append_mod_reduce(&mut fwd, counter, n, acc, pp, rr, carry, mw);
        let ghost c3 = *counter;
        proof {
            lemma_gates_recorded_concat(c0, c2, c3, sb, rd);
            assert(fwd@ =~= fwd_spec);
            lemma_room_left(c0, c3, fwd_spec, total.len() as int, n as int);
        }
        let mut gates: Vec<Gate> = Vec::new();
        append_copy_of(&mut gates, &fwd);
        append_copy(&mut gates, counter, rr, result_offset, n);
        let ghost c4 = *counter;
        proof {
            let cp = copy_gates(rr as int, result_offset as int, n as int);
            lemma_gates_recorded_concat(c0, c3, c4, fwd_spec, cp);
            lemma_room_left(c0, c4, fwd_spec + cp, total.len() as int, fwd_spec.len() as int);
        }
        append_reversed(&mut gates, counter, &fwd);
        proof {
            let cp = copy_gates(rr as int, result_offset as int, n as int);
            lemma_gates_recorded_concat(c0, c4, *counter, fwd_spec + cp, fwd_spec.reverse());
            assert(gates@ =~= total);
        }
        counter.free_ancilla(5 * n + 2);
        gates
    }
}

/// Reversible modular squaring: the multiplier with both inputs on the same
/// register.
pub struct ReversibleSquarer {
    pub n: usize,
}

impl ReversibleSquarer {
    pub fn new(n: usize) -> (r: Self)
        ensures
            r.n == n,
    {
        Self { n }
    }

    /// |a⟩|0⟩ → |a⟩|a² mod p⟩: the multiplier's gates with b = a.
    pub fn forward_gates(
        &self,
        input_offset: usize,
        result_offset: usize,
        workspace_offset: usize,
        counter: &mut ResourceCounter,
    ) -> (r: Vec<Gate>)
        requires
            1 <= self.n <= 64,
            input_offset + self.n <= usize::MAX,
            result_offset + self.n <= usize::MAX,
            workspace_offset + 5 * self.n + 2 <= usize::MAX,
            gate_room(
                *old(counter),
                schoolbook_modmul_gates(
                    self.n as int,
                    input_offset as int,
                    input_offset as int,
                    result_offset as int,
                    workspace_offset as int,
                ).len() as int,
            ),
            ancilla_room(*old(counter), 5 * self.n + 2, 5 * self.n + 2),
        ensures
            r@ == schoolbook_modmul_gates(
                self.n as int,
                input_offset as int,
                input_offset as int,
                result_offset as int,
                workspace_offset as int,
            ),
            gates_recorded(*old(counter), *final(counter), r@),
            ancilla_scope(*old(counter), *final(counter), 5 * self.n + 2, 5 * self.n + 2),
            self.n == 64 ==> computes_product_mod_p(
                r@,
                input_offset as int,
                input_offset as int,
                result_offset as int,
                workspace_offset as int,
            ),
    {
        let mul = ReversibleMultiplier::new(self.n);
        mul.forward_gates(input_offset, input_offset, result_offset, workspace_offset, counter)
    }
}

/// One squaring row i (cross terms a[i]·a[j], j > i): load them into pp,
/// add the (n−1−i)-bit row into acc at column 2i+2 (the doubled position),
/// unload.
pub open spec fn sq_row(n: int, a: int, acc: int, pp: int, carry: int) -> spec_fn(int) -> Seq<Gate> {
    |i: int|
        toffoli_row_gates(a + i, a + i + 1, pp, n - 1 - i) + cuccaro_gates(
            n - 1 - i,
            pp,
            acc + 2 * i + 2,
            carry,
        ) + toffoli_row_gates(a + i, a + i + 1, pp, n - 1 - i)
}

/// CNOT(a+i → acc+2i): the diagonal term a[i]² = a[i].
pub open spec fn diag_step(a: int, acc: int) -> spec_fn(int) -> Seq<Gate> {
    |i: int| seq![cnot(a + i, acc + 2 * i)]
}

/// The symmetry-optimised schoolbook square acc += a²: cross-term rows
/// 0..n−1, then the diagonal.
pub open spec fn schoolbook_square_gates(n: int, a: int, acc: int, pp: int, carry: int) -> Seq<Gate> {
    concat_map(sq_row(n, a, acc, pp, carry), 0, n - 1) + concat_map(diag_step(a, acc), 0, n)
}

/// Appends squaring row i.
fn append_sq_row(
    gates: &mut Vec<Gate>,
    counter: &mut ResourceCounter,
    n: usize,
    a: usize,
    acc: usize,
    pp: usize,
    carry: usize,
    i: usize,
)
    requires
        i + 1 < n,
        a + n <= usize::MAX,
        acc + 2 * n <= usize::MAX,
        pp + n <= usize::MAX,
        gate_room(*old(counter), sq_row(n as int, a as int, acc as int, pp as int, carry as int)(i as int).len() as int),
    ensures
        final(gates)@ == old(gates)@ + sq_row(n as int, a as int, acc as int, pp as int, carry as int)(i as int),
        gates_recorded(
            *old(counter),
            *final(counter),
            sq_row(n as int, a as int, acc as int, pp as int, carry as int)(i as int),
        ),
        qubits_unchanged(*old(counter), *final(counter)),
{
    let ghost c0 = *counter;
    let ghost g0 = gates@;
    let row_width = n - 1 - i;
    let add_pos = 2 * i + 2;
    let add_width = if row_width < 2 * n - add_pos {
        row_width
    } else {
        2 * n - add_pos
    };
    let ghost row = toffoli_row_gates((a + i) as int, (a + i + 1) as int, pp as int, row_width as int);
    let ghost add = cuccaro_gates(row_width as int, pp as int, (acc + add_pos) as int, carry as int);
    let ghost step = sq_row(n as int, a as int, acc as int, pp as int, carry as int)(i as int);
    proof {
        assert(add_width == row_width);
        assert(step == row + add + row);
        lemma_block_lens((a + i) as int, (a + i + 1) as int, pp as int, row_width as int);
        lemma_cuccaro_len(row_width as int, pp as int, (acc + add_pos) as int, carry as int);
    }
    append_toffoli_row(gates, counter, a + i, a + i + 1, pp, row_width);
    let ghost c1 = *counter;
    proof {
        lemma_room_left(c0, c1, row, step.len() as int, cuccaro_len(row_width as int));
    }
    if add_width > 0 {
        let adder = CuccaroAdder::new(add_width);
        let sub = adder.forward_gates(pp, acc + add_pos, carry, counter);
        let ghost c2 = *counter;
        append_recorded(gates, sub, Ghost(c0), Ghost(c1), Ghost(c2), Ghost(row));
    }
    let ghost c2 = *counter;
    proof {
        lemma_room_left(c0, c2, row + add, step.len() as int, row_width as int);
    }
    append_toffoli_row(gates, counter, a + i, a + i + 1, pp, row_width);
    proof {
        lemma_gates_recorded_concat(c0, c2, *counter, row + add, row);
        assert(gates@ =~= g0 + step);
    }
}

/// Symmetry-optimised schoolbook integer squaring acc[0..2n] += a²: each
/// cross term a[i]·a[j] (i < j) is formed once and added at the doubled
/// position i+j+1; diagonal terms are CNOTs.  Workspace pp at ws, carry at
/// ws+n.
fn schoolbook_integer_square(n: usize, a: usize, acc: usize, ws: usize, counter: &mut ResourceCounter) -> (r:
    Vec<Gate>)
    requires
        a + n <= usize::MAX,
        acc + 2 * n <= usize::MAX,
        ws + n + 1 <= usize::MAX,
        gate_room(
            *old(counter),
            schoolbook_square_gates(n as int, a as int, acc as int, ws as int, ws + n).len() as int,
        ),
    ensures
        r@ == schoolbook_square_gates(n as int, a as int, acc as int, ws as int, ws + n),
        gates_recorded(*old(counter), *final(counter), r@),
        qubits_unchanged(*old(counter), *final(counter)),
{
    let ghost c0 = *counter;
    let pp = ws;
    let carry = ws + n;
    let ghost f = sq_row(n as int, a as int, acc as int, pp as int, carry as int);
    let ghost d = diag_step(a as int, acc as int);
    let ghost total = schoolbook_square_gates(n as int, a as int, acc as int, ws as int, ws + n);
    let mut gates: Vec<Gate> = Vec::new();
    let mut i: usize = 0;
    while i + 1 < n
        invariant
            i <= n || n == 0,
            i == 0 || i < n,
            a + n <= usize::MAX,
            acc + 2 * n <= usize::MAX,
            pp + n <= usize::MAX,
            f == sq_row(n as int, a as int, acc as int, pp as int, carry as int),
            total == concat_map(f, 0, n - 1) + concat_map(d, 0, n as int),
            gate_room(c0, total.len() as int),
            gates@ == concat_map(f, 0, i as int),
            gates_recorded(c0, *counter, gates@),
            qubits_unchanged(c0, *counter),
        decreases n - i,
    {
        let ghost d0 = concat_map(f, 0, i as int);
        proof {
            lemma_concat_map_split(f, 0, i + 1, n - 1);
            assert(concat_map(f, 0, i + 1) == d0 + f(i as int));
            lemma_room_left(c0, *counter, d0, total.len() as int, f(i as int).len() as int);
        }
        let ghost c1 = *counter;
        append_sq_row(&mut gates, counter, n, a, acc, pp, carry, i);
        proof {
            lemma_gates_recorded_concat(c0, c1, *counter, d0, f(i as int));
            assert(gates@ =~= concat_map(f, 0, i + 1));
        }
        i = i + 1;
    }
    let ghost rows = gates@;
    proof {
        assert(rows == concat_map(f, 0, n - 1)) by {
            if n > 0 {
                assert(i == n - 1);
            }
        }
    }
    let mut k: usize = 0;
    while k < n
        invariant
            k <= n,
            a + n <= usize::MAX,
            acc + 2 * n <= usize::MAX,
            d == diag_step(a as int, acc as int),
            total == rows + concat_map(d, 0, n as int),
            gate_room(c0, total.len() as int),
            gates@ == rows + concat_map(d, 0, k as int),
            gates_recorded(c0, *counter, gates@),
            qubits_unchanged(c0, *counter),
        decreases n - k,
    {
        proof {
            lemma_concat_map_split(d, 0, k + 1, n as int);
            assert(concat_map(d, 0, k + 1) == concat_map(d, 0, k as int) + d(k as int));
            lemma_room_left(c0, *counter, gates@, total.len() as int, 1);
        }
        let pos = 2 * k;
        let ghost c1 = *counter;
        let ghost g1 = gates@;
        if pos < 2 * n {
            emit(&mut gates, counter, Gate::Cnot { control: a + k, target: acc + pos });
        }
        proof {
            assert(d(k as int) == seq![cnot(a + k, acc + 2 * k)]);
            lemma_gates_recorded_concat(c0, c1, *counter, g1, d(k as int));
            assert(gates@ =~= g1 + d(k as int));
            assert(gates@ =~= rows + concat_map(d, 0, k + 1));
        }
        k = k + 1;
    }
    gates
}

/// The larger of two integers.
pub open spec fn imax(x: int, y: int) -> int {
    if x >= y {
        x
    } else {
        y
    }
}

/// The smaller of two integers.
pub open spec fn imin(x: int, y: int) -> int {
    if x <= y {
        x
    } else {
        y
    }
}

/// Workspace of the recursive Karatsuba integer product: per level the
/// intermediates z2 (2·h_hi), sa and sb (h_sum each), z1 (2·h_sum) and three
/// carries, plus a separate sub-workspace for each of the three
/// sub-products.
#[verifier::opaque]
pub open spec fn karatsuba_ws(n: int) -> int
    decreases n,
{
    if n <= 8 {
        n + 1
    } else {
        let h = kara_h(n);
        let hh = kara_hh(n);
        let hs = kara_hs(n);
        2 * hh + hs + hs + 2 * hs + 3 + karatsuba_ws(h) + karatsuba_ws(hh) + karatsuba_ws(hs)
    }
}

/// Low operand half h = ⌊n/2⌋.
pub open spec fn kara_h(n: int) -> int {
    n / 2
}

/// High operand half n − h.
pub open spec fn kara_hh(n: int) -> int {
    n - n / 2
}

/// Width of the half sums: max(h, n − h) + 1.
pub open spec fn kara_hs(n: int) -> int {
    imax(kara_h(n), kara_hh(n)) + 1
}

/// sum ← x_lo + x_hi with carry-out: copy the low half into `sum`, then add
/// the high half with the carry-out landing in sum[hh].
pub open spec fn kara_sum_gates(h: int, hh: int, x: int, sum: int, carry: int) -> Seq<Gate> {
    copy_gates(x, sum, h) + capture_adder_gates(hh, x + h, sum, carry, sum + hh)
}

/// z1 −= z0, z1 −= z2, acc[h..] += z1, acc[n..] += z2.
pub open spec fn kara_combine_gates(n: int, acc: int, z2: int, z1: int, cc: int) -> Seq<Gate> {
    let h = kara_h(n);
    let hh = kara_hh(n);
    let hs = kara_hs(n);
    cuccaro_gates(imin(2 * h, 2 * hs), acc, z1, cc).reverse() + cuccaro_gates(
        imin(2 * hh, 2 * hs),
        z2,
        z1,
        cc,
    ).reverse() + cuccaro_gates(imin(2 * hs, 2 * n - h), z1, acc + h, cc) + cuccaro_gates(
        imin(2 * hh, n),
        z2,
        acc + n,
        cc,
    )
}

/// The Karatsuba integer product acc[0..2n] += a·b (or a² when `sq`),
/// workspace at ws (left dirty; the caller uncomputes).  Level layout:
/// z2 at ws, sa, sb, z1, three carries, then the three sub-workspaces.
pub open spec fn karatsuba_gates(n: int, a: int, b: int, acc: int, ws: int, sq: bool) -> Seq<Gate>
    decreases n, 1int,
{
    if n <= 8 {
        if sq {
            schoolbook_square_gates(n, a, acc, ws, ws + n)
        } else {
            schoolbook_gates(n, a, b, acc, ws, ws + n)
        }
    } else {
        let h = kara_h(n);
        let hh = kara_hh(n);
        let hs = kara_hs(n);
        let sub0 = ws + 2 * hh + 4 * hs + 3;
        karatsuba_gates(h, a, b, acc, sub0, sq) + karatsuba_gates(
            hh,
            a + h,
            b + h,
            ws,
            sub0 + karatsuba_ws(h),
            sq,
        ) + kara_middle_gates(n, a, b, ws, sq) + kara_combine_gates(
            n,
            acc,
            ws,
            ws + 2 * hh + 2 * hs,
            ws + 2 * hh + 4 * hs + 2,
        )
    }
}

/// The middle of a Karatsuba level: the half sums sa = a_lo + a_hi (and
/// sb = b_lo + b_hi) and the product z1 of the sums.
pub open spec fn kara_middle_gates(n: int, a: int, b: int, ws: int, sq: bool) -> Seq<Gate>
    decreases n, 0int,
{
    if n <= 8 {
        Seq::empty()
    } else {
        let h = kara_h(n);
        let hh = kara_hh(n);
        let hs = kara_hs(n);
        let sa = ws + 2 * hh;
        let sb = sa + hs;
        let z1 = sb + hs;
        let ca = z1 + 2 * hs;
        let sub2 = ca + 3 + karatsuba_ws(h) + karatsuba_ws(hh);
        kara_sum_gates(h, hh, a, sa, ca) + (if sq {
            karatsuba_gates(hs, sa, sa, z1, sub2, true)
        } else {
            kara_sum_gates(h, hh, b, sb, ca + 1) + karatsuba_gates(hs, sa, sb, z1, sub2, false)
        })
    }
}

/// One level of the Karatsuba workspace.
pub proof fn lemma_karatsuba_ws_unfold(n: int)
    ensures
        n <= 8 ==> karatsuba_ws(n) == n + 1,
        n > 8 ==> karatsuba_ws(n) == 2 * kara_hh(n) + 4 * kara_hs(n) + 3 + karatsuba_ws(kara_h(n))
            + karatsuba_ws(kara_hh(n)) + karatsuba_ws(kara_hs(n)),
{
    reveal(karatsuba_ws);
}

/// One level of the Karatsuba product.
pub proof fn lemma_karatsuba_unfold(n: int, a: int, b: int, acc: int, ws: int, sq: bool)
    ensures
        n <= 8 ==> karatsuba_gates(n, a, b, acc, ws, sq) == if sq {
            schoolbook_square_gates(n, a, acc, ws, ws + n)
        } else {
            schoolbook_gates(n, a, b, acc, ws, ws + n)
        },
        n > 8 ==> karatsuba_gates(n, a, b, acc, ws, sq) == karatsuba_gates(
            kara_h(n),
            a,
            b,
            acc,
            ws + 2 * kara_hh(n) + 4 * kara_hs(n) + 3,
            sq,
        ) + karatsuba_gates(
            kara_hh(n),
            a + kara_h(n),
            b + kara_h(n),
            ws,
            ws + 2 * kara_hh(n) + 4 * kara_hs(n) + 3 + karatsuba_ws(kara_h(n)),
            sq,
        ) + kara_middle_gates(n, a, b, ws, sq) + kara_combine_gates(
            n,
            acc,
            ws,
            ws + 2 * kara_hh(n) + 2 * kara_hs(n),
            ws + 2 * kara_hh(n) + 4 * kara_hs(n) + 2,
        ),
{
}

/// The middle of one Karatsuba level.
pub proof fn lemma_kara_middle_unfold(n: int, a: int, b: int, ws: int, sq: bool)
    requires
        n > 8,
    ensures
        kara_middle_gates(n, a, b, ws, sq) == kara_sum_gates(
            kara_h(n),
            kara_hh(n),
            a,
            ws + 2 * kara_hh(n),
            ws + 2 * kara_hh(n) + 4 * kara_hs(n),
        ) + (if sq {
            karatsuba_gates(
                kara_hs(n),
                ws + 2 * kara_hh(n),
                ws + 2 * kara_hh(n),
                ws + 2 * kara_hh(n) + 2 * kara_hs(n),
                ws + 2 * kara_hh(n) + 4 * kara_hs(n) + 3 + karatsuba_ws(kara_h(n)) + karatsuba_ws(
                    kara_hh(n),
                ),
                true,
            )
        } else {
            kara_sum_gates(
                kara_h(n),
                kara_hh(n),
                b,
                ws + 2 * kara_hh(n) + kara_hs(n),
                ws + 2 * kara_hh(n) + 4 * kara_hs(n) + 1,
            ) + karatsuba_gates(
                kara_hs(n),
                ws + 2 * kara_hh(n),
                ws + 2 * kara_hh(n) + kara_hs(n),
                ws + 2 * kara_hh(n) + 2 * kara_hs(n),
                ws + 2 * kara_hh(n) + 4 * kara_hs(n) + 3 + karatsuba_ws(kara_h(n)) + karatsuba_ws(
                    kara_hh(n),
                ),
                false,
            )
        }),
{
}

/// The Karatsuba workspace is at least n + 1 qubits.
pub proof fn lemma_karatsuba_ws_pos(n: int)
    requires
        n >= 0,
    ensures
        karatsuba_ws(n) >= n + 1,
    decreases n,
{
    lemma_karatsuba_ws_unfold(n);
    if n > 8 {
        let h = kara_h(n);
        let hh = kara_hh(n);
        let hs = kara_hs(n);
        lemma_karatsuba_ws_pos(h);
        lemma_karatsuba_ws_pos(hh);
        lemma_karatsuba_ws_pos(hs);
    }
}

/// Workspace needed by the recursive Karatsuba integer multiply.
pub fn karatsuba_int_ws(n: usize) -> (r: usize)
    requires
        karatsuba_ws(n as int) <= usize::MAX,
    ensures
        r == karatsuba_ws(n as int),
    decreases n,
{
    proof {
        lemma_karatsuba_ws_unfold(n as int);
    }
    if n <= 8 {
        return schoolbook_int_ws(n);
    }
    let h = n / 2;
    let h_hi = n - h;
    let h_sum = if h >= h_hi {
        h
    } else {
        h_hi
    } + 1;
    proof {
        lemma_karatsuba_ws_unfold(n as int);
        lemma_karatsuba_ws_pos(h as int);
        lemma_karatsuba_ws_pos(h_hi as int);
        lemma_karatsuba_ws_pos(h_sum as int);
    }
    let level = 2 * h_hi + h_sum + h_sum + 2 * h_sum + 3;
    level + karatsuba_int_ws(h) + karatsuba_int_ws(h_hi) + karatsuba_int_ws(h_sum)
}

/// Appends sum ← x_lo + x_hi (carry-out into sum[hh]).
fn append_kara_sum(
    gates: &mut Vec<Gate>,
    counter: &mut ResourceCounter,
    h: usize,
    hh: usize,
    x: usize,
    sum: usize,
    carry: usize,
)
    requires
        1 <= hh,
        h <= hh,
        x + h + hh <= usize::MAX,
        sum + hh + 1 <= usize::MAX,
        gate_room(*old(counter), kara_sum_gates(h as int, hh as int, x as int, sum as int, carry as int).len() as int),
    ensures
        final(gates)@ == old(gates)@ + kara_sum_gates(h as int, hh as int, x as int, sum as int, carry as int),
        gates_recorded(
            *old(counter),
            *final(counter),
            kara_sum_gates(h as int, hh as int, x as int, sum as int, carry as int),
        ),
        qubits_unchanged(*old(counter), *final(counter)),
{
    let ghost c0 = *counter;
    let ghost g0 = gates@;
    let ghost cp = copy_gates(x as int, sum as int, h as int);
    proof {
        lemma_block_lens(x as int, sum as int, 0, h as int);
        lemma_capture_len(hh as int, x + h, sum as int, carry as int, sum + hh);
    }
    append_copy(gates, counter, x, sum, h);
    let ghost c1 = *counter;
    proof {
        lemma_room_left(
            c0,
            c1,
            cp,
            kara_sum_gates(h as int, hh as int, x as int, sum as int, carry as int).len() as int,
            6 * hh + 1,
        );
    }
    let sub = add_with_carryout(hh, x + h, sum, carry, counter);
    let ghost c2 = *counter;
    append_recorded(gates, sub, Ghost(c0), Ghost(c1), Ghost(c2), Ghost(cp));
    proof {
        assert(gates@ =~= g0 + kara_sum_gates(h as int, hh as int, x as int, sum as int, carry as int));
    }
}

/// The smaller of two machine integers.
fn umin(x: usize, y: usize) -> (r: usize)
    ensures
        r == imin(x as int, y as int),
{
    if x <= y {
        x
    } else {
        y
    }
}

/// Appends z1 −= z0, z1 −= z2, acc[h..] += z1, acc[n..] += z2.
fn append_kara_combine(
    gates: &mut Vec<Gate>,
    counter: &mut ResourceCounter,
    n: usize,
    acc: usize,
    z2: usize,
    z1: usize,
    cc: usize,
)
    requires
        n > 8,
        acc + 2 * n <= usize::MAX,
        z2 + 2 * kara_hh(n as int) <= usize::MAX,
        z1 + 2 * kara_hs(n as int) <= usize::MAX,
        gate_room(*old(counter), kara_combine_gates(n as int, acc as int, z2 as int, z1 as int, cc as int).len() as int),
    ensures
        final(gates)@ == old(gates)@ + kara_combine_gates(n as int, acc as int, z2 as int, z1 as int, cc as int),
        gates_recorded(
            *old(counter),
            *final(counter),
            kara_combine_gates(n as int, acc as int, z2 as int, z1 as int, cc as int),
        ),
        qubits_unchanged(*old(counter), *final(counter)),
{
    let ghost c0 = *counter;
    let ghost g0 = gates@;
    let ghost total = kara_combine_gates(n as int, acc as int, z2 as int, z1 as int, cc as int);
    let h = n / 2;
    let h_hi = n - h;
    let h_sum = if h >= h_hi {
        h
    } else {
        h_hi
    } + 1;
    let w0 = umin(2 * h, 2 * h_sum);
    let w2 = umin(2 * h_hi, 2 * h_sum);
    let w3 = umin(2 * h_sum, 2 * n - h);
    let w4 = umin(2 * h_hi, n);
    let ghost p0 = cuccaro_gates(w0 as int, acc as int, z1 as int, cc as int).reverse();
    let ghost p1 = cuccaro_gates(w2 as int, z2 as int, z1 as int, cc as int).reverse();
    let ghost p2 = cuccaro_gates(w3 as int, z1 as int, acc + h, cc as int);
    let ghost p3 = cuccaro_gates(w4 as int, z2 as int, acc + n, cc as int);
    proof {
        assert(total == p0 + p1 + p2 + p3);
        lemma_cuccaro_len(w0 as int, acc as int, z1 as int, cc as int);
        lemma_cuccaro_len(w2 as int, z2 as int, z1 as int, cc as int);
        lemma_cuccaro_len(w3 as int, z1 as int, acc + h, cc as int);
        lemma_cuccaro_len(w4 as int, z2 as int, acc + n, cc as int);
    }
    let sub = cuccaro_subtract(w0, acc, z1, cc, counter);
    let ghost c1 = *counter;
    append_recorded(gates, sub, Ghost(c0), Ghost(c0), Ghost(c1), Ghost(Seq::empty()));
    proof {
        assert(Seq::<Gate>::empty() + p0 =~= p0);
        lemma_room_left(c0, c1, p0, total.len() as int, cuccaro_len(w2 as int));
    }
    let sub = cuccaro_subtract(w2, z2, z1, cc, counter);
    let ghost c2 = *counter;
    append_recorded(gates, sub, Ghost(c0), Ghost(c1), Ghost(c2), Ghost(p0));
    proof {
        lemma_room_left(c0, c2, p0 + p1, total.len() as int, cuccaro_len(w3 as int));
    }
    let adder = CuccaroAdder::new(w3);
    let sub = adder.forward_gates(z1, acc + h, cc, counter);
    let ghost c3 = *counter;
    append_recorded(gates, sub, Ghost(c0), Ghost(c2), Ghost(c3), Ghost(p0 + p1));
    proof {
        lemma_room_left(c0, c3, p0 + p1 + p2, total.len() as int, cuccaro_len(w4 as int));
    }
    let adder = CuccaroAdder::new(w4);
    let sub = adder.forward_gates(z2, acc + n, cc, counter);
    let ghost c4 = *counter;
    append_recorded(gates, sub, Ghost(c0), Ghost(c3), Ghost(c4), Ghost(p0 + p1 + p2));
    proof {
        assert(gates@ =~= g0 + total);
    }
}

/// Appends the half sums and the product of the sums.
#[verifier::rlimit(60)]
fn append_kara_middle(
    gates: &mut Vec<Gate>,
    counter: &mut ResourceCounter,
    n: usize,
    a: usize,
    b: usize,
    ws: usize,
    is_square: bool,
)
    requires
        n > 8,
        a + n <= usize::MAX,
        b + n <= usize::MAX,
        ws + karatsuba_ws(n as int) <= usize::MAX,
        gate_room(*old(counter), kara_middle_gates(n as int, a as int, b as int, ws as int, is_square).len() as int),
    ensures
        final(gates)@ == old(gates)@ + kara_middle_gates(n as int, a as int, b as int, ws as int, is_square),
        gates_recorded(
            *old(counter),
            *final(counter),
            kara_middle_gates(n as int, a as int, b as int, ws as int, is_square),
        ),
        qubits_unchanged(*old(counter), *final(counter)),
    decreases n, 0int,
{
    let ghost c0 = *counter;
    let ghost g0 = gates@;
    let ghost total = kara_middle_gates(n as int, a as int, b as int, ws as int, is_square);
    let h = n / 2;
    let h_hi = n - h;
    let h_sum = if h >= h_hi {
        h
    } else {
        h_hi
    } + 1;
    proof {
        lemma_karatsuba_ws_pos(h as int);
        lemma_karatsuba_ws_pos(h_hi as int);
        lemma_karatsuba_ws_pos(h_sum as int);
        lemma_karatsuba_ws_unfold(n as int);
    }
    let kws_h = karatsuba_int_ws(h);
    let kws_hh = karatsuba_int_ws(h_hi);
    let sa = ws + 2 * h_hi;
    let sb = sa + h_sum;
    let z1 = sb + h_sum;
    let ca = z1 + 2 * h_sum;
    let sub2 = ca + 3 + kws_h + kws_hh;
    let ghost sum_a = kara_sum_gates(h as int, h_hi as int, a as int, sa as int, ca as int);
    proof {
        assert(kara_h(n as int) == h);
        assert(kara_hh(n as int) == h_hi);
        assert(kara_hs(n as int) == h_sum);
        assert(sub2 == ca + 3 + karatsuba_ws(h as int) + karatsuba_ws(h_hi as int));
        lemma_kara_middle_unfold(n as int, a as int, b as int, ws as int, is_square);
        assert(total == sum_a + (if is_square {
            karatsuba_gates(h_sum as int, sa as int, sa as int, z1 as int, sub2 as int, true)
        } else {
            kara_sum_gates(h as int, h_hi as int, b as int, sb as int, ca + 1) + karatsuba_gates(
                h_sum as int,
                sa as int,
                sb as int,
                z1 as int,
                sub2 as int,
                false,
            )
        }));
        lemma_room_left(c0, c0, Seq::empty(), total.len() as int, sum_a.len() as int);
    }
    append_kara_sum(gates, counter, h, h_hi, a, sa, ca);
    let ghost c1 = *counter;
    if is_square {
        let ghost k = karatsuba_gates(h_sum as int, sa as int, sa as int, z1 as int, sub2 as int, true);
        proof {
            assert(total == sum_a + k);
            lemma_room_left(c0, c1, sum_a, total.len() as int, k.len() as int);
        }
        let sub = karatsuba_integer_mul(h_sum, sa, sa, z1, sub2, true, counter);
        let ghost c2 = *counter;
        append_recorded(gates, sub, Ghost(c0), Ghost(c1), Ghost(c2), Ghost(sum_a));
    } else {
        let ghost sum_b = kara_sum_gates(h as int, h_hi as int, b as int, sb as int, ca + 1);
        let ghost k = karatsuba_gates(h_sum as int, sa as int, sb as int, z1 as int, sub2 as int, false);
        proof {
            assert(total == sum_a + (sum_b + k));
            lemma_room_left(c0, c1, sum_a, total.len() as int, sum_b.len() as int);
        }
        append_kara_sum(gates, counter, h, h_hi, b, sb, ca + 1);
        let ghost c2 = *counter;
        proof {
            lemma_gates_recorded_concat(c0, c1, c2, sum_a, sum_b);
            lemma_room_left(c0, c2, sum_a + sum_b, total.len() as int, k.len() as int);
        }
        let sub = karatsuba_integer_mul(h_sum, sa, sb, z1, sub2, false, counter);
        let ghost c3 = *counter;
        append_recorded(gates, sub, Ghost(c0), Ghost(c2), Ghost(c3), Ghost(sum_a + sum_b));
        proof {
            assert(sum_a + sum_b + k =~= total);
        }
    }
    proof {
        assert(gates@ =~= g0 + total);
    }
}

/// Recursive Karatsuba integer multiplication (or squaring):
/// acc[0..2n] += a·b with three half-size sub-products per level; the
/// workspace is left dirty for the caller's Bennett uncomputation.
#[verifier::rlimit(100)]
#[verifier::spinoff_prover]
fn karatsuba_integer_mul(
    n: usize,
    a: usize,
    b: usize,
    acc: usize,
    ws: usize,
    is_square: bool,
    counter: &mut ResourceCounter,
) -> (r: Vec<Gate>)
    requires
        a + n <= usize::MAX,
        b + n <= usize::MAX,
        acc + 2 * n <= usize::MAX,
        ws + karatsuba_ws(n as int) <= usize::MAX,
        gate_room(
            *old(counter),
            karatsuba_gates(n as int, a as int, b as int, acc as int, ws as int, is_square).len() as int,
        ),
    ensures
        r@ == karatsuba_gates(n as int, a as int, b as int, acc as int, ws as int, is_square),
        gates_recorded(*old(counter), *final(counter), r@),
        qubits_unchanged(*old(counter), *final(counter)),
    decreases n, 1int,
{
    proof {
        lemma_karatsuba_unfold(n as int, a as int, b as int, acc as int, ws as int, is_square);
        lemma_karatsuba_ws_unfold(n as int);
    }
    if n <= 8 {
        if is_square {
            return schoolbook_integer_square(n, a, acc, ws, counter);
        } else {
            return schoolbook_integer_mul(n, a, b, acc, ws, counter);
        }
    }
    let ghost c0 = *counter;
    let ghost total = karatsuba_gates(n as int, a as int, b as int, acc as int, ws as int, is_square);
    let h = n / 2;
    let h_hi = n - h;
    let h_sum = if h >= h_hi {
        h
    } else {
        h_hi
    } + 1;
    proof {
        lemma_karatsuba_ws_pos(h as int);
        lemma_karatsuba_ws_pos(h_hi as int);
        lemma_karatsuba_ws_pos(h_sum as int);
        lemma_karatsuba_ws_unfold(n as int);
    }
    let kws_h = karatsuba_int_ws(h);
    let z2 = ws;
    let z1 = ws + 2 * h_hi + 2 * h_sum;
    let cc = z1 + 2 * h_sum + 2;
    let sub0 = z1 + 2 * h_sum + 3;
    let sub1 = sub0 + kws_h;
    let ghost k0 = karatsuba_gates(h as int, a as int, b as int, acc as int, sub0 as int, is_square);
    let ghost k1 = karatsuba_gates(h_hi as int, a + h, b + h, z2 as int, sub1 as int, is_square);
    let ghost mid = kara_middle_gates(n as int, a as int, b as int, ws as int, is_square);
    let ghost comb = kara_combine_gates(n as int, acc as int, z2 as int, z1 as int, cc as int);
    proof {
        assert(total == k0 + k1 + mid + comb);
    }
    let mut gates: Vec<Gate> = Vec::new();
    proof {
        lemma_room_left(c0, c0, Seq::empty(), total.len() as int, k0.len() as int);
    }
    let sub = karatsuba_integer_mul(h, a, b, acc, sub0, is_square, counter);
    let ghost c1 = *counter;
    append_recorded(&mut gates, sub, Ghost(c0), Ghost(c0), Ghost(c1), Ghost(Seq::empty()));
    proof {
        assert(Seq::<Gate>::empty() + k0 =~= k0);
        lemma_room_left(c0, c1, k0, total.len() as int, k1.len() as int);
    }
    let sub = karatsuba_integer_mul(h_hi, a + h, b + h, z2, sub1, is_square, counter);
    let ghost c2 = *counter;
    append_recorded(&mut gates, sub, Ghost(c0), Ghost(c1), Ghost(c2), Ghost(k0));
    proof {
        lemma_room_left(c0, c2, k0 + k1, total.len() as int, mid.len() as int);
    }
    append_kara_middle(&mut gates, counter, n, a, b, ws, is_square);
    let ghost c3 = *counter;
    proof {
        lemma_gates_recorded_concat(c0, c2, c3, k0 + k1, mid);
        lemma_room_left(c0, c3, k0 + k1 + mid, total.len() as int, comb.len() as int);
    }
    append_kara_combine(&mut gates, counter, n, acc, z2, z1, cc);
    proof {
        lemma_gates_recorded_concat(c0, c3, *counter, k0 + k1 + mid, comb);
        assert(gates@ =~= total);
    }
    gates
}

/// The forward half of the Karatsuba modular multiplier (or squarer) with
/// workspace at ws: accumulator ws[0..2n], carry ws[2n], Karatsuba
/// workspace from ws+2n+1.
pub open spec fn karatsuba_modmul_forward(n: int, a: int, b: int, ws: int, sq: bool) -> Seq<Gate> {
    karatsuba_gates(n, a, b, ws, ws + 2 * n + 1, sq) + reduce_gates(n, n / 2, ws, ws + 2 * n)
}

/// The whole Karatsuba modular multiplier (or squarer).
pub open spec fn karatsuba_modmul_gates(n: int, a: int, b: int, result: int, ws: int, sq: bool) -> Seq<Gate> {
    bennett(karatsuba_modmul_forward(n, a, b, ws, sq), copy_gates(ws, result, n))
}

/// Workspace of the Karatsuba modular multiplier: 2n accumulator qubits, a
/// carry, and the recursive Karatsuba workspace.
pub open spec fn karatsuba_total_ws(n: int) -> int {
    2 * n + 1 + karatsuba_ws(n)
}

/// Shared body of the Karatsuba multiplier and squarer.
fn karatsuba_modmul(
    n: usize,
    a: usize,
    b: usize,
    result: usize,
    ws: usize,
    is_square: bool,
    counter: &mut ResourceCounter,
) -> (r: Vec<Gate>)
    requires
        a + n <= usize::MAX,
        b + n <= usize::MAX,
        result + n <= usize::MAX,
        ws + karatsuba_total_ws(n as int) <= usize::MAX,
        gate_room(
            *old(counter),
            karatsuba_modmul_gates(n as int, a as int, b as int, result as int, ws as int, is_square).len() as int,
        ),
        ancilla_room(*old(counter), karatsuba_total_ws(n as int), karatsuba_total_ws(n as int)),
    ensures
        r@ == karatsuba_modmul_gates(n as int, a as int, b as int, result as int, ws as int, is_square),
        gates_recorded(*old(counter), *final(counter), r@),
        ancilla_scope(*old(counter), *final(counter), karatsuba_total_ws(n as int), karatsuba_total_ws(n as int)),
{
    let ghost c0 = *counter;
    proof {
        lemma_karatsuba_ws_pos(n as int);
    }
    let acc = ws;
    let carry = ws + 2 * n;
    let kara_ws = ws + 2 * n + 1;
    let total_ws = KaratsubaMultiplier::workspace_size(n);
    let ghost kg = karatsuba_gates(n as int, a as int, b as int, acc as int, kara_ws as int, is_square);
    let ghost rd = reduce_gates(n as int, (n / 2) as int, acc as int, carry as int);
    let ghost fwd_spec = kg + rd;
    let ghost total = karatsuba_modmul_gates(n as int, a as int, b as int, result as int, ws as int, is_square);
    proof {
        lemma_block_lens(acc as int, result as int, 0, n as int);
        assert(total.len() == 2 * fwd_spec.len() + n);
    }
    counter.allocate_ancilla(total_ws);
    let ghost c1 = *counter;
    proof {
        lemma_room_left(c0, c1, Seq::empty(), total.len() as int, kg.len() as int);
    }
    let mut fwd = karatsuba_integer_mul(n, a, b, acc, kara_ws, is_square, counter);
    let ghost c2 = *counter;
    proof {
        lemma_room_left(c0, c2, kg, total.len() as int, rd.len() as int);
    }
    let mut red = goldilocks_reduce(n, acc, carry, counter);
    let ghost c3 = *counter;
    let ghost redv = red@;
    fwd.append(&mut red);
    proof {
        lemma_gates_recorded_concat(c0, c2, c3, kg, rd);
        assert(fwd@ =~= fwd_spec);
        lemma_room_left(c0, c3, fwd_spec, total.len() as int, n as int);
    }
    let mut gates: Vec<Gate> = Vec::new();
    append_copy_of(&mut gates, &fwd);
    append_copy(&mut gates, counter, acc, result, n);
    let ghost c4 = *counter;
    proof {
        let cp = copy_gates(acc as int, result as int, n as int);
        lemma_gates_recorded_concat(c0, c3, c4, fwd_spec, cp);
        lemma_room_left(c0, c4, fwd_spec + cp, total.len() as int, fwd_spec.len() as int);
    }
    append_reversed(&mut gates, counter, &fwd);
    proof {
        let cp = copy_gates(acc as int, result as int, n as int);
        lemma_gates_recorded_concat(c0, c4, *counter, fwd_spec + cp, fwd_spec.reverse());
        assert(gates@ =~= total);
    }
    counter.free_ancilla(total_ws);
    gates
}

/// Reversible modular multiplier using Karatsuba decomposition
/// (O(n^1.585) Toffoli gates): Karatsuba integer product, the Goldilocks
/// fold of `reduce_gates` (a resource model of the reduction), copy out,
/// Bennett uncomputation.  Its gate sequence is what the resource estimates
/// count; the exact product a·b mod p is what `ReversibleMultiplier`
/// computes.
pub struct KaratsubaMultiplier {
    pub n: usize,
}

impl KaratsubaMultiplier {
    pub fn new(n: usize) -> (r: Self)
        ensures
            r.n == n,
    {
        Self { n }
    }

    /// Total workspace qubits: 2n (accumulator) + 1 (carry) + the recursive
    /// Karatsuba workspace.
    pub fn workspace_size(n: usize) -> (r: usize)
        requires
            karatsuba_total_ws(n as int) <= usize::MAX,
        ensures
            r == karatsuba_total_ws(n as int),
    {
        proof {
            lemma_karatsuba_ws_pos(n as int);
        }
        2 * n + 1 + karatsuba_int_ws(n)
    }

    /// The multiplier's gates as the resource estimates count them: forward
    /// pass (Karatsuba integer product and the fold of `reduce_gates`), copy
    /// of the low n accumulator bits into `result`, forward pass reversed.
    /// The workspace is allocated and released in the counter.
    pub fn forward_gates(
        &self,
        a_offset: usize,
        b_offset: usize,
        result_offset: usize,
        workspace_offset: usize,
        counter: &mut ResourceCounter,
    ) -> (r: Vec<Gate>)
        requires
            a_offset + self.n <= usize::MAX,
            b_offset + self.n <= usize::MAX,
            result_offset + self.n <= usize::MAX,
            workspace_offset + karatsuba_total_ws(self.n as int) <= usize::MAX,
            gate_room(
                *old(counter),
                karatsuba_modmul_gates(
                    self.n as int,
                    a_offset as int,
                    b_offset as int,
                    result_offset as int,
                    workspace_offset as int,
                    false,
                ).len() as int,
            ),
            ancilla_room(*old(counter), karatsuba_total_ws(self.n as int), karatsuba_total_ws(self.n as int)),
        ensures
            r@ == karatsuba_modmul_gates(
                self.n as int,
                a_offset as int,
                b_offset as int,
                result_offset as int,
                workspace_offset as int,
                false,
            ),
            gates_recorded(*old(counter), *final(counter), r@),
            ancilla_scope(
                *old(counter),
                *final(counter),
                karatsuba_total_ws(self.n as int),
                karatsuba_total_ws(self.n as int),
            ),
    {
        karatsuba_modmul(self.n, a_offset, b_offset, result_offset, workspace_offset, false, counter)
    }
}

/// Reversible squaring using Karatsuba decomposition (cross-term symmetry in
/// the base case).
pub struct KaratsubaSquarer {
    pub n: usize,
}

impl KaratsubaSquarer {
    pub fn new(n: usize) -> (r: Self)
        ensures
            r.n == n,
    {
        Self { n }
    }

    /// The squarer's gates (the Karatsuba multiplier's, with the
    /// cross-term base case), with the multiplier's layout.
    pub fn forward_gates(
        &self,
        input_offset: usize,
        result_offset: usize,
        workspace_offset: usize,
        counter: &mut ResourceCounter,
    ) -> (r: Vec<Gate>)
        requires
            input_offset + self.n <= usize::MAX,
            result_offset + self.n <= usize::MAX,
            workspace_offset + karatsuba_total_ws(self.n as int) <= usize::MAX,
            gate_room(
                *old(counter),
                karatsuba_modmul_gates(
                    self.n as int,
                    input_offset as int,
                    input_offset as int,
                    result_offset as int,
                    workspace_offset as int,
                    true,
                ).len() as int,
            ),
            ancilla_room(*old(counter), karatsuba_total_ws(self.n as int), karatsuba_total_ws(self.n as int)),
        ensures
            r@ == karatsuba_modmul_gates(
                self.n as int,
                input_offset as int,
                input_offset as int,
                result_offset as int,
                workspace_offset as int,
                true,
            ),
            gates_recorded(*old(counter), *final(counter), r@),
            ancilla_scope(
                *old(counter),
                *final(counter),
                karatsuba_total_ws(self.n as int),
                karatsuba_total_ws(self.n as int),
            ),
    {
        karatsuba_modmul(self.n, input_offset, input_offset, result_offset, workspace_offset, true, counter)
    }
}

} // verus!
