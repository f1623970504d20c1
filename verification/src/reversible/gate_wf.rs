//! The multiplier's gate sequences are well formed on their register
//! layout: every qubit they touch lies in the vector and every target
//! differs from its controls, so that running them in reverse undoes them.
use crate::reversible::adder::{
    capture_adder_gates, cnot, cnot_where_set, correction_gates, cuccaro_gates, flag_clear_gates, maj,
    maj_ladder, modular_adder_gates, neg_p_const, not_gate, not_where_set, toffoli, uma, uma_ladder,
};
use crate::reversible::blocks::{concat_map, copy_gates, copy_step, toffoli_row, toffoli_row_gates};
use crate::reversible::gates::{gate_in_range, gate_well_formed, gates_in_range, gates_well_formed, Gate};
use crate::reversible::multiplier::{mod_reduce_gates, mod_reduce_step, mul_row, schoolbook_gates, schoolbook_modmul_forward};
use crate::reversible::multiplier_laws::ranges_apart;
use crate::reversible::register::bit_of;
use vstd::prelude::*;

verus! {

/// Every gate of the sequence touches only qubits below `len` and has a
/// target distinct from its controls.
pub open spec fn gates_ok(gs: Seq<Gate>, len: int) -> bool {
    gates_in_range(gs, len) && gates_well_formed(gs)
}

/// Two well-formed sequences concatenate to a well-formed sequence.
pub proof fn lemma_ok_concat(a: Seq<Gate>, b: Seq<Gate>, len: int)
    requires
        gates_ok(a, len),
        gates_ok(b, len),
    ensures
        gates_ok(a + b, len),
{
    assert forall|i: int| 0 <= i < (a + b).len() implies gate_in_range(#[trigger] (a + b)[i], len)
        && gate_well_formed((a + b)[i]) by {
        if i < a.len() {
            assert((a + b)[i] == a[i]);
        } else {
            assert((a + b)[i] == b[i - a.len()]);
        }
    }
}

/// Well-formed blocks concatenate to a well-formed sequence.
pub proof fn lemma_ok_concat_map(f: spec_fn(int) -> Seq<Gate>, lo: int, hi: int, len: int)
    requires
        forall|i: int| lo <= i < hi ==> gates_ok(#[trigger] f(i), len),
    ensures
        gates_ok(concat_map(f, lo, hi), len),
    decreases hi - lo,
{
    if hi <= lo {
        assert(concat_map(f, lo, hi) =~= Seq::<Gate>::empty());
    } else {
        lemma_ok_concat_map(f, lo, hi - 1, len);
        assert(gates_ok(f(hi - 1), len));
        lemma_ok_concat(concat_map(f, lo, hi - 1), f(hi - 1), len);
    }
}

/// The qubit x is a valid index below `len`.
pub open spec fn q(x: int, len: int) -> bool {
    0 <= x < len && len <= usize::MAX
}

proof fn lemma_ok_one(g: Gate, len: int)
    requires
        gate_in_range(g, len),
        gate_well_formed(g),
    ensures
        gates_ok(seq![g], len),
{
}

proof fn lemma_ok_maj(x: int, y: int, z: int, len: int)
    requires
        q(x, len),
        q(y, len),
        q(z, len),
        x != y,
        y != z,
        x != z,
    ensures
        gates_ok(maj(x, y, z), len),
        gates_ok(uma(x, y, z), len),
{
    assert(gates_ok(maj(x, y, z), len)) by {
        assert forall|i: int| 0 <= i < 3 implies gate_in_range(#[trigger] maj(x, y, z)[i], len)
            && gate_well_formed(maj(x, y, z)[i]) by {}
    }
    assert(gates_ok(uma(x, y, z), len)) by {
        assert forall|i: int| 0 <= i < 3 implies gate_in_range(#[trigger] uma(x, y, z)[i], len)
            && gate_well_formed(uma(x, y, z)[i]) by {}
    }
}

/// The MAJ and UMA ladders of columns lo..hi.
proof fn lemma_ok_ladders(a: int, b: int, lo: int, hi: int, n: int, len: int)
    requires
        1 <= lo,
        hi <= n,
        0 <= a && a + n <= len,
        0 <= b && b + n <= len,
        len <= usize::MAX,
        ranges_apart(a, n, b, n),
    ensures
        gates_ok(maj_ladder(a, b, lo, hi), len),
        gates_ok(uma_ladder(a, b, lo, hi), len),
    decreases hi - lo,
{
    if hi <= lo {
        assert(maj_ladder(a, b, lo, hi) =~= Seq::<Gate>::empty());
        assert(uma_ladder(a, b, lo, hi) =~= Seq::<Gate>::empty());
    } else {
        lemma_ok_ladders(a, b, lo, hi - 1, n, len);
        lemma_ok_ladders(a, b, lo + 1, hi, n, len);
        lemma_ok_maj(a + hi - 2, b + hi - 1, a + hi - 1, len);
        lemma_ok_maj(a + lo - 1, b + lo, a + lo, len);
        lemma_ok_concat(maj_ladder(a, b, lo, hi - 1), maj(a + hi - 2, b + hi - 1, a + hi - 1), len);
        lemma_ok_concat(uma_ladder(a, b, lo + 1, hi), uma(a + lo - 1, b + lo, a + lo), len);
    }
}

/// The plain and the carry-capturing Cuccaro adders.
pub proof fn lemma_ok_adders(n: int, a: int, b: int, c: int, co: int, len: int)
    requires
        n >= 1,
        0 <= a && a + n <= len,
        0 <= b && b + n <= len,
        q(c, len),
        q(co, len),
        ranges_apart(a, n, b, n),
        !(a <= c < a + n),
        !(b <= c < b + n),
        !(a <= co < a + n),
    ensures
        gates_ok(cuccaro_gates(n, a, b, c), len),
        gates_ok(capture_adder_gates(n, a, b, c, co), len),
{
    lemma_ok_ladders(a, b, 1, n, n, len);
    lemma_ok_maj(c, b, a, len);
    lemma_ok_one(cnot(a + n - 1, co), len);
    let m = maj(c, b, a);
    let ml = maj_ladder(a, b, 1, n);
    let ul = uma_ladder(a, b, 1, n);
    let u = uma(c, b, a);
    lemma_ok_concat(m, ml, len);
    lemma_ok_concat(m + ml, ul, len);
    lemma_ok_concat(m + ml + ul, u, len);
    lemma_ok_concat(m + ml, seq![cnot(a + n - 1, co)], len);
    lemma_ok_concat(m + ml + seq![cnot(a + n - 1, co)], ul, len);
    lemma_ok_concat(m + ml + seq![cnot(a + n - 1, co)] + ul, u, len);
}

/// Constant loads by NOT gates and by CNOT gates from a control outside
/// the register.
pub proof fn lemma_ok_where_set(v: nat, ctrl: int, base: int, hi: int, len: int)
    requires
        0 <= base,
        0 <= hi,
        base + hi <= len,
        q(ctrl, len),
        !(base <= ctrl < base + hi),
    ensures
        gates_ok(not_where_set(v, base, hi), len),
        gates_ok(cnot_where_set(v, ctrl, base, hi), len),
    decreases hi,
{
    if hi == 0 {
        assert(not_where_set(v, base, hi) =~= Seq::<Gate>::empty());
        assert(cnot_where_set(v, ctrl, base, hi) =~= Seq::<Gate>::empty());
    } else {
        lemma_ok_where_set(v, ctrl, base, hi - 1, len);
        let nl = if bit_of(v, (hi - 1) as nat) {
            seq![not_gate(base + hi - 1)]
        } else {
            Seq::<Gate>::empty()
        };
        let cl = if bit_of(v, (hi - 1) as nat) {
            seq![cnot(ctrl, base + hi - 1)]
        } else {
            Seq::<Gate>::empty()
        };
        assert(gates_ok(nl, len));
        assert(gates_ok(cl, len)) by {
            if bit_of(v, (hi - 1) as nat) {
                lemma_ok_one(cnot(ctrl, base + hi - 1), len);
            }
        }
        lemma_ok_concat(not_where_set(v, base, hi - 1), nl, len);
        lemma_ok_concat(cnot_where_set(v, ctrl, base, hi - 1), cl, len);
    }
}

/// The layout of the modular adder: registers a and b of n qubits, the
/// carry c and the workspace w of n + 1 qubits, pairwise disjoint.
pub open spec fn mod_add_layout(n: int, a: int, b: int, c: int, w: int, len: int) -> bool {
    &&& n >= 1
    &&& 0 <= a && a + n <= len
    &&& 0 <= b && b + n <= len
    &&& 0 <= w && w + n + 1 <= len
    &&& q(c, len)
    &&& ranges_apart(a, n, b, n)
    &&& ranges_apart(a, n, w, n + 1)
    &&& ranges_apart(b, n, w, n + 1)
    &&& !(a <= c < a + n)
    &&& !(b <= c < b + n)
    &&& !(w <= c < w + n + 1)
}

/// The modular adder.
pub proof fn lemma_ok_modular_adder(n: int, a: int, b: int, c: int, w: int, len: int)
    requires
        mod_add_layout(n, a, b, c, w, len),
    ensures
        gates_ok(modular_adder_gates(n, a, b, c, w), len),
{
    let f = w + n;
    let p = crate::reversible::adder::goldilocks_p();
    let k = neg_p_const(n as nat);
    let ones = crate::reversible::adder::ones64();
    lemma_ok_adders(n, a, b, c, f, len);
    lemma_ok_adders(n, w, b, c, f, len);
    lemma_ok_where_set(k, c, w, n, len);
    lemma_ok_where_set(p, f, w, n, len);
    lemma_ok_where_set(ones, c, a, n, len);
    lemma_ok_one(not_gate(f), len);
    lemma_ok_one(not_gate(c), len);
    let nf = seq![not_gate(f)];
    let nc = seq![not_gate(c)];
    let lp = cnot_where_set(p, f, w, n);
    let cw = cuccaro_gates(n, w, b, c);
    lemma_ok_concat(nf, lp, len);
    lemma_ok_concat(nf + lp, nf, len);
    lemma_ok_concat(nf + lp + nf, cw, len);
    lemma_ok_concat(nf + lp + nf + cw, nf, len);
    lemma_ok_concat(nf + lp + nf + cw + nf, lp, len);
    lemma_ok_concat(nf + lp + nf + cw + nf + lp, nf, len);
    assert(correction_gates(n, b, c, w, f) == nf + lp + nf + cw + nf + lp + nf);
    let no = not_where_set(ones, a, n);
    let ca = capture_adder_gates(n, a, b, c, f);
    let two = seq![not_gate(f), not_gate(c)];
    lemma_ok_concat(nf, nc, len);
    assert(two =~= nf + nc);
    let cu = cuccaro_gates(n, a, b, c);
    lemma_ok_concat(no, nc, len);
    lemma_ok_concat(no + nc, ca, len);
    lemma_ok_concat(no + nc + ca, two, len);
    lemma_ok_concat(no + nc + ca + two, no, len);
    lemma_ok_concat(no + nc + ca + two + no, cu, len);
    assert(flag_clear_gates(n, a, b, c, f) == no + nc + ca + two + no + cu);
    let c1 = capture_adder_gates(n, a, b, c, f);
    let ld = not_where_set(k, w, n);
    let c2 = capture_adder_gates(n, w, b, c, f);
    let cor = correction_gates(n, b, c, w, f);
    let clr = flag_clear_gates(n, a, b, c, f);
    lemma_ok_concat(c1, ld, len);
    lemma_ok_concat(c1 + ld, c2, len);
    lemma_ok_concat(c1 + ld + c2, ld, len);
    lemma_ok_concat(c1 + ld + c2 + ld, cor, len);
    lemma_ok_concat(c1 + ld + c2 + ld + cor, clr, len);
    assert(modular_adder_gates(n, a, b, c, w) == c1 + ld + c2 + ld + cor + clr);
}

/// A row of Toffolis x, b+j → t+j.
proof fn lemma_ok_toffoli_row(x: int, b: int, t: int, n: int, len: int)
    requires
        n >= 0,
        q(x, len),
        0 <= b && b + n <= len,
        0 <= t && t + n <= len,
        ranges_apart(b, n, t, n),
        !(t <= x < t + n),
    ensures
        gates_ok(toffoli_row_gates(x, b, t, n), len),
{
    let f = toffoli_row(x, b, t);
    assert forall|j: int| 0 <= j < n implies gates_ok(#[trigger] f(j), len) by {
        lemma_ok_one(toffoli(x, b + j, t + j), len);
    }
    lemma_ok_concat_map(f, 0, n, len);
}

/// The schoolbook rows.
proof fn lemma_ok_schoolbook(n: int, a: int, b: int, acc: int, pp: int, c: int, len: int)
    requires
        crate::reversible::multiplier_laws::mul_layout(n, a, b, acc, pp, c, len),
    ensures
        gates_ok(schoolbook_gates(n, a, b, acc, pp, c), len),
{
    let f = mul_row(n, a, b, acc, pp, c);
    assert forall|i: int| 0 <= i < n implies gates_ok(#[trigger] f(i), len) by {
        lemma_ok_toffoli_row(a + i, b, pp, n, len);
        lemma_ok_adders(n, pp, acc + i, c, acc + i + n, len);
        let t = toffoli_row_gates(a + i, b, pp, n);
        let ad = capture_adder_gates(n, pp, acc + i, c, acc + i + n);
        lemma_ok_concat(t, ad, len);
        lemma_ok_concat(t + ad, t, len);
    }
    lemma_ok_concat_map(f, 0, n, len);
}

/// The forward pass of the schoolbook modular multiplier on 64-bit
/// operands with its 322-qubit workspace at ws.
pub proof fn lemma_ok_modmul_forward(a: int, b: int, ws: int, len: int)
    requires
        0 <= a && a + 64 <= len,
        0 <= b && b + 64 <= len,
        0 <= ws && ws + 322 <= len,
        len <= usize::MAX,
        ranges_apart(a, 64, ws, 322),
        ranges_apart(b, 64, ws, 322),
    ensures
        gates_ok(schoolbook_modmul_forward(64, a, b, ws), len),
{
    let acc = ws;
    let c = ws + 128;
    let pp = ws + 129;
    let r = ws + 193;
    let mw = ws + 257;
    lemma_ok_schoolbook(64, a, b, acc, pp, c, len);
    let f = mod_reduce_step(64, acc, pp, r, c, mw);
    assert forall|j: int| 0 <= j < 128 implies gates_ok(#[trigger] f(j), len) by {
        let fc = crate::reversible::multiplier::fold_const(j);
        lemma_ok_where_set(fc, acc + j, pp, 64, len);
        lemma_ok_modular_adder(64, pp, r, c, mw, len);
        let x = cnot_where_set(fc, acc + j, pp, 64);
        let y = modular_adder_gates(64, pp, r, c, mw);
        lemma_ok_concat(x, y, len);
        lemma_ok_concat(x + y, x, len);
    }
    lemma_ok_concat_map(f, 0, 128, len);
    lemma_ok_concat(schoolbook_gates(64, a, b, acc, pp, c), mod_reduce_gates(64, acc, pp, r, c, mw), len);
}

/// A register copy between disjoint registers.
pub proof fn lemma_ok_copy(src: int, dst: int, n: int, len: int)
    requires
        n >= 0,
        0 <= src && src + n <= len,
        0 <= dst && dst + n <= len,
        len <= usize::MAX,
        ranges_apart(src, n, dst, n),
    ensures
        gates_ok(copy_gates(src, dst, n), len),
{
    let f = copy_step(src, dst);
    assert forall|i: int| 0 <= i < n implies gates_ok(#[trigger] f(i), len) by {
        lemma_ok_one(cnot(src + i, dst + i), len);
    }
    lemma_ok_concat_map(f, 0, n, len);
}

} // verus!
