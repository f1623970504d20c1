//! Composition of ancilla effects over the rounds of a windowed scalar
//! multiplication.
//!
//! An effect is a tuple (allocated, freed, left live, peak) as in
//! `qubit_effect`; effects compose one after the other with `then_effect`.
use crate::reversible::resource_counter::{
    lemma_effect_then_effect, max_int, qubit_effect, ResourceCounter,
};
use vstd::prelude::*;

verus! {

/// `a` followed by `b`: tallies and live qubits add up; the peak of `b` sits
/// on top of what `a` left live.
pub open spec fn then_effect(a: (int, int, int, int), b: (int, int, int, int)) -> (int, int, int, int) {
    (a.0 + b.0, a.1 + b.1, a.2 + b.2, max_int(a.3, a.2 + b.3))
}

/// Non-negative tallies, and no more left live than the peak.
pub open spec fn effect_wf(e: (int, int, int, int)) -> bool {
    e.0 >= 0 && e.1 >= 0 && 0 <= e.2 <= e.3
}

/// Componentwise order of effects.
pub open spec fn effect_le(a: (int, int, int, int), b: (int, int, int, int)) -> bool {
    a.0 <= b.0 && a.1 <= b.1 && a.2 <= b.2 && a.3 <= b.3
}

/// `base` followed by `k` copies of `e`.
pub open spec fn repeat_effect(base: (int, int, int, int), e: (int, int, int, int), k: nat) -> (
    int,
    int,
    int,
    int,
)
    decreases k,
{
    if k == 0 {
        base
    } else {
        then_effect(repeat_effect(base, e, (k - 1) as nat), e)
    }
}

/// `base` followed by each effect of `es` in turn.
pub open spec fn then_all(base: (int, int, int, int), es: Seq<(int, int, int, int)>) -> (
    int,
    int,
    int,
    int,
)
    decreases es.len(),
{
    if es.len() == 0 {
        base
    } else {
        then_effect(then_all(base, es.drop_last()), es.last())
    }
}

/// `start` followed by `i` rounds, each of `w` copies of `d` and then the
/// effects of `tail`.
pub open spec fn rounds_effect(
    start: (int, int, int, int),
    d: (int, int, int, int),
    tail: Seq<(int, int, int, int)>,
    w: nat,
    i: nat,
) -> (int, int, int, int)
    decreases i,
{
    if i == 0 {
        start
    } else {
        then_all(repeat_effect(rounds_effect(start, d, tail, w, (i - 1) as nat), d, w), tail)
    }
}

/// The counter went from `c0` to `c1` with effect `e`.
pub open spec fn effect_holds(c0: ResourceCounter, c1: ResourceCounter, e: (int, int, int, int)) -> bool {
    qubit_effect(c0, c1, e.0, e.1, e.2, e.3)
}

/// The counter can take effect `e` without overflow.
pub open spec fn effect_fits(c: ResourceCounter, e: (int, int, int, int)) -> bool {
    &&& c.ancilla_allocated + e.0 <= usize::MAX
    &&& c.ancilla_freed + e.1 <= usize::MAX
    &&& (c.pre_allocated_depth == 0 ==> c.current_qubits + e.3 <= usize::MAX)
}

/// Composition keeps effects well formed and only grows them.
pub proof fn lemma_then_grows(a: (int, int, int, int), b: (int, int, int, int))
    requires
        effect_wf(a),
        effect_wf(b),
    ensures
        effect_wf(then_effect(a, b)),
        effect_le(a, then_effect(a, b)),
{
}

/// Repetition is well formed and grows with the count.
pub proof fn lemma_repeat_grows(base: (int, int, int, int), e: (int, int, int, int), j: nat, k: nat)
    requires
        effect_wf(base),
        effect_wf(e),
        j <= k,
    ensures
        effect_wf(repeat_effect(base, e, j)),
        effect_le(repeat_effect(base, e, j), repeat_effect(base, e, k)),
    decreases k,
{
    if k > 0 && j < k {
        lemma_repeat_grows(base, e, j, (k - 1) as nat);
        lemma_repeat_grows(base, e, (k - 1) as nat, (k - 1) as nat);
        lemma_then_grows(repeat_effect(base, e, (k - 1) as nat), e);
    } else if k > 0 {
        lemma_repeat_grows(base, e, (k - 1) as nat, (k - 1) as nat);
        lemma_then_grows(repeat_effect(base, e, (k - 1) as nat), e);
    }
}

/// Following by a list of effects is well formed, and every prefix of the
/// list gives a smaller effect.
pub proof fn lemma_then_all_grows(base: (int, int, int, int), es: Seq<(int, int, int, int)>, j: int)
    requires
        effect_wf(base),
        forall|i: int| 0 <= i < es.len() ==> effect_wf(#[trigger] es[i]),
        0 <= j <= es.len(),
    ensures
        effect_wf(then_all(base, es)),
        effect_wf(then_all(base, es.take(j))),
        effect_le(then_all(base, es.take(j)), then_all(base, es)),
        effect_le(base, then_all(base, es)),
    decreases es.len(),
{
    if es.len() == 0 {
        assert(es.take(j) =~= es);
    } else if j == es.len() {
        assert(es.take(j) =~= es);
        lemma_then_all_grows(base, es.drop_last(), 0);
        lemma_then_grows(then_all(base, es.drop_last()), es.last());
    } else {
        lemma_then_all_grows(base, es.drop_last(), j);
        assert(es.drop_last().take(j) =~= es.take(j));
        lemma_then_grows(then_all(base, es.drop_last()), es.last());
    }
}

/// Rounds are well formed and grow with their number; the doublings of a
/// round stay below the next round.
pub proof fn lemma_rounds_grow(
    start: (int, int, int, int),
    d: (int, int, int, int),
    tail: Seq<(int, int, int, int)>,
    w: nat,
    i: nat,
    k: nat,
)
    requires
        effect_wf(start),
        effect_wf(d),
        forall|t: int| 0 <= t < tail.len() ==> effect_wf(#[trigger] tail[t]),
        i <= k,
    ensures
        effect_wf(rounds_effect(start, d, tail, w, i)),
        effect_le(rounds_effect(start, d, tail, w, i), rounds_effect(start, d, tail, w, k)),
        effect_le(
            repeat_effect(rounds_effect(start, d, tail, w, i), d, w),
            rounds_effect(start, d, tail, w, i + 1),
        ),
    decreases k,
{
    if i < k {
        lemma_rounds_grow(start, d, tail, w, i, (k - 1) as nat);
        lemma_rounds_grow(start, d, tail, w, (k - 1) as nat, (k - 1) as nat);
        let prev = rounds_effect(start, d, tail, w, (k - 1) as nat);
        lemma_repeat_grows(prev, d, 0, w);
        lemma_repeat_grows(prev, d, w, w);
        lemma_then_all_grows(repeat_effect(prev, d, w), tail, 0);
    } else if k > 0 {
        lemma_rounds_grow(start, d, tail, w, (k - 1) as nat, (k - 1) as nat);
        let prev = rounds_effect(start, d, tail, w, (k - 1) as nat);
        lemma_repeat_grows(prev, d, w, w);
        lemma_then_all_grows(repeat_effect(prev, d, w), tail, 0);
        let cur = rounds_effect(start, d, tail, w, k);
        lemma_repeat_grows(cur, d, w, w);
        lemma_then_all_grows(repeat_effect(cur, d, w), tail, 0);
    } else {
        lemma_repeat_grows(start, d, w, w);
        lemma_then_all_grows(repeat_effect(start, d, w), tail, 0);
    }
}

/// Two effects one after the other.
pub proof fn lemma_effect_step(
    c0: ResourceCounter,
    c1: ResourceCounter,
    c2: ResourceCounter,
    a: (int, int, int, int),
    b: (int, int, int, int),
)
    requires
        effect_holds(c0, c1, a),
        effect_holds(c1, c2, b),
        effect_wf(a),
    ensures
        effect_holds(c0, c2, then_effect(a, b)),
{
    lemma_effect_then_effect(c0, c1, c2, a.0, a.1, a.2, a.3, b.0, b.1, b.2, b.3);
}

/// A counter that has gone through `p` since `c0` can take `x` when `p`
/// followed by `x` stays below a total that `c0` can take.
pub proof fn lemma_fits_next(
    c0: ResourceCounter,
    c: ResourceCounter,
    p: (int, int, int, int),
    x: (int, int, int, int),
    total: (int, int, int, int),
)
    requires
        effect_holds(c0, c, p),
        effect_wf(p),
        effect_wf(x),
        effect_le(then_effect(p, x), total),
        effect_fits(c0, total),
    ensures
        effect_fits(c, x),
{
}

/// Following by a one-element list is following by that element.
pub proof fn lemma_then_all_one(base: (int, int, int, int), e: (int, int, int, int))
    ensures
        then_all(base, seq![e]) == then_effect(base, e),
{
    assert(seq![e].drop_last() =~= Seq::<(int, int, int, int)>::empty());
    assert(then_all(base, seq![e].drop_last()) == base);
}

/// Following by a three-element list is following by each in turn.
pub proof fn lemma_then_all_three(
    base: (int, int, int, int),
    a: (int, int, int, int),
    b: (int, int, int, int),
    c: (int, int, int, int),
)
    ensures
        then_all(base, seq![a, b, c]) == then_effect(then_effect(then_effect(base, a), b), c),
{
    assert(seq![a, b, c].drop_last() =~= seq![a, b]);
    assert(seq![a, b].drop_last() =~= seq![a]);
    lemma_then_all_one(base, a);
    assert(then_all(base, seq![a, b]) == then_effect(then_all(base, seq![a]), b));
    assert(then_all(base, seq![a, b, c]) == then_effect(then_all(base, seq![a, b]), c));
}

} // verus!
