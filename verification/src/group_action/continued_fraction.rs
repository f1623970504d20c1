//! Classical post-processing for Shor's ECDLP: recovering k from
//! measurement pairs (c, d) with c + k·d ≡ 0 (mod r).
use vstd::arithmetic::div_mod::{
    lemma_fundamental_div_mod, lemma_mod_add_multiples_vanish, lemma_mod_bound,
    lemma_mod_multiples_vanish, lemma_mul_mod_noop_right, lemma_small_mod,
};
use vstd::arithmetic::mul::{lemma_mul_is_distributive_sub, lemma_mul_is_associative};
use vstd::prelude::*;

verus! {

/// Greatest common divisor by Euclid's algorithm.
pub open spec fn spec_gcd(a: nat, b: nat) -> nat
    decreases b,
{
    if b == 0 {
        a
    } else {
        spec_gcd(b, a % b)
    }
}

pub open spec fn abs_int(x: int) -> int {
    if x < 0 {
        -x
    } else {
        x
    }
}

/// Value of `mod_inverse(a, m)` as a function of its inputs.
pub open spec fn mod_inverse_spec_ok(a: nat, m: nat, x: nat) -> bool {
    x < m && ((a * x) as int) % (m as int) == 1int % (m as int)
}

/// One step of the extended Euclidean algorithm keeps its invariants.
pub proof fn lemma_ext_euclid_step(
    a: int,
    m: int,
    old_r: int,
    r: int,
    old_s: int,
    s: int,
    q: int,
)
    requires
        m > 0,
        old_r >= 0,
        r > 0,
        q == old_r / r,
        old_s * s <= 0,
        r * abs_int(old_s) + old_r * abs_int(s) == m,
        abs_int(s) <= m,
        (a * old_s - old_r) % m == 0,
        (a * s - r) % m == 0,
    ensures
        q >= 0,
        q * r <= old_r,
        abs_int(q * s) <= m,
        ({
            let r2 = old_r - q * r;
            let s2 = old_s - q * s;
            &&& r2 >= 0
            &&& r2 == old_r % r
            &&& s * s2 <= 0
            &&& r2 * abs_int(s) + r * abs_int(s2) == m
            &&& (a * s2 - r2) % m == 0
            &&& abs_int(s2) <= m
            &&& abs_int(s) <= m
        }),
{
    lemma_fundamental_div_mod(old_r, r);
    assert(q >= 0) by (nonlinear_arith)
        requires
            old_r >= 0,
            r > 0,
            q == old_r / r,
    ;
    let r2 = old_r - q * r;
    let s2 = old_s - q * s;
    assert(r2 == old_r % r);
    lemma_mod_bound(old_r, r);
    assert(abs_int(s2) == abs_int(old_s) + q * abs_int(s)) by (nonlinear_arith)
        requires
            old_s * s <= 0,
            q >= 0,
            s2 == old_s - q * s,
    ;
    assert(s * s2 <= 0) by (nonlinear_arith)
        requires
            old_s * s <= 0,
            q >= 0,
            s2 == old_s - q * s,
    ;
    assert(r2 * abs_int(s) + r * abs_int(s2) == m) by (nonlinear_arith)
        requires
            r * abs_int(old_s) + old_r * abs_int(s) == m,
            abs_int(s2) == abs_int(old_s) + q * abs_int(s),
            r2 == old_r - q * r,
    ;
    let as_ = abs_int(s);
    let as2 = abs_int(s2);
    assert(r * as2 <= m) by (nonlinear_arith)
        requires
            r2 * as_ + r * as2 == m,
            r2 >= 0,
            as_ >= 0,
    ;
    assert(as2 <= r * as2) by (nonlinear_arith)
        requires
            r >= 1,
            as2 >= 0,
    ;
    assert(abs_int(q * s) == q * as_) by (nonlinear_arith)
        requires
            q >= 0,
            as_ == abs_int(s),
    ;
    assert(q * as_ <= as2);
    // a*s2 - r2 = (a*old_s - old_r) - q*(a*s - r)
    assert(a * s2 - r2 == (a * old_s - old_r) - q * (a * s - r)) by (nonlinear_arith)
        requires
            s2 == old_s - q * s,
            r2 == old_r - q * r,
    ;
    let k1 = (a * old_s - old_r) / m;
    let k2 = (a * s - r) / m;
    lemma_fundamental_div_mod(a * old_s - old_r, m);
    lemma_fundamental_div_mod(a * s - r, m);
    assert(a * s2 - r2 == m * (k1 - q * k2)) by (nonlinear_arith)
        requires
            a * s2 - r2 == (a * old_s - old_r) - q * (a * s - r),
            a * old_s - old_r == m * k1,
            a * s - r == m * k2,
    ;
    lemma_mod_multiples_vanish(k1 - q * k2, 0, m);
}

/// Compute the modular inverse of a mod m by the extended Euclidean algorithm.
/// Returns None when m is zero or gcd(a, m) ≠ 1.
pub fn mod_inverse(a: u64, m: u64) -> (res: Option<u64>)
    ensures
        m == 0 ==> res.is_none(),
        m != 0 ==> (res.is_some() <==> spec_gcd(a as nat, m as nat) == 1),
        res matches Some(x) ==> mod_inverse_spec_ok(a as nat, m as nat, x as nat),
{
    if m == 0 {
        return None;
    }
    let ghost ai = a as int;
    let ghost mi = m as int;
    let mut old_r: i128 = a as i128;
    let mut r: i128 = m as i128;
    let mut old_s: i128 = 1;
    let mut s: i128 = 0;
    proof {
        assert(ai * 1 - ai == 0);
        assert(abs_int(1) == 1 && abs_int(0) == 0);
        assert(mi * 1 + ai * 0 == mi);
        assert((ai * 0 - mi) % mi == 0) by {
            lemma_mod_multiples_vanish(-1, 0, mi);
        }
    }
    while r != 0
        invariant
            mi == m as int,
            ai == a as int,
            mi > 0,
            old_r >= 0,
            r >= 0,
            old_r <= 0xFFFF_FFFF_FFFF_FFFF,
            r <= 0xFFFF_FFFF_FFFF_FFFF,
            old_s * s <= 0,
            r * abs_int(old_s as int) + old_r * abs_int(s as int) == mi,
            abs_int(old_s as int) <= mi,
            abs_int(s as int) <= mi,
            (ai * old_s - old_r) % mi == 0,
            (ai * s - r) % mi == 0,
            spec_gcd(old_r as nat, r as nat) == spec_gcd(a as nat, m as nat),
        decreases r,
    {
        let quotient = old_r / r;
        proof {
            lemma_ext_euclid_step(ai, mi, old_r as int, r as int, old_s as int, s as int, quotient as int);
        }
        let temp_r = r;
        r = old_r - quotient * r;
        old_r = temp_r;
        let temp_s = s;
        s = old_s - quotient * s;
        old_s = temp_s;
    }
    if old_r != 1 {
        return None;
    }
    let mm = m as i128;
    // old_s lies in [-m, m]; normalize to its residue in [0, m).
    let shifted = if old_s < 0 {
        old_s + mm
    } else {
        old_s
    };
    let result = shifted % mm;
    proof {
        lemma_mod_add_multiples_vanish(old_s as int, mi);
        assert(result as int % mi == old_s as int % mi) by {
            lemma_mod_bound(shifted as int, mi);
            vstd::arithmetic::div_mod::lemma_mod_twice(shifted as int, mi);
        }
        lemma_mul_mod_noop_right(ai, old_s as int, mi);
        lemma_mul_mod_noop_right(ai, result as int, mi);
        lemma_fundamental_div_mod(ai * old_s - 1, mi);
        let k = (ai * old_s - 1) / mi;
        lemma_mod_multiples_vanish(k, 1, mi);
        assert(ai * old_s == mi * k + 1);
    }
    Some(result as u64)
}

/// Greatest common divisor of a and b (Euclid's algorithm).
pub fn gcd(a: u64, b: u64) -> (g: u64)
    ensures
        g as nat == spec_gcd(a as nat, b as nat),
{
    let mut a = a;
    let mut b = b;
    let ghost a0 = a;
    let ghost b0 = b;
    while b != 0
        invariant
            spec_gcd(a as nat, b as nat) == spec_gcd(a0 as nat, b0 as nat),
        decreases b,
    {
        let t = b;
        b = a % b;
        a = t;
    }
    a
}

/// Solutions of c + k·d ≡ 0 (mod order) in [0, order) are unique when d is a unit.
pub proof fn lemma_recovered_secret_unique(c: int, d: int, order: int, k1: int, k2: int, d_inv: int)
    requires
        order > 0,
        (d * d_inv) % order == 1int % order,
        0 <= k1 < order,
        0 <= k2 < order,
        (c + k1 * d) % order == 0,
        (c + k2 * d) % order == 0,
    ensures
        k1 == k2,
{
    let m = order;
    // k1·d ≡ k2·d, multiply by d_inv.
    lemma_fundamental_div_mod(c + k1 * d, m);
    lemma_fundamental_div_mod(c + k2 * d, m);
    let q1 = (c + k1 * d) / m;
    let q2 = (c + k2 * d) / m;
    assert((k1 - k2) * d == m * (q1 - q2)) by (nonlinear_arith)
        requires
            c + k1 * d == m * q1,
            c + k2 * d == m * q2,
    ;
    lemma_fundamental_div_mod(d * d_inv, m);
    let q3 = (d * d_inv) / m;
    let one = 1int % m;
    assert((k1 - k2) * (d * d_inv) == m * ((q1 - q2) * d_inv)) by (nonlinear_arith)
        requires
            (k1 - k2) * d == m * (q1 - q2),
    ;
    assert((k1 - k2) * (d * d_inv) == (k1 - k2) * (m * q3 + one)) by (nonlinear_arith)
        requires
            d * d_inv == m * q3 + one,
    ;
    assert((k1 - k2) * one == m * ((q1 - q2) * d_inv - (k1 - k2) * q3)) by (nonlinear_arith)
        requires
            (k1 - k2) * (d * d_inv) == m * ((q1 - q2) * d_inv),
            (k1 - k2) * (d * d_inv) == (k1 - k2) * (m * q3 + one),
    ;
    if m == 1 {
    } else {
        lemma_small_mod(1, m as nat);
        assert(k1 - k2 == m * ((q1 - q2) * d_inv - (k1 - k2) * q3)) by (nonlinear_arith)
            requires
                (k1 - k2) * one == m * ((q1 - q2) * d_inv - (k1 - k2) * q3),
                one == 1,
        ;
        let w = (q1 - q2) * d_inv - (k1 - k2) * q3;
        assert(w == 0) by (nonlinear_arith)
            requires
                k1 - k2 == m * w,
                -m < k1 - k2 < m,
                m > 1,
        ;
    }
}

/// The solution k in [0, order) of c + k·d ≡ 0 (mod order); unique when d
/// is a unit modulo order.
pub open spec fn direct_secret(c: u64, d: u64, order: u64) -> u64 {
    choose|k: u64| k < order && #[trigger] satisfies_relation((c, d), k, order)
}

/// What direct recovery from (c, d) gives: the solution k when d ≠ 0 is a
/// unit modulo a non-zero order, `None` otherwise.
pub open spec fn direct_outcome(c: u64, d: u64, order: u64) -> Option<u64> {
    if d != 0 && order != 0 && spec_gcd(d as nat, order as nat) == 1 {
        Some(direct_secret(c, d, order))
    } else {
        None
    }
}

/// Recover k from a single measurement pair (c, d) with d invertible mod order:
/// k = −c · d⁻¹ mod order.
pub fn recover_secret_direct(c: u64, d: u64, order: u64) -> (res: Option<u64>)
    ensures
        res == direct_outcome(c, d, order),
        res.is_some() <==> (d != 0 && order != 0 && spec_gcd(d as nat, order as nat) == 1),
        res matches Some(k) ==> (k < order && ((c + k * d) as int) % (order as int) == 0),
        c == 0 ==> (res matches Some(k) ==> k == 0),
{
    if d == 0 || order == 0 {
        return None;
    }
    let d_inv = match mod_inverse(d, order) {
        Some(v) => v,
        None => {
            return None;
        },
    };
    let k = if c == 0 {
        proof {
            assert(c + 0 * d == 0) by (nonlinear_arith)
                requires
                    c == 0,
            ;
            assert(0int % (order as int) == 0);
        }
        0
    } else {
        let neg_c = order - (c % order);
        assert(neg_c as u128 * d_inv as u128 <= 0xFFFF_FFFF_FFFF_FFFFu128
            * 0xFFFF_FFFF_FFFF_FFFFu128) by (nonlinear_arith)
            requires
                neg_c <= 0xFFFF_FFFF_FFFF_FFFFu64,
                d_inv <= 0xFFFF_FFFF_FFFF_FFFFu64,
        ;
        let k = ((neg_c as u128 * d_inv as u128) % order as u128) as u64;
        proof {
            let m = order as int;
            let ci = c as int;
            let di = d as int;
            let vi = d_inv as int;
            let ki = k as int;
            let ni = neg_c as int;
            lemma_fundamental_div_mod(ci, m);
            lemma_fundamental_div_mod(ni * vi, m);
            lemma_fundamental_div_mod(di * vi, m);
            let qc = ci / m;
            let rc = ci % m;
            let qk = (ni * vi) / m;
            let qi = (di * vi) / m;
            let one = 1int % m;
            assert(ni * vi == m * qk + ki);
            assert(ci + ki * di == m * (qc + (m - rc) * qi - qk * di) + rc + (m - rc) * one)
                by (nonlinear_arith)
                requires
                    ci == m * qc + rc,
                    ni == m - rc,
                    ni * vi == m * qk + ki,
                    di * vi == m * qi + one,
            ;
            let w = qc + (m - rc) * qi - qk * di;
            if m == 1 {
                assert(rc == 0);
                assert(one == 0);
                lemma_mod_multiples_vanish(w, 0, m);
            } else {
                lemma_small_mod(1, m as nat);
                assert((m - rc) * one == m - rc) by (nonlinear_arith)
                    requires
                        one == 1,
                ;
                assert(ci + ki * di == m * (w + 1)) by (nonlinear_arith)
                    requires
                        ci + ki * di == m * w + rc + (m - rc),
                ;
                lemma_mod_multiples_vanish(w + 1, 0, m);
            }
            assert(0int % m == 0);
            assert((ci + ki * di) % m == 0);
            assert(((c + k * d) as int) % (order as int) == 0);
        }
        k
    };
    proof {
        let ks = direct_secret(c, d, order);
        assert(k < order && satisfies_relation((c, d), k, order));
        assert(ks < order && satisfies_relation((c, d), ks, order));
        lemma_recovered_secret_unique(c as int, d as int, order as int, k as int, ks as int, d_inv as int);
    }
    Some(k)
}

/// A measurement pair whose d is a unit modulo order, so that it alone determines k.
pub open spec fn direct_usable(m: (u64, u64), order: u64) -> bool {
    m.1 != 0 && spec_gcd(m.1 as nat, order as nat) == 1
}

/// k satisfies the Shor relation c + k·d ≡ 0 (mod order) for the pair.
pub open spec fn satisfies_relation(m: (u64, u64), k: u64, order: u64) -> bool {
    ((m.0 + k * m.1) as int) % (order as int) == 0
}

/// The result of direct recovery on the first pair, from index i on, that
/// it accepts.
pub open spec fn first_direct(ms: Seq<(u64, u64)>, order: u64, i: int) -> Option<u64>
    decreases ms.len() - i,
{
    if i < 0 || i >= ms.len() {
        None
    } else {
        match direct_outcome(ms[i].0, ms[i].1, order) {
            Some(k) => Some(k),
            None => first_direct(ms, order, i + 1),
        }
    }
}

/// x − y modulo order as the pair recovery computes it: x − y when x ≥ y,
/// else order − ((y − x) mod order).
pub open spec fn diff_mod(x: u64, y: u64, order: u64) -> u64 {
    if x >= y {
        (x - y) as u64
    } else {
        (order - (y - x) % (order as int)) as u64
    }
}

/// The candidate from the pair (m1, m2): direct recovery on the differences
/// (c1 − c2, d1 − d2), kept only when d1 − d2 ≠ 0 and the candidate satisfies
/// m1's relation.
pub open spec fn pair_candidate(m1: (u64, u64), m2: (u64, u64), order: u64) -> Option<u64> {
    let dc = diff_mod(m1.0, m2.0, order);
    let dd = diff_mod(m1.1, m2.1, order);
    if dd == 0 {
        None
    } else {
        match direct_outcome(dc, dd, order) {
            Some(k) => if satisfies_relation(m1, k, order) {
                Some(k)
            } else {
                None
            },
            None => None,
        }
    }
}

/// The first candidate from the pairs (i, j), (i, j+1), ….
pub open spec fn pair_row(ms: Seq<(u64, u64)>, order: u64, i: int, j: int) -> Option<u64>
    decreases ms.len() - j,
{
    if j < 0 || j >= ms.len() {
        None
    } else {
        match pair_candidate(ms[i], ms[j], order) {
            Some(k) => Some(k),
            None => pair_row(ms, order, i, j + 1),
        }
    }
}

/// The first candidate over the pairs i < j in lexicographic order, from
/// row i on.
pub open spec fn pair_scan(ms: Seq<(u64, u64)>, order: u64, i: int) -> Option<u64>
    decreases ms.len() - i,
{
    if i < 0 || i >= ms.len() {
        None
    } else {
        match pair_row(ms, order, i, i + 1) {
            Some(k) => Some(k),
            None => pair_scan(ms, order, i + 1),
        }
    }
}

/// What recovery from several pairs gives: `None` for order 0; else direct
/// recovery on the first pair that allows it; else the first pair
/// candidate.
pub open spec fn multi_outcome(ms: Seq<(u64, u64)>, order: u64) -> Option<u64> {
    if order == 0 {
        None
    } else {
        match first_direct(ms, order, 0) {
            Some(k) => Some(k),
            None => pair_scan(ms, order, 0),
        }
    }
}

/// Recover k from several measurement pairs: first by direct inversion of a
/// pair whose d is a unit, then by differences of pairs, accepting a
/// candidate only if it satisfies the first pair's relation.
pub fn recover_secret_multi(measurements: &[(u64, u64)], order: u64) -> (res: Option<u64>)
    ensures
        res == multi_outcome(measurements@, order),
        order == 0 ==> res.is_none(),
        order != 0 ==> forall|i: int|
            0 <= i < measurements@.len() && direct_usable(measurements@[i], order) && (forall|
                j: int,
            |
                0 <= j < i ==> !direct_usable(#[trigger] measurements@[j], order)) ==> (
            res matches Some(k) && satisfies_relation(measurements@[i], k, order)),
        res matches Some(k) ==> k < order && exists|i: int|
            0 <= i < measurements@.len() && satisfies_relation(
                #[trigger] measurements@[i],
                k,
                order,
            ),
{
    if order == 0 {
        return None;
    }
    let n = measurements.len();
    let mut idx: usize = 0;
    while idx < n
        invariant
            n == measurements@.len(),
            order != 0,
            idx <= n,
            forall|j: int| 0 <= j < idx ==> !direct_usable(#[trigger] measurements@[j], order),
            first_direct(measurements@, order, 0) == first_direct(measurements@, order, idx as int),
        decreases n - idx,
    {
        let (c, d) = measurements[idx];
        if let Some(k) = recover_secret_direct(c, d, order) {
            assert(satisfies_relation(measurements@[idx as int], k, order));
            return Some(k);
        }
        idx += 1;
    }
    assert(first_direct(measurements@, order, n as int) is None);
    let mut i: usize = 0;
    while i < n
        invariant
            n == measurements@.len(),
            order != 0,
            i <= n,
            forall|j: int| 0 <= j < n ==> !direct_usable(#[trigger] measurements@[j], order),
            first_direct(measurements@, order, 0) is None,
            pair_scan(measurements@, order, 0) == pair_scan(measurements@, order, i as int),
        decreases n - i,
    {
        let mut j: usize = i + 1;
        while j < n
            invariant
                n == measurements@.len(),
                order != 0,
                i < n,
                i + 1 <= j <= n,
                forall|j: int| 0 <= j < n ==> !direct_usable(#[trigger] measurements@[j], order),
                first_direct(measurements@, order, 0) is None,
                pair_scan(measurements@, order, 0) == pair_scan(measurements@, order, i as int),
                pair_row(measurements@, order, i as int, i + 1) == pair_row(
                    measurements@,
                    order,
                    i as int,
                    j as int,
                ),
            decreases n - j,
        {
            let (c1, d1) = measurements[i];
            let (c2, d2) = measurements[j];
            let dc = if c1 >= c2 {
                c1 - c2
            } else {
                order - (c2 - c1) % order
            };
            let dd = if d1 >= d2 {
                d1 - d2
            } else {
                order - (d2 - d1) % order
            };
            assert(dc == diff_mod(c1, c2, order));
            assert(dd == diff_mod(d1, d2, order));
            if dd == 0 {
                j += 1;
                continue;
            }
            if let Some(k) = recover_secret_direct(dc, dd, order) {
                assert(k as u128 * d1 as u128 <= 0xFFFF_FFFF_FFFF_FFFFu128
                    * 0xFFFF_FFFF_FFFF_FFFFu128) by (nonlinear_arith)
                    requires
                        k <= 0xFFFF_FFFF_FFFF_FFFFu64,
                        d1 <= 0xFFFF_FFFF_FFFF_FFFFu64,
                ;
                let check1 = (c1 as u128 + k as u128 * d1 as u128) % (order as u128) == 0;
                if check1 {
                    assert(satisfies_relation(measurements@[i as int], k, order));
                    return Some(k);
                }
            }
            j += 1;
        }
        i += 1;
    }
    assert(pair_scan(measurements@, order, n as int) is None);
    None
}

/// Partial quotients of the continued-fraction expansion of a/b (Euclid).
pub open spec fn cf_quotients(a: nat, b: nat) -> Seq<nat>
    decreases b,
{
    if b == 0 {
        Seq::empty()
    } else {
        seq![a / b] + cf_quotients(b, a % b)
    }
}

/// Convergent recurrence state after n quotients: (p_{n-1}, p_{n-2}, q_{n-1}, q_{n-2}),
/// starting from p_{-1} = 1, p_{-2} = 0, q_{-1} = 0, q_{-2} = 1.
pub open spec fn cf_state(qs: Seq<nat>, n: nat) -> (nat, nat, nat, nat)
    decreases n,
{
    if n == 0 {
        (1, 0, 0, 1)
    } else {
        let s = cf_state(qs, (n - 1) as nat);
        let q = qs[n - 1];
        (q * s.0 + s.1, s.0, q * s.2 + s.3, s.2)
    }
}

/// The i-th convergent p_i / q_i of the expansion with quotients qs.
pub open spec fn cf_convergent(qs: Seq<nat>, i: nat) -> (nat, nat) {
    let s = cf_state(qs, i + 1);
    (s.0, s.2)
}

proof fn lemma_cf_quotients_step(a: nat, b: nat)
    requires
        b > 0,
    ensures
        cf_quotients(a, b) == seq![a / b] + cf_quotients(b, a % b),
{
}

/// The pair of Euclid's algorithm after k division steps from (a, b).
pub open spec fn euclid_pair(a: nat, b: nat, k: nat) -> (nat, nat)
    decreases k,
{
    if k == 0 {
        (a, b)
    } else {
        let prev = euclid_pair(a, b, (k - 1) as nat);
        if prev.1 == 0 {
            prev
        } else {
            (prev.1, prev.0 % prev.1)
        }
    }
}

proof fn lemma_euclid_pair_shift(a: nat, b: nat, k: nat)
    requires
        b > 0,
    ensures
        euclid_pair(a, b, k + 1) == euclid_pair(b, a % b, k),
    decreases k,
{
    if k == 0 {
        assert(euclid_pair(a, b, 0) == (a, b));
        assert(euclid_pair(a, b, 1) == (b, a % b));
    } else {
        lemma_euclid_pair_shift(a, b, (k - 1) as nat);
        let prev = euclid_pair(a, b, k);
        assert(prev == euclid_pair(b, a % b, (k - 1) as nat));
        assert(euclid_pair(a, b, k + 1) == (if prev.1 == 0 {
            prev
        } else {
            (prev.1, prev.0 % prev.1)
        }));
    }
}

/// The k-th quotient is that of the k-th Euclid pair.
proof fn lemma_cf_quotient_at(a: nat, b: nat, k: nat)
    requires
        k < cf_quotients(a, b).len(),
    ensures
        euclid_pair(a, b, k).1 > 0,
        cf_quotients(a, b)[k as int] == euclid_pair(a, b, k).0 / euclid_pair(a, b, k).1,
    decreases b,
{
    if b == 0 {
        assert(cf_quotients(a, b) =~= Seq::<nat>::empty());
    } else {
        let r = a % b;
        lemma_mod_bound(a as int, b as int);
        let qs = cf_quotients(a, b);
        let rest = cf_quotients(b, r);
        assert(qs == seq![a / b] + rest);
        if k == 0 {
            assert(euclid_pair(a, b, 0) == (a, b));
        } else {
            let k1 = (k - 1) as nat;
            lemma_cf_quotient_at(b, r, k1);
            lemma_euclid_pair_shift(a, b, k1);
            assert(k1 + 1 == k);
            assert(qs[k as int] == rest[k1 as int]);
        }
    }
}

/// After as many steps as there are quotients the Euclid pair is
/// (gcd(a, b), 0).
proof fn lemma_cf_quotients_end(a: nat, b: nat)
    ensures
        euclid_pair(a, b, cf_quotients(a, b).len()) == (spec_gcd(a, b), 0nat),
    decreases b,
{
    if b == 0 {
        assert(cf_quotients(a, b) =~= Seq::<nat>::empty());
        assert(euclid_pair(a, b, 0) == (a, 0nat));
    } else {
        let r = a % b;
        lemma_mod_bound(a as int, b as int);
        lemma_cf_quotients_end(b, r);
        let rest = cf_quotients(b, r);
        assert(cf_quotients(a, b) == seq![a / b] + rest);
        lemma_euclid_pair_shift(a, b, rest.len());
    }
}

/// The convergent recurrence carries the Euclid pair: after k quotients,
/// a = p_{k−1}·x + p_{k−2}·y and b = q_{k−1}·x + q_{k−2}·y for the k-th
/// Euclid pair (x, y).
proof fn lemma_cf_state_invariant(a: nat, b: nat, k: nat)
    requires
        k <= cf_quotients(a, b).len(),
    ensures
        ({
            let s = cf_state(cf_quotients(a, b), k);
            let e = euclid_pair(a, b, k);
            &&& a == s.0 * e.0 + s.1 * e.1
            &&& b == s.2 * e.0 + s.3 * e.1
        }),
    decreases k,
{
    if k > 0 {
        let k1 = (k - 1) as nat;
        lemma_cf_state_invariant(a, b, k1);
        lemma_cf_quotient_at(a, b, k1);
        let qs = cf_quotients(a, b);
        let s = cf_state(qs, k1);
        let e = euclid_pair(a, b, k1);
        let q = qs[k1 as int];
        assert(e.1 > 0);
        assert(q == e.0 / e.1);
        lemma_fundamental_div_mod(e.0 as int, e.1 as int);
        let r = e.0 % e.1;
        assert(e.0 == e.1 * q + r);
        assert(euclid_pair(a, b, k) == (e.1, r));
        assert(a == (q * s.0 + s.1) * e.1 + s.0 * r) by (nonlinear_arith)
            requires
                a == s.0 * e.0 + s.1 * e.1,
                e.0 == e.1 * q + r,
        ;
        assert(b == (q * s.2 + s.3) * e.1 + s.2 * r) by (nonlinear_arith)
            requires
                b == s.2 * e.0 + s.3 * e.1,
                e.0 == e.1 * q + r,
        ;
        assert(cf_state(qs, k) == (q * s.0 + s.1, s.0, q * s.2 + s.3, s.2));
        let s2 = cf_state(qs, k);
        let e2 = euclid_pair(a, b, k);
        assert(a == s2.0 * e2.0 + s2.1 * e2.1);
        assert(b == s2.2 * e2.0 + s2.3 * e2.1);
    } else {
        let s0 = cf_state(cf_quotients(a, b), 0);
        let e0 = euclid_pair(a, b, 0);
        assert(s0 == (1nat, 0nat, 0nat, 1nat));
        assert(e0 == (a, b));
        assert(a == s0.0 * e0.0 + s0.1 * e0.1) by (nonlinear_arith)
            requires
                s0.0 == 1,
                s0.1 == 0,
                e0.0 == a,
        ;
        assert(b == s0.2 * e0.0 + s0.3 * e0.1) by (nonlinear_arith)
            requires
                s0.2 == 0,
                s0.3 == 1,
                e0.1 == b,
        ;
    }
}

/// The continued fraction expansion is exact: the last convergent of a/b
/// (b > 0) is a/b in lowest terms, (a / gcd(a, b), b / gcd(a, b)).
pub proof fn lemma_last_convergent(a: nat, b: nat)
    requires
        b > 0,
    ensures
        cf_quotients(a, b).len() > 0,
        ({
            let g = spec_gcd(a, b);
            let last = cf_convergent(cf_quotients(a, b), (cf_quotients(a, b).len() - 1) as nat);
            g > 0 && last.0 * g == a && last.1 * g == b
        }),
{
    let qs = cf_quotients(a, b);
    assert(qs == seq![a / b] + cf_quotients(b, a % b));
    let n = qs.len();
    lemma_cf_quotients_end(a, b);
    lemma_cf_state_invariant(a, b, n);
    let g = spec_gcd(a, b);
    let s = cf_state(qs, n);
    assert(a == s.0 * g + s.1 * 0);
    assert(b == s.2 * g + s.3 * 0);
    assert(g > 0) by (nonlinear_arith)
        requires
            b == s.2 * g + s.3 * 0,
            b > 0,
    ;
    assert((n - 1) as nat + 1 == n);
}

/// Compute the convergents of the continued fraction of numerator/denominator,
/// stopping early when the next convergent would overflow u64.
pub fn continued_fraction_convergents(numerator: u64, denominator: u64) -> (res: Vec<(u64, u64)>)
    ensures
        denominator == 0 ==> res@ == seq![(numerator, 1u64)],
        denominator != 0 ==> ({
            let qs = cf_quotients(numerator as nat, denominator as nat);
            &&& res@.len() <= qs.len()
            &&& forall|i: int|
                0 <= i < res@.len() ==> (#[trigger] res@[i]).0 as nat == cf_convergent(qs, i as nat).0
                    && res@[i].1 as nat == cf_convergent(qs, i as nat).1
            &&& res@.len() < qs.len() ==> (cf_convergent(qs, res@.len()).0 > u64::MAX
                || cf_convergent(qs, res@.len()).1 > u64::MAX)
        }),
{
    if denominator == 0 {
        return vec![(numerator, 1)];
    }
    let ghost qs = cf_quotients(numerator as nat, denominator as nat);
    let mut convergents: Vec<(u64, u64)> = Vec::new();
    let mut a = numerator;
    let mut b = denominator;
    let mut p_prev2: u64 = 0;
    let mut p_prev1: u64 = 1;
    let mut q_prev2: u64 = 1;
    let mut q_prev1: u64 = 0;
    let ghost mut n: nat = 0;
    loop
        invariant_except_break
            b > 0,
            n == convergents@.len(),
            n + cf_quotients(a as nat, b as nat).len() == qs.len(),
            cf_quotients(a as nat, b as nat) == qs.subrange(n as int, qs.len() as int),
            cf_state(qs, n) == (p_prev1 as nat, p_prev2 as nat, q_prev1 as nat, q_prev2 as nat),
            forall|i: int|
                0 <= i < convergents@.len() ==> (#[trigger] convergents@[i]).0 as nat
                    == cf_convergent(qs, i as nat).0 && convergents@[i].1 as nat
                    == cf_convergent(qs, i as nat).1,
        ensures
            convergents@.len() <= qs.len(),
            forall|i: int|
                0 <= i < convergents@.len() ==> (#[trigger] convergents@[i]).0 as nat
                    == cf_convergent(qs, i as nat).0 && convergents@[i].1 as nat
                    == cf_convergent(qs, i as nat).1,
            convergents@.len() < qs.len() ==> (cf_convergent(qs, convergents@.len()).0 > u64::MAX
                || cf_convergent(qs, convergents@.len()).1 > u64::MAX),
        decreases b,
    {
        let quotient = a / b;
        let remainder = a % b;
        let ghost tail = cf_quotients(a as nat, b as nat);
        let ghost n0 = n;
        proof {
            lemma_cf_quotients_step(a as nat, b as nat);
            assert(tail.subrange(1, tail.len() as int) =~= cf_quotients(b as nat, (a % b) as nat));
            assert(qs[n as int] == quotient as nat) by {
                assert(cf_quotients(a as nat, b as nat)[0] == quotient as nat);
            }
        }
        let p_next = match quotient.checked_mul(p_prev1) {
            Some(v) => v.checked_add(p_prev2),
            None => None,
        };
        let q_next = match quotient.checked_mul(q_prev1) {
            Some(v) => v.checked_add(q_prev2),
            None => None,
        };
        match (p_next, q_next) {
            (Some(p), Some(q)) => {
                convergents.push((p, q));
                p_prev2 = p_prev1;
                q_prev2 = q_prev1;
                p_prev1 = p;
                q_prev1 = q;
                proof {
                    n = n + 1;
                    assert(cf_state(qs, n) == (p_prev1 as nat, p_prev2 as nat, q_prev1 as nat, q_prev2 as nat));
                }
            },
            _ => {
                proof {
                    assert(cf_state(qs, n + 1).0 > u64::MAX || cf_state(qs, n + 1).2 > u64::MAX)
                        by (nonlinear_arith)
                        requires
                            cf_state(qs, n + 1).0 == qs[n as int] * cf_state(qs, n).0 + cf_state(qs, n).1,
                            cf_state(qs, n + 1).2 == qs[n as int] * cf_state(qs, n).2 + cf_state(qs, n).3,
                            p_next.is_none() || q_next.is_none(),
                            p_next.is_none() ==> quotient * p_prev1 + p_prev2 > u64::MAX,
                            q_next.is_none() ==> quotient * q_prev1 + q_prev2 > u64::MAX,
                            qs[n as int] == quotient,
                            cf_state(qs, n) == (p_prev1 as nat, p_prev2 as nat, q_prev1 as nat, q_prev2 as nat),
                    ;
                }
                break;
            },
        }
        if remainder == 0 {
            proof {
                assert(cf_quotients(remainder as nat, remainder as nat) =~= Seq::<nat>::empty());
                assert(cf_quotients(b as nat, remainder as nat).len() == 0);
            }
            break;
        }
        proof {
            assert(n == n0 + 1);
            assert(qs.subrange(n as int, qs.len() as int) =~= tail.subrange(1, tail.len() as int));
        }
        a = b;
        b = remainder;
    }
    convergents
}

} // verus!
