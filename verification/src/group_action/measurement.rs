//! Simulation of Shor measurement outcomes: pairs (c, d) with c + k·d ≡ 0 (mod r).
use vstd::arithmetic::div_mod::{
    lemma_fundamental_div_mod, lemma_mod_bound, lemma_mod_multiples_vanish, lemma_small_mod,
};
use crate::field::fermat::{ext_gcd, is_prime, lemma_ext_gcd, lemma_prime_inverse_exists};
use crate::group_action::continued_fraction::{
    direct_usable, lemma_recovered_secret_unique, satisfies_relation, spec_gcd,
};
use vstd::prelude::*;

verus! {

pub open spec fn wmul(a: u64, b: u64) -> u64 {
    ((a as int * b as int) % 0x1_0000_0000_0000_0000) as u64
}

/// The splitmix64 finalizer applied to the seed.
pub open spec fn mix_seed(seed: u64) -> u64 {
    let z0 = ((seed as int + 0x9e3779b97f4a7c15) % 0x1_0000_0000_0000_0000) as u64;
    let z1 = wmul(z0 ^ (z0 >> 30u64), 0xbf58476d1ce4e5b9);
    let z2 = wmul(z1 ^ (z1 >> 27u64), 0x94d049bb133111eb);
    z2 ^ (z2 >> 31u64)
}

/// Deterministic nonzero residue mod m derived from a seed.
pub open spec fn nonzero_mod_spec(seed: u64, m: u64) -> u64 {
    if m <= 1 {
        1
    } else {
        ((mix_seed(seed) % ((m - 1) as u64)) + 1) as u64
    }
}

/// c = −k·d mod order.
pub open spec fn measurement_c_spec(k: u64, d: u64, order: u64) -> u64 {
    let kd = (k as int * d as int) % (order as int);
    if kd == 0 {
        0
    } else {
        (order - kd) as u64
    }
}

/// Sample a measurement pair (c, d) satisfying c + k·d ≡ 0 (mod order);
/// d is a deterministic nonzero residue derived from the seed.
pub fn sample_measurement_pair(k: u64, order: u64, seed: u64) -> (res: (u64, u64))
    requires
        order > 0,
    ensures
        res.1 == nonzero_mod_spec(seed, order),
        res.0 == measurement_c_spec(k, res.1, order),
        res.0 < order,
        order > 1 ==> 1 <= res.1 < order,
        ((res.0 + k * res.1) as int) % (order as int) == 0,
{
    let d = deterministic_nonzero_mod(seed, order);
    let c = compute_c(k, d, order);
    (c, d)
}

/// Sample `count` measurement pairs with seeds 1..=count.
pub fn sample_measurement_pairs(k: u64, order: u64, count: usize) -> (res: Vec<(u64, u64)>)
    requires
        order > 0,
    ensures
        res@.len() == count,
        forall|i: int|
            0 <= i < count ==> (#[trigger] res@[i]).1 == nonzero_mod_spec((i + 1) as u64, order)
                && res@[i].0 == measurement_c_spec(k, res@[i].1, order),
        forall|i: int|
            0 <= i < count ==> ((#[trigger] res@[i].0 + k * res@[i].1) as int) % (order as int)
                == 0,
{
    let mut out: Vec<(u64, u64)> = Vec::new();
    let mut i: usize = 0;
    while i < count
        invariant
            order > 0,
            i <= count,
            out@.len() == i,
            forall|j: int|
                0 <= j < i ==> (#[trigger] out@[j]).1 == nonzero_mod_spec((j + 1) as u64, order)
                    && out@[j].0 == measurement_c_spec(k, out@[j].1, order),
            forall|j: int|
                0 <= j < i ==> ((#[trigger] out@[j].0 + k * out@[j].1) as int) % (order as int)
                    == 0,
        decreases count - i,
    {
        let pair = sample_measurement_pair(k, order, i as u64 + 1);
        out.push(pair);
        i += 1;
    }
    out
}

/// Verify that (c, d) satisfies c + k·d ≡ 0 (mod order).
pub fn verify_measurement_pair(c: u64, d: u64, k: u64, order: u64) -> (r: bool)
    requires
        order > 0,
    ensures
        r == (((c + k * d) as int) % (order as int) == 0),
{
    assert((k as u128) * (d as u128) <= 0xFFFF_FFFF_FFFF_FFFFu128 * 0xFFFF_FFFF_FFFF_FFFFu128)
        by (nonlinear_arith)
        requires
            k <= 0xFFFF_FFFF_FFFF_FFFFu64,
            d <= 0xFFFF_FFFF_FFFF_FFFFu64,
    ;
    let lhs = ((c as u128) + (k as u128) * (d as u128)) % (order as u128);
    lhs == 0
}

/// c = −k·d mod order satisfies the relation c + k·d ≡ 0 (mod order).
proof fn lemma_measurement_c(k: u64, d: u64, order: u64)
    requires
        order > 0,
    ensures
        measurement_c_spec(k, d, order) < order,
        ((measurement_c_spec(k, d, order) + k * d) as int) % (order as int) == 0,
{
    let m = order as int;
    let p = k as int * d as int;
    lemma_fundamental_div_mod(p, m);
    lemma_mod_bound(p, m);
    let kd = p % m;
    if kd == 0 {
        lemma_mod_multiples_vanish(p / m, 0, m);
        assert(0 + p == m * (p / m));
    } else {
        let q = p / m;
        assert((m - kd) + p == m * (q + 1)) by (nonlinear_arith)
            requires
                p == m * q + kd,
        ;
        lemma_mod_multiples_vanish(p / m + 1, 0, m);
    }
}

proof fn lemma_spec_gcd_is_ext(a: nat, b: nat)
    ensures
        spec_gcd(a, b) == ext_gcd(a, b).2,
    decreases b,
{
    if b > 0 {
        lemma_mod_bound(a as int, b as int);
        lemma_spec_gcd_is_ext(b, a % b);
    }
}

/// For a prime order a simulated measurement pair determines the secret:
/// its d is invertible modulo the order, and the planted k is the only
/// k' < order with c + k'·d ≡ 0 (mod order).
pub proof fn lemma_sampled_pair_determines_secret(k: u64, order: u64, seed: u64, k2: u64)
    requires
        is_prime(order as int),
        k < order,
        k2 < order,
        satisfies_relation(
            (measurement_c_spec(k, nonzero_mod_spec(seed, order), order), nonzero_mod_spec(seed, order)),
            k2,
            order,
        ),
    ensures
        direct_usable(
            (measurement_c_spec(k, nonzero_mod_spec(seed, order), order), nonzero_mod_spec(seed, order)),
            order,
        ),
        k2 == k,
{
    let d = nonzero_mod_spec(seed, order);
    let c = measurement_c_spec(k, d, order);
    let m = (order - 1) as u64;
    lemma_mod_bound(mix_seed(seed) as int, m as int);
    assert(1 <= d < order);
    // gcd(d, order) = 1: the gcd divides the prime order and is at most d
    lemma_spec_gcd_is_ext(d as nat, order as nat);
    lemma_ext_gcd(d as nat, order as nat);
    let g = ext_gcd(d as nat, order as nat).2;
    if g > 1 {
        vstd::arithmetic::div_mod::lemma_mod_is_zero(d as nat, g);
        assert((order as int) % (g as int) != 0);
        assert(false);
    }
    lemma_small_mod(d as nat, order as nat);
    let x = lemma_prime_inverse_exists(order as int, d as int);
    lemma_small_mod(1, order as nat);
    lemma_measurement_c(k, d, order);
    lemma_recovered_secret_unique(c as int, d as int, order as int, k as int, k2 as int, x);
}

fn compute_c(k: u64, d: u64, order: u64) -> (c: u64)
    requires
        order > 0,
    ensures
        c == measurement_c_spec(k, d, order),
        c < order,
        ((c + k * d) as int) % (order as int) == 0,
{
    assert((k as u128) * (d as u128) <= 0xFFFF_FFFF_FFFF_FFFFu128 * 0xFFFF_FFFF_FFFF_FFFFu128)
        by (nonlinear_arith)
        requires
            k <= 0xFFFF_FFFF_FFFF_FFFFu64,
            d <= 0xFFFF_FFFF_FFFF_FFFFu64,
    ;
    let kd = (k as u128 * d as u128) % order as u128;
    proof {
        lemma_measurement_c(k, d, order);
    }
    if kd == 0 {
        0
    } else {
        (order as u128 - kd) as u64
    }
}

fn deterministic_nonzero_mod(seed: u64, m: u64) -> (r: u64)
    ensures
        r == nonzero_mod_spec(seed, m),
        m > 1 ==> 1 <= r < m,
{
    if m <= 1 {
        return 1;
    }
    let mut z = seed.wrapping_add(0x9e3779b97f4a7c15);
    z = (z ^ (z >> 30)).wrapping_mul(0xbf58476d1ce4e5b9);
    z = (z ^ (z >> 27)).wrapping_mul(0x94d049bb133111eb);
    z ^= z >> 31;
    (z % (m - 1)) + 1
}

} // verus!
