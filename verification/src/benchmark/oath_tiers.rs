//! The Oath-N benchmark tiers.
use crate::ec::curve::{AffinePoint, CurveParams};
use crate::field::constants::GOLDILOCKS_PRIME;
use crate::field::goldilocks::{gp, GoldilocksField};
use vstd::prelude::*;
use vstd::string::StringExecFns;

verus! {

/// An Oath-N benchmark tier: an ECDLP instance at a given difficulty.
#[derive(Clone, Debug)]
pub struct OathTier {
    /// Tier name (e.g., "Oath-8", "Oath-64").
    pub name: String,
    /// Field size in bits.
    pub field_bits: usize,
    /// Estimated logical qubits for the group-action circuit.
    pub estimated_qubits: usize,
    /// Estimated Toffoli gates.
    pub estimated_toffoli: usize,
    /// Classical difficulty description.
    pub classical_difficulty: String,
    /// Target hardware era.
    pub target_era: String,
}

/// The tier has the given fields.
pub open spec fn is_tier(
    t: OathTier,
    name: Seq<char>,
    field_bits: usize,
    qubits: usize,
    toffoli: usize,
    difficulty: Seq<char>,
    era: Seq<char>,
) -> bool {
    &&& t.name@ == name
    &&& t.field_bits == field_bits
    &&& t.estimated_qubits == qubits
    &&& t.estimated_toffoli == toffoli
    &&& t.classical_difficulty@ == difficulty
    &&& t.target_era@ == era
}

fn tier(name: &str, field_bits: usize, qubits: usize, toffoli: usize, difficulty: &str, era: &str) -> (r: OathTier)
    ensures
        is_tier(r, name@, field_bits, qubits, toffoli, difficulty@, era@),
{
    OathTier {
        name: String::from_str(name),
        field_bits,
        estimated_qubits: qubits,
        estimated_toffoli: toffoli,
        classical_difficulty: String::from_str(difficulty),
        target_era: String::from_str(era),
    }
}

/// The defined Oath-N benchmark tiers (Jacobian circuit estimates).
pub fn oath_tiers() -> (r: Vec<OathTier>)
    ensures
        r@.len() == 4,
        is_tier(r@[0], "Oath-8"@, 8, 35, 8_000, "Trivial (by hand)"@, "2026-2027"@),
        is_tier(r@[1], "Oath-16"@, 16, 100, 120_000, "Trivial (milliseconds)"@, "2027-2028"@),
        is_tier(r@[2], "Oath-32"@, 32, 280, 3_000_000, "Easy (~seconds)"@, "2029-2031"@),
        is_tier(r@[3], "Oath-64"@, 64, 700, 17_000_000, "Moderate (~hours via Pollard rho)"@, "2032-2035"@),
{
    let mut v: Vec<OathTier> = Vec::new();
    v.push(tier("Oath-8", 8, 35, 8_000, "Trivial (by hand)", "2026-2027"));
    v.push(tier("Oath-16", 16, 100, 120_000, "Trivial (milliseconds)", "2027-2028"));
    v.push(tier("Oath-32", 32, 280, 3_000_000, "Easy (~seconds)", "2029-2031"));
    v.push(tier("Oath-64", 64, 700, 17_000_000, "Moderate (~hours via Pollard rho)", "2032-2035"));
    v
}

/// The window size for a field size: it divides the field width; larger
/// windows mean fewer iterations but exponentially larger tables.
pub fn window_for_field(field_bits: usize) -> (r: usize)
    ensures
        r == if field_bits == 32 || field_bits == 64 {
            8usize
        } else {
            4usize
        },
{
    match field_bits {
        8 => 4,
        16 => 4,
        32 => 8,
        64 => 8,
        _ => 4,
    }
}

/// The full group order of Oath-64, 18446744077729562113; it exceeds
/// `u64::MAX`.
pub const OATH64_ORDER_FULL: u128 = 18_446_744_077_729_562_113;

/// The built-in Oath-64 parameters, used when no parameter file is found:
/// y² = x³ + x + 38 over the Goldilocks field with generator
/// (1, 4519977769586765578).  The order is stored modulo 2^64, since the
/// true order does not fit; circuit construction reads only the field width.
pub fn hardcoded_oath64() -> (r: CurveParams)
    ensures
        r.a@ == 1,
        r.b@ == 38,
        r.order as int == OATH64_ORDER_FULL % 0x1_0000_0000_0000_0000,
        r.order == 4_020_010_497,
        r.generator@ == Some((1int, 4_519_977_769_586_765_578int)),
        r.field_bits == 64,
        r.prime_modulus == GOLDILOCKS_PRIME,
{
    let order = (OATH64_ORDER_FULL % 0x1_0000_0000_0000_0000u128) as u64;
    let a = GoldilocksField::new(1);
    let b = GoldilocksField::new(38);
    let gx = GoldilocksField::new(1);
    let gy = GoldilocksField::new(4_519_977_769_586_765_578);
    proof {
        vstd::arithmetic::div_mod::lemma_small_mod(1, gp() as nat);
        vstd::arithmetic::div_mod::lemma_small_mod(38, gp() as nat);
        vstd::arithmetic::div_mod::lemma_small_mod(4_519_977_769_586_765_578, gp() as nat);
    }
    CurveParams {
        a,
        b,
        order,
        generator: AffinePoint::new(gx, gy),
        field_bits: 64,
        prime_modulus: GOLDILOCKS_PRIME,
    }
}

/// The windows a sweep tries for an n-bit field: the divisors w of n with
/// w ≤ 8, ascending.
pub open spec fn sweep_window_seq(n: int, upto: int) -> Seq<usize>
    decreases upto,
{
    if upto <= 0 {
        Seq::empty()
    } else if n % upto == 0 && upto <= 8 {
        sweep_window_seq(n, upto - 1).push(upto as usize)
    } else {
        sweep_window_seq(n, upto - 1)
    }
}

/// The windows a sweep tries for an n-bit field: the divisors w of n with
/// w ≤ 8, ascending.
pub fn sweep_windows(n: usize) -> (r: Vec<usize>)
    ensures
        r@ == sweep_window_seq(n as int, n as int),
{
    let mut r: Vec<usize> = Vec::new();
    let mut w: usize = 0;
    while w < n
        invariant
            w <= n,
            r@ == sweep_window_seq(n as int, w as int),
        decreases n - w,
    {
        let c = w + 1;
        if n % c == 0 && c <= 8 {
            r.push(c);
        }
        w = c;
    }
    r
}

/// The position of the first smallest count: the configuration a sweep
/// keeps, as later ones replace it only when strictly smaller.
pub fn fewest_toffoli(counts: &Vec<usize>) -> (r: Option<usize>)
    ensures
        counts@.len() == 0 <==> r is None,
        r matches Some(i) ==> i < counts@.len() && (forall|j: int| 0 <= j < counts@.len() ==> counts@[i as int]
            <= #[trigger] counts@[j]) && (forall|j: int| 0 <= j < i ==> counts@[i as int] < #[trigger] counts@[j]),
{
    if counts.len() == 0 {
        return None;
    }
    let mut best: usize = 0;
    let mut k: usize = 1;
    while k < counts.len()
        invariant
            1 <= k <= counts@.len(),
            best < k,
            forall|j: int| 0 <= j < k ==> counts@[best as int] <= #[trigger] counts@[j],
            forall|j: int| 0 <= j < best ==> counts@[best as int] < #[trigger] counts@[j],
        decreases counts@.len() - k,
    {
        if counts[k] < counts[best] {
            best = k;
        }
        k = k + 1;
    }
    Some(best)
}

} // verus!
