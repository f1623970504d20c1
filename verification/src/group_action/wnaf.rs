//! Width-w non-adjacent form (wNAF) scalar recoding.
use vstd::arithmetic::div_mod::{lemma_fundamental_div_mod, lemma_mod_bound};
use vstd::arithmetic::power2::{lemma_pow2_pos, lemma_pow2_unfold, pow2};
use vstd::prelude::*;

verus! {

/// A single digit in a wNAF representation.
#[derive(Clone, Copy, Debug, PartialEq, Eq, Structural)]
pub enum WnafDigit {
    /// Zero digit: double only, no addition.
    Zero,
    /// Non-zero digit: an odd value in (−2^(w−1), 2^(w−1)).
    NonZero(i32),
}

/// The integer value of a digit.
pub open spec fn digit_value(d: WnafDigit) -> int {
    match d {
        WnafDigit::Zero => 0,
        WnafDigit::NonZero(v) => v as int,
    }
}

/// The integer a digit sequence stands for: Σ dᵢ · 2^i.
pub open spec fn wnaf_value(digits: Seq<WnafDigit>) -> int
    decreases digits.len(),
{
    if digits.len() == 0 {
        0
    } else {
        digit_value(digits[0]) + 2 * wnaf_value(digits.drop_first())
    }
}

/// The signed residue of an odd k modulo 2^w, taken in [−2^(w−1), 2^(w−1)).
pub open spec fn wnaf_digit(k: int, w: nat) -> int {
    let d = k % (pow2(w) as int);
    if d >= pow2((w - 1) as nat) {
        d - pow2(w)
    } else {
        d
    }
}

/// Properties of the signed residue chosen for an odd k.
pub proof fn lemma_wnaf_digit_bounds(k: int, w: nat)
    requires
        k >= 1,
        k % 2 == 1,
        w >= 2,
    ensures
        wnaf_digit(k, w) % 2 != 0,
        -(pow2((w - 1) as nat) as int) <= wnaf_digit(k, w) < pow2((w - 1) as nat),
        (k - wnaf_digit(k, w)) % (pow2(w) as int) == 0,
        0 <= (k - wnaf_digit(k, w)) / 2 < k,
        (k - wnaf_digit(k, w)) % 2 == 0,
{
    let p = pow2(w) as int;
    let h = pow2((w - 1) as nat) as int;
    lemma_pow2_unfold(w);
    lemma_pow2_pos((w - 1) as nat);
    assert(p == 2 * h);
    lemma_fundamental_div_mod(k, p);
    lemma_mod_bound(k, p);
    let d = k % p;
    let q = k / p;
    assert(k == p * q + d);
    assert(q >= 0) by (nonlinear_arith)
        requires
            k == p * q + d,
            0 <= d < p,
            k >= 1,
            p > 0,
    ;
    // d is odd: k = 2(hq) + d with k odd
    assert(k == 2 * (h * q) + d) by (nonlinear_arith)
        requires
            k == p * q + d,
            p == 2 * h,
    ;
    vstd::arithmetic::div_mod::lemma_mod_multiples_vanish(h * q, d, 2);
    assert(d % 2 == 1);
    // h is even since w >= 2
    lemma_pow2_unfold((w - 1) as nat);
    let dd = wnaf_digit(k, w);
    if d >= h {
        assert(dd == d - p);
        assert(d >= h + 1);
        assert((k - dd) == p * (q + 1)) by (nonlinear_arith)
            requires
                k == p * q + d,
                dd == d - p,
        ;
        vstd::arithmetic::div_mod::lemma_mod_multiples_vanish(q + 1, 0, p);
        assert(k - dd == 2 * (h * (q + 1))) by (nonlinear_arith)
            requires
                k - dd == p * (q + 1),
                p == 2 * h,
        ;
        vstd::arithmetic::div_mod::lemma_mod_multiples_vanish(h * (q + 1), 0, 2);
        assert(dd % 2 != 0) by {
            vstd::arithmetic::div_mod::lemma_mod_multiples_vanish(-h, d, 2);
            assert(dd == 2 * (-h) + d);
        }
        assert(k >= d) by (nonlinear_arith)
            requires
                k == p * q + d,
                q >= 0,
                p > 0,
        ;
        assert(0 <= (k - dd) / 2 < k) by (nonlinear_arith)
            requires
                0 <= k - dd < 2 * k,
        ;
    } else {
        assert(dd == d);
        assert((k - dd) == p * q) by (nonlinear_arith)
            requires
                k == p * q + d,
                dd == d,
        ;
        vstd::arithmetic::div_mod::lemma_mod_multiples_vanish(q, 0, p);
        assert(k - dd == 2 * (h * q)) by (nonlinear_arith)
            requires
                k - dd == p * q,
                p == 2 * h,
        ;
        vstd::arithmetic::div_mod::lemma_mod_multiples_vanish(h * q, 0, 2);
        assert(0 <= (k - dd) / 2 < k) by (nonlinear_arith)
            requires
                0 <= k - dd <= k,
                k >= 1,
        ;
    }
}

/// The wNAF digit sequence of k (least significant first), as the recoding
/// loop produces it: an odd k yields its signed residue, an even k a zero.
pub open spec fn wnaf_spec(k: int, w: nat) -> Seq<WnafDigit>
    decreases k,
    when k >= 0 && w >= 2
{
    if k <= 0 {
        Seq::empty()
    } else if k % 2 == 1 {
        let d = wnaf_digit(k, w);
        proof {
            lemma_wnaf_digit_bounds(k, w);
        }
        seq![WnafDigit::NonZero(d as i32)] + wnaf_spec((k - d) / 2, w)
    } else {
        seq![WnafDigit::Zero] + wnaf_spec(k / 2, w)
    }
}

impl WnafDigit {
    /// Check if this digit is zero.
    pub fn is_zero(&self) -> (r: bool)
        ensures
            r <==> *self == WnafDigit::Zero,
    {
        matches!(self, WnafDigit::Zero)
    }

    /// For a non-zero digit, the table index (|d| − 1) / 2 of [|d|]P and
    /// whether the point must be negated. A stored non-zero digit must not be 0.
    pub fn table_index_and_sign(&self) -> (r: Option<(usize, bool)>)
        requires
            *self != WnafDigit::NonZero(0),
        ensures
            *self == WnafDigit::Zero ==> r.is_none(),
            self matches WnafDigit::NonZero(d) ==> r == Some(
                ((((if d < 0 { -(d as int) } else { d as int }) - 1) / 2) as usize, d < 0),
            ),
    {
        match self {
            WnafDigit::Zero => None,
            WnafDigit::NonZero(d) => {
                let abs_d: u32 = if *d < 0 {
                    (-(*d as i64)) as u32
                } else {
                    *d as u32
                };
                let idx = ((abs_d - 1) / 2) as usize;
                Some((idx, *d < 0))
            },
        }
    }
}

/// Compute the width-w NAF of a scalar (w in 2..=62), least significant digit first.
pub fn compute_wnaf(scalar: u64, w: u32) -> (digits: Vec<WnafDigit>)
    requires
        2 <= w <= 62,
    ensures
        digits@ == wnaf_spec(scalar as int, w as nat),
{
    let wm1: u32 = w - 1;
    proof {
        vstd::bits::lemma_u64_pow2_no_overflow(wm1 as nat);
        vstd::bits::lemma_u64_pow2_no_overflow(w as nat);
        vstd::bits::lemma_u64_shl_is_mul(1, wm1 as u64);
        vstd::bits::lemma_u64_shl_is_mul(1, w as u64);
        lemma_pow2_unfold(w as nat);
        vstd::arithmetic::power2::lemma_pow2_strictly_increases(w as nat, 63);
        vstd::arithmetic::power2::lemma2_to64_rest();
    }
    let half_window: i64 = (1u64 << wm1) as i64;
    let full_window: i64 = (1u64 << w) as i64;
    let mut digits: Vec<WnafDigit> = Vec::new();
    let mut k: i128 = scalar as i128;
    while k > 0
        invariant
            2 <= w <= 62,
            half_window == pow2((w - 1) as nat),
            full_window == pow2(w as nat),
            full_window > 0,
            0 <= k <= scalar,
            digits@ + wnaf_spec(k as int, w as nat) == wnaf_spec(scalar as int, w as nat),
        decreases k,
    {
        let ghost k0 = k as int;
        if k % 2 != 0 {
            let mut d = (k % full_window as i128) as i64;
            if d >= half_window {
                d -= full_window;
            }
            proof {
                lemma_wnaf_digit_bounds(k0, w as nat);
                assert(d == wnaf_digit(k0, w as nat));
            }
            digits.push(WnafDigit::NonZero(#[verifier::truncate] (d as i32)));
            k -= d as i128;
            proof {
                assert(wnaf_spec(k0, w as nat) == seq![WnafDigit::NonZero(d as i32)] + wnaf_spec(
                    (k0 - d) / 2,
                    w as nat,
                ));
            }
        } else {
            digits.push(WnafDigit::Zero);
        }
        k = k / 2;
        proof {
            assert(digits@ + wnaf_spec(k as int, w as nat) =~= wnaf_spec(scalar as int, w as nat));
        }
    }
    digits
}

/// Compute the standard NAF (w = 2) of a scalar.
pub fn compute_naf(scalar: u64) -> (digits: Vec<WnafDigit>)
    ensures
        digits@ == wnaf_spec(scalar as int, 2),
{
    compute_wnaf(scalar, 2)
}

/// Number of non-zero digits in a sequence.
pub open spec fn nonzero_count(digits: Seq<WnafDigit>) -> nat
    decreases digits.len(),
{
    if digits.len() == 0 {
        0
    } else {
        (if digits.last() == WnafDigit::Zero { 0nat } else { 1nat }) + nonzero_count(
            digits.drop_last(),
        )
    }
}

/// Count the non-zero digits of a wNAF representation.
pub fn wnaf_nonzero_count(digits: &[WnafDigit]) -> (r: usize)
    ensures
        r == nonzero_count(digits@),
{
    let mut count: usize = 0;
    let mut i: usize = 0;
    while i < digits.len()
        invariant
            i <= digits@.len(),
            count == nonzero_count(digits@.subrange(0, i as int)),
            count <= i,
        decreases digits.len() - i,
    {
        proof {
            assert(digits@.subrange(0, i + 1).drop_last() =~= digits@.subrange(0, i as int));
        }
        if !digits[i].is_zero() {
            count += 1;
        }
        i += 1;
    }
    proof {
        assert(digits@.subrange(0, digits@.len() as int) =~= digits@);
    }
    count
}

/// Number of precomputed points [1]P, [3]P, ..., [2^(w−1) − 1]P for width w.
pub fn wnaf_table_size(w: u32) -> (r: usize)
    requires
        w < 2 || w - 2 < usize::BITS,
    ensures
        w < 2 ==> r == 1,
        w >= 2 ==> r == pow2((w - 2) as nat),
{
    if w < 2 {
        1
    } else {
        proof {
            vstd::bits::lemma_usize_pow2_no_overflow((w - 2) as nat);
            vstd::bits::lemma_usize_shl_is_mul(1, (w - 2) as usize);
        }
        1usize << (w - 2)
    }
}

/// Σ_{i<j} dᵢ · 2^i, accumulated from the least significant digit.
pub open spec fn prefix_value(digits: Seq<WnafDigit>, j: nat) -> int
    decreases j,
{
    if j == 0 {
        0
    } else {
        prefix_value(digits, (j - 1) as nat) + digit_value(digits[j - 1]) * pow2((j - 1) as nat)
    }
}

proof fn lemma_prefix_value_head(s: Seq<WnafDigit>, j: nat)
    requires
        1 <= j <= s.len(),
    ensures
        prefix_value(s, j) == digit_value(s[0]) + 2 * prefix_value(s.drop_first(), (j - 1) as nat),
    decreases j,
{
    let t = s.drop_first();
    if j == 1 {
        vstd::arithmetic::power2::lemma2_to64();
        assert(prefix_value(s, 1) == prefix_value(s, 0) + digit_value(s[0]) * pow2(0));
        assert(prefix_value(t, 0) == 0);
    } else {
        lemma_prefix_value_head(s, (j - 1) as nat);
        lemma_pow2_unfold((j - 1) as nat);
        assert(prefix_value(s, j) == prefix_value(s, (j - 1) as nat) + digit_value(s[j - 1]) * pow2(
            (j - 1) as nat,
        ));
        assert(prefix_value(t, (j - 1) as nat) == prefix_value(t, (j - 2) as nat) + digit_value(
            t[j - 2],
        ) * pow2((j - 2) as nat));
        assert(t[j - 2] == s[j - 1]);
        assert(digit_value(s[j - 1]) * pow2((j - 1) as nat) == 2 * (digit_value(t[j - 2]) * pow2(
            (j - 2) as nat,
        ))) by (nonlinear_arith)
            requires
                pow2((j - 1) as nat) == 2 * pow2((j - 2) as nat),
                t[j - 2] == s[j - 1],
        ;
    }
}

/// Accumulating from the least significant digit gives the value of the sequence.
pub proof fn lemma_prefix_value_total(s: Seq<WnafDigit>)
    ensures
        prefix_value(s, s.len()) == wnaf_value(s),
    decreases s.len(),
{
    if s.len() > 0 {
        lemma_prefix_value_head(s, s.len());
        lemma_prefix_value_total(s.drop_first());
    }
}

/// wNAF recoding is lossless, and its non-zero digits are odd and bounded by
/// 2^(w−1) in absolute value (for widths that fit an i32 digit).
/// A positive multiple of 2^m starts its wNAF with m zero digits.
proof fn lemma_wnaf_low_zeros(k: int, w: nat, m: nat)
    requires
        k > 0,
        w >= 2,
        k % (pow2(m) as int) == 0,
    ensures
        forall|i: int| 0 <= i < m && i < wnaf_spec(k, w).len() ==> #[trigger] wnaf_spec(k, w)[i] == WnafDigit::Zero,
    decreases m,
{
    if m > 0 {
        let m1 = (m - 1) as nat;
        lemma_pow2_unfold(m);
        lemma_pow2_pos(m1);
        let h = pow2(m1) as int;
        lemma_fundamental_div_mod(k, 2 * h);
        let q = k / (2 * h);
        assert(k == 2 * (h * q)) by (nonlinear_arith)
            requires
                k == 2 * h * q + 0,
        ;
        vstd::arithmetic::div_mod::lemma_mod_multiples_vanish(h * q, 0, 2);
        assert(k % 2 == 0);
        assert(k / 2 == h * q);
        vstd::arithmetic::div_mod::lemma_mod_multiples_vanish(q, 0, h);
        assert(h * q == h * q + 0);
        assert((k / 2) % h == 0);
        assert(k / 2 > 0);
        lemma_wnaf_low_zeros(k / 2, w, m1);
        let s = wnaf_spec(k, w);
        let rest = wnaf_spec(k / 2, w);
        assert(s == seq![WnafDigit::Zero] + rest);
        assert forall|i: int| 0 <= i < m && i < s.len() implies #[trigger] s[i] == WnafDigit::Zero by {
            if i > 0 {
                assert(s[i] == rest[i - 1]);
            }
        }
    }
}

/// Non-adjacency: after a non-zero wNAF digit the next w − 1 digits are
/// zero, so any w consecutive digits hold at most one non-zero digit.
pub proof fn lemma_wnaf_non_adjacent(k: int, w: nat)
    requires
        k >= 0,
        w >= 2,
    ensures
        forall|i: int, j: int|
            0 <= i < j < wnaf_spec(k, w).len() && j < i + w && #[trigger] wnaf_spec(k, w)[i]
                != WnafDigit::Zero ==> #[trigger] wnaf_spec(k, w)[j] == WnafDigit::Zero,
    decreases k,
{
    if k > 0 {
        let s = wnaf_spec(k, w);
        if k % 2 == 1 {
            let d = wnaf_digit(k, w);
            lemma_wnaf_digit_bounds(k, w);
            let m = (k - d) / 2;
            lemma_wnaf_non_adjacent(m, w);
            let rest = wnaf_spec(m, w);
            assert(s == seq![WnafDigit::NonZero(d as i32)] + rest);
            // m is a multiple of 2^(w−1)
            let w1 = (w - 1) as nat;
            lemma_pow2_unfold(w);
            lemma_pow2_pos(w1);
            let h = pow2(w1) as int;
            lemma_fundamental_div_mod(k - d, 2 * h);
            let q = (k - d) / (2 * h);
            assert(k - d == 2 * (h * q)) by (nonlinear_arith)
                requires
                    k - d == 2 * h * q + 0,
            ;
            assert(m == h * q);
            if m > 0 {
                vstd::arithmetic::div_mod::lemma_mod_multiples_vanish(q, 0, h);
                assert(h * q == h * q + 0);
                lemma_wnaf_low_zeros(m, w, w1);
            }
            assert forall|i: int, j: int|
                0 <= i < j < s.len() && j < i + w && #[trigger] s[i] != WnafDigit::Zero implies #[trigger] s[j]
                    == WnafDigit::Zero by {
                assert(s[j] == rest[j - 1]);
                if i > 0 {
                    assert(s[i] == rest[i - 1]);
                }
            }
        } else {
            lemma_wnaf_non_adjacent(k / 2, w);
            let rest = wnaf_spec(k / 2, w);
            assert(s == seq![WnafDigit::Zero] + rest);
            assert forall|i: int, j: int|
                0 <= i < j < s.len() && j < i + w && #[trigger] s[i] != WnafDigit::Zero implies #[trigger] s[j]
                    == WnafDigit::Zero by {
                assert(s[j] == rest[j - 1]);
                assert(s[i] == rest[i - 1]);
            }
        }
    }
}

pub proof fn lemma_wnaf_roundtrip(k: int, w: nat)
    requires
        k >= 0,
        2 <= w <= 32,
    ensures
        wnaf_value(wnaf_spec(k, w)) == k,
        forall|i: int|
            0 <= i < wnaf_spec(k, w).len() ==> (#[trigger] wnaf_spec(k, w)[i] matches WnafDigit::NonZero(
                v,
            ) ==> v % 2 != 0 && -(pow2((w - 1) as nat) as int) <= v < pow2((w - 1) as nat)),
    decreases k,
{
    if k <= 0 {
    } else {
        if w - 1 < 31 {
            vstd::arithmetic::power2::lemma_pow2_strictly_increases((w - 1) as nat, 31);
        }
        vstd::arithmetic::power2::lemma2_to64();
        if k % 2 == 1 {
            let d = wnaf_digit(k, w);
            lemma_wnaf_digit_bounds(k, w);
            lemma_wnaf_roundtrip((k - d) / 2, w);
            let rest = wnaf_spec((k - d) / 2, w);
            let s = wnaf_spec(k, w);
            assert(s == seq![WnafDigit::NonZero(d as i32)] + rest);
            assert(s.drop_first() =~= rest);
            assert((d as i32) as int == d);
            assert forall|i: int| 0 <= i < s.len() implies (#[trigger] s[i] matches WnafDigit::NonZero(v)
                ==> v % 2 != 0 && -(pow2((w - 1) as nat) as int) <= v < pow2((w - 1) as nat)) by {
                if i > 0 {
                    assert(s[i] == rest[i - 1]);
                }
            }
        } else {
            lemma_wnaf_roundtrip(k / 2, w);
            let rest = wnaf_spec(k / 2, w);
            let s = wnaf_spec(k, w);
            assert(s.drop_first() =~= rest);
            assert forall|i: int| 0 <= i < s.len() implies (#[trigger] s[i] matches WnafDigit::NonZero(v)
                ==> v % 2 != 0 && -(pow2((w - 1) as nat) as int) <= v < pow2((w - 1) as nat)) by {
                if i > 0 {
                    assert(s[i] == rest[i - 1]);
                }
            }
        }
    }
}

/// Reconstruct the scalar Σ dᵢ · 2^i (mod 2^64) from a wNAF representation.
/// Every term and every partial sum must fit in an i128.
pub fn wnaf_to_scalar(digits: &[WnafDigit]) -> (r: u64)
    requires
        digits@.len() <= 128,
        forall|i: int|
            0 <= i < digits@.len() ==> ({
                let v = digit_value(#[trigger] digits@[i]);
                -(i128::MAX as int) <= v * pow2(i as nat) <= i128::MAX
            }),
        forall|j: int|
            0 <= j <= digits@.len() ==> -(i128::MAX as int) <= #[trigger] prefix_value(
                digits@,
                j as nat,
            ) <= i128::MAX,
    ensures
        r == #[verifier::truncate] (wnaf_value(digits@) as u64),
{
    let mut value: i128 = 0;
    let mut i: usize = 0;
    let n = digits.len();
    // pow tracks 2^i while that fits in an i128.
    let mut pow: i128 = 1;
    proof {
        vstd::arithmetic::power2::lemma2_to64();
        vstd::arithmetic::power2::lemma2_to64_rest();
        vstd::arithmetic::power2::lemma_pow2_adds(63, 63);
        vstd::arithmetic::power2::lemma_pow2_adds(63, 64);
    }
    while i < n
        invariant
            n == digits@.len(),
            n <= 128,
            i <= n,
            i <= 126 ==> pow == pow2(i as nat),
            pow2(126) == 0x4000_0000_0000_0000_0000_0000_0000_0000,
            pow2(127) == 0x8000_0000_0000_0000_0000_0000_0000_0000,
            value as int == prefix_value(digits@, i as nat),
            forall|i: int|
                0 <= i < digits@.len() ==> ({
                    let v = digit_value(#[trigger] digits@[i]);
                    -(i128::MAX as int) <= v * pow2(i as nat) <= i128::MAX
                }),
            forall|j: int|
                0 <= j <= digits@.len() ==> -(i128::MAX as int) <= #[trigger] prefix_value(
                    digits@,
                    j as nat,
                ) <= i128::MAX,
        decreases n - i,
    {
        if let WnafDigit::NonZero(d) = digits[i] {
            assert(digit_value(digits@[i as int]) == d as int);
            if d != 0 {
                // |d| · 2^i fits, so 2^i does too: i is at most 126.
                proof {
                    assert(pow2(i as nat) <= i128::MAX) by (nonlinear_arith)
                        requires
                            -(i128::MAX as int) <= d * pow2(i as nat) <= i128::MAX,
                            d != 0,
                            pow2(i as nat) >= 0,
                    ;
                    if i > 127 {
                        vstd::arithmetic::power2::lemma_pow2_strictly_increases(127, i as nat);
                    }
                }
                let term: i128 = (d as i128) * pow;
                assert(prefix_value(digits@, (i + 1) as nat) == prefix_value(digits@, i as nat)
                    + digit_value(digits@[i as int]) * pow2(i as nat));
                value = value + term;
            }
        }
        proof {
            assert(prefix_value(digits@, (i + 1) as nat) == prefix_value(digits@, i as nat)
                + digit_value(digits@[i as int]) * pow2(i as nat));
        }
        if i < 126 {
            proof {
                lemma_pow2_unfold((i + 1) as nat);
                if i + 1 < 126 {
                    vstd::arithmetic::power2::lemma_pow2_strictly_increases((i + 1) as nat, 126);
                }
            }
            pow = pow * 2;
        }
        i += 1;
    }
    proof {
        lemma_prefix_value_total(digits@);
    }
    #[verifier::truncate] (value as u64)
}

/// A scalar at most 2^j with j < w recodes into at most j + 1 digits.
proof fn lemma_wnaf_len_small(k: int, w: nat, j: nat)
    requires
        2 <= w,
        0 <= k <= pow2(j),
        j + 1 <= w,
    ensures
        wnaf_spec(k, w).len() <= j + 1,
    decreases k,
{
    if k > 0 {
        lemma_pow2_pos(j);
        vstd::arithmetic::power2::lemma2_to64();
        if k % 2 == 1 {
            if j >= 1 {
                lemma_pow2_unfold(j);
            }
            if j + 1 < w {
                vstd::arithmetic::power2::lemma_pow2_strictly_increases(j, (w - 1) as nat);
            }
            lemma_pow2_unfold((w - 1) as nat);
            lemma_pow2_unfold(w);
            assert(k < pow2((w - 1) as nat));
            vstd::arithmetic::div_mod::lemma_small_mod(k as nat, pow2(w));
            assert(wnaf_digit(k, w) == k);
            assert(wnaf_spec(0, w).len() == 0);
        } else {
            lemma_pow2_unfold(j);
            lemma_wnaf_len_small(k / 2, w, (j - 1) as nat);
        }
    }
}

/// A scalar below 2^L + 2^(w−1) recodes into at most L + w digits.
proof fn lemma_wnaf_len(k: int, w: nat, l: nat)
    requires
        2 <= w,
        0 <= k < pow2(l) + pow2((w - 1) as nat),
    ensures
        wnaf_spec(k, w).len() <= l + w,
    decreases l,
{
    if l == 0 {
        vstd::arithmetic::power2::lemma2_to64();
        lemma_wnaf_len_small(k, w, (w - 1) as nat);
    } else if k > 0 {
        lemma_pow2_unfold(l);
        lemma_pow2_unfold((w - 1) as nat);
        if k % 2 == 1 {
            let d = wnaf_digit(k, w);
            lemma_wnaf_digit_bounds(k, w);
            lemma_wnaf_len((k - d) / 2, w, (l - 1) as nat);
        } else {
            lemma_wnaf_len(k / 2, w, (l - 1) as nat);
        }
    }
}

/// Partial sums of digits bounded by b stay within b · (2^j − 1).
proof fn lemma_prefix_bound(s: Seq<WnafDigit>, j: nat, b: int)
    requires
        j <= s.len(),
        b >= 0,
        forall|i: int| 0 <= i < s.len() ==> -b <= #[trigger] digit_value(s[i]) <= b,
    ensures
        -b * (pow2(j) - 1) <= prefix_value(s, j) <= b * (pow2(j) - 1),
    decreases j,
{
    lemma_pow2_pos(j);
    if j == 0 {
        vstd::arithmetic::power2::lemma2_to64();
    } else {
        let j1 = (j - 1) as nat;
        lemma_prefix_bound(s, j1, b);
        lemma_pow2_unfold(j);
        lemma_pow2_pos(j1);
        let d = digit_value(s[j1 as int]);
        let p = pow2(j1) as int;
        let q = prefix_value(s, j1);
        assert(-b * p <= d * p <= b * p) by (nonlinear_arith)
            requires
                -b <= d <= b,
                p >= 0,
        ;
        assert(-b * (2 * p - 1) <= q + d * p <= b * (2 * p - 1)) by (nonlinear_arith)
            requires
                -b * (p - 1) <= q <= b * (p - 1),
                -b * p <= d * p <= b * p,
        ;
    }
}

/// The recoding of a 64-bit scalar with a window of at most 32 bits meets
/// what the decoder asks (at most 128 digits; every term and partial sum
/// within an i128) and stands for the scalar itself.
pub proof fn lemma_wnaf_decodable(k: u64, w: nat)
    requires
        2 <= w <= 32,
    ensures
        ({
            let s = wnaf_spec(k as int, w);
            &&& s.len() <= 128
            &&& forall|i: int|
                0 <= i < s.len() ==> ({
                    let v = digit_value(#[trigger] s[i]);
                    -(i128::MAX as int) <= v * pow2(i as nat) <= i128::MAX
                })
            &&& forall|j: int| 0 <= j <= s.len() ==> -(i128::MAX as int) <= #[trigger] prefix_value(s, j as nat) <= i128::MAX
            &&& wnaf_value(s) == k
        }),
{
    let s = wnaf_spec(k as int, w);
    vstd::arithmetic::power2::lemma2_to64();
    vstd::arithmetic::power2::lemma2_to64_rest();
    lemma_pow2_pos((w - 1) as nat);
    lemma_wnaf_len(k as int, w, 64);
    lemma_wnaf_roundtrip(k as int, w);
    let b = pow2(31) as int;
    if w - 1 < 31 {
        vstd::arithmetic::power2::lemma_pow2_strictly_increases((w - 1) as nat, 31);
    }
    assert forall|i: int| 0 <= i < s.len() implies -b <= #[trigger] digit_value(s[i]) <= b by {
        if s[i] matches WnafDigit::NonZero(v) {
        } else {
        }
    }
    vstd::arithmetic::power2::lemma_pow2_adds(31, 96);
    vstd::arithmetic::power2::lemma_pow2_adds(64, 63);
    assert(pow2(127) == 0x8000_0000_0000_0000_0000_0000_0000_0000);
    assert forall|i: int| 0 <= i < s.len() implies ({
        let v = digit_value(#[trigger] s[i]);
        -(i128::MAX as int) <= v * pow2(i as nat) <= i128::MAX
    }) by {
        let v = digit_value(s[i]);
        if i < 96 {
            vstd::arithmetic::power2::lemma_pow2_strictly_increases(i as nat, 96);
        }
        let pi = pow2(i as nat) as int;
        assert(-b * pi <= v * pi <= b * pi) by (nonlinear_arith)
            requires
                -b <= v <= b,
                pi >= 0,
        ;
        assert(b * pi <= b * pow2(96)) by (nonlinear_arith)
            requires
                b >= 0,
                0 <= pi <= pow2(96),
        ;
    }
    assert forall|j: int| 0 <= j <= s.len() implies -(i128::MAX as int) <= #[trigger] prefix_value(s, j as nat)
        <= i128::MAX by {
        lemma_prefix_bound(s, j as nat, b);
        if j < 96 {
            vstd::arithmetic::power2::lemma_pow2_strictly_increases(j as nat, 96);
        }
        lemma_pow2_pos(j as nat);
        let pj = pow2(j as nat) as int;
        assert(b * (pj - 1) <= b * pow2(96)) by (nonlinear_arith)
            requires
                b >= 0,
                1 <= pj <= pow2(96),
        ;
    }
}

} // verus!
