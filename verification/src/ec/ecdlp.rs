//! Classical solvers of the elliptic-curve discrete logarithm: given G and
//! Q = [k]G, find k.
use crate::ec::curve::{lemma_affine_view_eq, AffinePoint, CurveParams};
use crate::ec::ec_spec::{ec_add, ec_repeated_add, ec_scalar_mul, SpecPoint};
use crate::ec::point_ops::{point_add, scalar_mul};
use crate::field::goldilocks::gp;
use crate::group_action::continued_fraction::{mod_inverse, mod_inverse_spec_ok, spec_gcd};
use vstd::prelude::*;

verus! {

/// Solve the ECDLP by brute force: compare [0]G, [1]G, … with the target,
/// up to `min(max_iterations, order)` candidates.
pub fn brute_force(generator: &AffinePoint, target: &AffinePoint, curve: &CurveParams, max_iterations: u64) -> (r:
    Option<u64>)
    ensures
        ({
            let lim = if max_iterations < curve.order {
                max_iterations
            } else {
                curve.order
            };
            match r {
                Some(k) => {
                    &&& k < lim
                    &&& ec_repeated_add(k as nat, generator@, curve.a@, gp()) == target@
                    &&& forall|j: nat| j < k ==> ec_repeated_add(j, generator@, curve.a@, gp()) != target@
                },
                None => forall|j: nat| j < lim ==> ec_repeated_add(j, generator@, curve.a@, gp()) != target@,
            }
        }),
{
    let lim = if max_iterations < curve.order {
        max_iterations
    } else {
        curve.order
    };
    let mut current = AffinePoint::Infinity;
    let mut k: u64 = 0;
    while k < lim
        invariant
            k <= lim,
            lim == if max_iterations < curve.order {
                max_iterations
            } else {
                curve.order
            },
            current@ == ec_repeated_add(k as nat, generator@, curve.a@, gp()),
            forall|j: nat| j < k ==> ec_repeated_add(j, generator@, curve.a@, gp()) != target@,
        decreases lim - k,
    {
        proof {
            lemma_affine_view_eq(current, *target);
        }
        if current == *target {
            assert(current@ == target@);
            return Some(k);
        }
        current = point_add(&current, generator, curve);
        k = k + 1;
    }
    None
}

/// `m` is the least integer with m² ≥ n.
pub open spec fn is_ceil_sqrt(n: int, m: int) -> bool {
    &&& m >= 0
    &&& m * m >= n
    &&& (m == 0 || (m - 1) * (m - 1) < n)
}

/// The least m with m² ≥ n, by bisection.
fn ceil_sqrt(n: u64) -> (m: u64)
    ensures
        is_ceil_sqrt(n as int, m as int),
        m <= 0x1_0000_0000,
{
    if n == 0 {
        return 0;
    }
    let mut lo: u64 = 0;
    let mut hi: u64 = 0x1_0000_0000;
    assert(hi * hi >= n) by (nonlinear_arith)
        requires
            hi == 0x1_0000_0000u64,
            n <= u64::MAX,
    ;
    while hi - lo > 1
        invariant
            lo < hi <= 0x1_0000_0000,
            lo * lo < n,
            hi * hi >= n,
        decreases hi - lo,
    {
        let mid = lo + (hi - lo) / 2;
        assert(mid * mid <= 0x1_0000_0000 * 0x1_0000_0000) by (nonlinear_arith)
            requires
                mid <= 0x1_0000_0000,
        ;
        if (mid as u128) * (mid as u128) >= n as u128 {
            hi = mid;
        } else {
            lo = mid;
        }
    }
    assert(hi - 1 == lo);
    hi
}

/// The giant steps Q, Q + S, Q + 2S, … with step S.
pub open spec fn giant_step(q: SpecPoint, s: SpecPoint, i: nat, a: int) -> SpecPoint
    decreases i,
{
    if i == 0 {
        q
    } else {
        ec_add(giant_step(q, s, (i - 1) as nat, a), s, a, gp())
    }
}

/// The outcome of baby-step giant-step with m steps each: baby step j is
/// [j]G (by repeated addition), giant step i is Q + i·[n − m]G.  The first
/// giant step that meets a baby step, with the last such baby step, gives
/// k = (i·m + j) mod n; `None` when no giant step meets a baby step.
pub open spec fn bsgs_outcome(r: Option<u64>, g: SpecPoint, q: SpecPoint, a: int, n: int, m: int) -> bool {
    let s = ec_scalar_mul((n - m) as nat, g, a, gp());
    match r {
        None => forall|i: int, j: int|
            0 <= i < m && 0 <= j < m ==> #[trigger] baby_step(g, j, a) != #[trigger] giant_step(q, s, i as nat, a),
        Some(k) => exists|i: int, j: int|
            {
                &&& 0 <= i < m
                &&& 0 <= j < m
                &&& #[trigger] baby_step(g, j, a) == #[trigger] giant_step(q, s, i as nat, a)
                &&& (forall|i2: int, j2: int|
                    0 <= i2 < i && 0 <= j2 < m ==> #[trigger] baby_step(g, j2, a) != #[trigger] giant_step(
                        q,
                        s,
                        i2 as nat,
                        a,
                    ))
                &&& (forall|j2: int| j < j2 < m ==> #[trigger] baby_step(g, j2, a) != giant_step(q, s, i as nat, a))
                &&& k == (i * m + j) % n
            },
    }
}

/// Baby step j: [j]G by repeated addition.
pub open spec fn baby_step(g: SpecPoint, j: int, a: int) -> SpecPoint {
    ec_repeated_add(j as nat, g, a, gp())
}

/// Solve the ECDLP via baby-step giant-step with m = ⌈√n⌉ steps each.
pub fn baby_step_giant_step(generator: &AffinePoint, target: &AffinePoint, curve: &CurveParams) -> (r: Option<
    u64,
>)
    ensures
        forall|m: int|
            is_ceil_sqrt(curve.order as int, m) ==> bsgs_outcome(
                r,
                generator@,
                target@,
                curve.a@,
                curve.order as int,
                m,
            ),
{
    let n = curve.order;
    let m = ceil_sqrt(n);
    proof {
        assert forall|m2: int| is_ceil_sqrt(n as int, m2) implies m2 == m by {
            if m2 < m {
                assert(m2 * m2 <= (m - 1) * (m - 1)) by (nonlinear_arith)
                    requires
                        0 <= m2 < m,
                ;
            } else if m2 > m {
                assert(m * m <= (m2 - 1) * (m2 - 1)) by (nonlinear_arith)
                    requires
                        0 <= m < m2,
                ;
            }
        }
        if n > 0 {
            assert(m <= n) by (nonlinear_arith)
                requires
                    m >= 1,
                    (m - 1) * (m - 1) < n,
            ;
        }
    }
    let mut baby_steps: Vec<AffinePoint> = Vec::new();
    let mut current = AffinePoint::Infinity;
    let mut j: u64 = 0;
    while j < m
        invariant
            j <= m,
            baby_steps@.len() == j,
            forall|t: int| 0 <= t < j ==> (#[trigger] baby_steps@[t])@ == baby_step(generator@, t, curve.a@),
            current@ == baby_step(generator@, j as int, curve.a@),
        decreases m - j,
    {
        baby_steps.push(current);
        current = point_add(&current, generator, curve);
        j = j + 1;
    }
    let neg_mg = scalar_mul(n - m, generator, curve);
    let ghost s = ec_scalar_mul((n - m) as nat, generator@, curve.a@, gp());
    bsgs_search(&baby_steps, target, &neg_mg, curve, m, Ghost(generator@), Ghost(s))

}

/// The giant steps of baby-step giant-step against the stored baby steps.
#[verifier::rlimit(60)]
fn bsgs_search(
    baby_steps: &Vec<AffinePoint>,
    target: &AffinePoint,
    neg_mg: &AffinePoint,
    curve: &CurveParams,
    m: u64,
    Ghost(g): Ghost<SpecPoint>,
    Ghost(s): Ghost<SpecPoint>,
) -> (r: Option<u64>)
    requires
        m <= 0x1_0000_0000,
        curve.order > 0 || m == 0,
        s == ec_scalar_mul((curve.order - m) as nat, g, curve.a@, gp()),
        neg_mg@ == s,
        baby_steps@.len() == m,
        forall|t: int| 0 <= t < m ==> (#[trigger] baby_steps@[t])@ == baby_step(g, t, curve.a@),
    ensures
        bsgs_outcome(r, g, target@, curve.a@, curve.order as int, m as int),
{
    let n = curve.order;
    let mut gamma = *target;
    let mut i: u64 = 0;
    while i < m
        invariant
            i <= m,
            m <= 0x1_0000_0000,
            n == curve.order,
            n > 0 || m == 0,
            s == ec_scalar_mul((n - m) as nat, g, curve.a@, gp()),
            neg_mg@ == s,
            baby_steps@.len() == m,
            forall|t: int| 0 <= t < m ==> (#[trigger] baby_steps@[t])@ == baby_step(g, t, curve.a@),
            gamma@ == giant_step(target@, s, i as nat, curve.a@),
            forall|i2: int, j2: int|
                0 <= i2 < i && 0 <= j2 < m ==> #[trigger] baby_step(g, j2, curve.a@) != #[trigger] giant_step(
                    target@,
                    s,
                    i2 as nat,
                    curve.a@,
                ),
        decreases m - i,
    {
        match find_last(&baby_steps, &gamma) {
            Some(t) => {
                assert(i * m + t <= (m - 1) * m + (m - 1)) by (nonlinear_arith)
                    requires
                        i < m,
                        t < m,
                ;
                assert((m - 1) * m + (m - 1) < 0x1_0000_0000 * 0x1_0000_0000) by (nonlinear_arith)
                    requires
                        1 <= m <= 0x1_0000_0000,
                ;
                let k = (i * m + t) % n;
                proof {
                    lemma_affine_view_eq(baby_steps@[t as int], gamma);
                    assert(baby_step(g, t as int, curve.a@) == giant_step(target@, s, i as nat, curve.a@));
                    assert forall|j2: int| t < j2 < m implies #[trigger] baby_step(g, j2, curve.a@)
                        != giant_step(target@, s, i as nat, curve.a@) by {
                        lemma_affine_view_eq(baby_steps@[j2], gamma);
                    }
                    assert(k == ((i as int) * m + (t as int)) % (n as int));
                    let ii = i as int;
                    let tt = t as int;
                    assert(0 <= ii < m && 0 <= tt < m && baby_step(g, tt, curve.a@) == giant_step(target@, s, ii as nat, curve.a@));
                }
                return Some(k);
            },
            None => {
                proof {
                    assert forall|j2: int| 0 <= j2 < m implies #[trigger] baby_step(g, j2, curve.a@)
                        != giant_step(target@, s, i as nat, curve.a@) by {
                        lemma_affine_view_eq(baby_steps@[j2], gamma);
                    }
                }
            },
        }
        gamma = point_add(&gamma, &neg_mg, curve);
        i = i + 1;
    }
    None
}

/// The last position of `p` in `v`, if any.
fn find_last(v: &Vec<AffinePoint>, p: &AffinePoint) -> (r: Option<u64>)
    requires
        v@.len() <= u64::MAX,
    ensures
        match r {
            Some(t) => t < v@.len() && v@[t as int] == *p && forall|t2: int| t < t2 < v@.len() ==> v@[t2] != *p,
            None => forall|t: int| 0 <= t < v@.len() ==> v@[t] != *p,
        },
{
    let mut j: usize = v.len();
    while j > 0
        invariant
            j <= v@.len(),
            forall|t2: int| j <= t2 < v@.len() ==> v@[t2] != *p,
        decreases j,
    {
        if v[j - 1] == *p {
            return Some((j - 1) as u64);
        }
        j = j - 1;
    }
    None
}

/// The least m with m² ≥ n.
pub open spec fn ceil_sqrt_spec(n: int) -> int {
    choose|m: int| is_ceil_sqrt(n, m)
}

/// is_ceil_sqrt has exactly one solution for n ≥ 0.
proof fn lemma_ceil_sqrt_unique(n: int, m: int)
    requires
        n >= 0,
        is_ceil_sqrt(n, m),
    ensures
        ceil_sqrt_spec(n) == m,
{
    let m2 = ceil_sqrt_spec(n);
    assert(is_ceil_sqrt(n, m2));
    if m2 < m {
        assert(m2 * m2 <= (m - 1) * (m - 1)) by (nonlinear_arith)
            requires
                0 <= m2 <= m - 1,
        ;
    } else if m < m2 {
        assert(m * m <= (m2 - 1) * (m2 - 1)) by (nonlinear_arith)
            requires
                0 <= m <= m2 - 1,
        ;
    }
}

/// The number of walk iterations that Pollard's rho tries: 4⌈√n⌉ + 1000.
pub open spec fn rho_limit(n: int) -> int {
    4 * ceil_sqrt_spec(n) + 1000
}

/// The partition of a walk point: x mod 3 for a finite point, 0 at infinity.
pub open spec fn rho_partition(r: SpecPoint) -> int {
    match r {
        None => 0,
        Some((x, _)) => x % 3,
    }
}

/// One step of the walk on (R, a, b) with R = [a]G + [b]Q: add Q
/// (b + 1), double (2a, 2b) or add G (a + 1) by the partition of R,
/// coefficients mod n.
#[verifier::opaque]
pub open spec fn rho_step_spec(st: (SpecPoint, int, int), g: SpecPoint, q: SpecPoint, a: int, n: int) -> (
    SpecPoint,
    int,
    int,
) {
    let part = rho_partition(st.0);
    if part == 0 {
        (ec_add(st.0, q, a, gp()), st.1, (st.2 + 1) % n)
    } else if part == 1 {
        (ec_add(st.0, st.0, a, gp()), (2 * st.1) % n, (2 * st.2) % n)
    } else {
        (ec_add(st.0, g, a, gp()), (st.1 + 1) % n, st.2)
    }
}

/// The walk after k steps from (G, 1 mod n, 0).
pub open spec fn rho_iter(g: SpecPoint, q: SpecPoint, a: int, n: int, k: nat) -> (SpecPoint, int, int)
    decreases k,
{
    if k == 0 {
        (g, 1int % n, 0int)
    } else {
        rho_step_spec(rho_iter(g, q, a, n, (k - 1) as nat), g, q, a, n)
    }
}

/// Floyd's test at iteration c: the tortoise (c steps) and the hare (2c
/// steps) stand on the same point.
pub open spec fn rho_meets(g: SpecPoint, q: SpecPoint, a: int, n: int, c: nat) -> bool {
    rho_iter(g, q, a, n, c).0 == rho_iter(g, q, a, n, 2 * c).0
}

/// The first iteration c in from..=lim at which the walks meet.
pub open spec fn rho_search(g: SpecPoint, q: SpecPoint, a: int, n: int, from: nat, lim: nat) -> Option<nat>
    decreases lim + 1 - from,
{
    if from > lim {
        None
    } else if rho_meets(g, q, a, n, from) {
        Some(from)
    } else {
        rho_search(g, q, a, n, from + 1, lim)
    }
}

/// The inverse of d mod n (meaningful when gcd(d, n) = 1).
pub open spec fn inverse_mod(d: nat, n: nat) -> nat {
    choose|x: nat| mod_inverse_spec_ok(d, n, x)
}

/// From the meeting states (a1, b1) and (a2, b2): with da = a1 − a2 and
/// db = b2 − b1 (mod n), k = da·db⁻¹ mod n when db is invertible, kept only
/// when [k]G = Q.
pub open spec fn rho_finish(
    t: (SpecPoint, int, int),
    h: (SpecPoint, int, int),
    g: SpecPoint,
    q: SpecPoint,
    a: int,
    n: int,
) -> Option<u64> {
    let da = (t.1 - h.1) % n;
    let db = (h.2 - t.2) % n;
    if db == 0 || spec_gcd(db as nat, n as nat) != 1 {
        None
    } else {
        let k = (da * inverse_mod(db as nat, n as nat)) % n;
        if ec_scalar_mul(k as nat, g, a, gp()) == q {
            Some(k as u64)
        } else {
            None
        }
    }
}

/// What Pollard's rho returns: `None` for n = 0 or when the walks do not
/// meet within rho_limit(n) iterations; otherwise the outcome at the first
/// meeting.
pub open spec fn rho_outcome(g: SpecPoint, q: SpecPoint, a: int, n: int) -> Option<u64> {
    if n <= 0 {
        None
    } else {
        match rho_search(g, q, a, n, 1, rho_limit(n) as nat) {
            None => None,
            Some(c) => rho_finish(rho_iter(g, q, a, n, c), rho_iter(g, q, a, n, 2 * c), g, q, a, n),
        }
    }
}

/// Skipping iterations at which the walks do not meet.
proof fn lemma_rho_search_skip(g: SpecPoint, q: SpecPoint, a: int, n: int, from: nat, k: nat, lim: nat)
    requires
        from <= k,
        forall|c: nat| from <= c < k && c <= lim ==> !#[trigger] rho_meets(g, q, a, n, c),
    ensures
        rho_search(g, q, a, n, from, lim) == rho_search(g, q, a, n, k, lim),
    decreases k - from,
{
    if from < k {
        lemma_rho_search_skip(g, q, a, n, from + 1, k, lim);
        if from <= lim {
            assert(!rho_meets(g, q, a, n, from));
        }
    }
}

/// An inverse mod n below n is unique.
proof fn lemma_inverse_unique(d: nat, n: nat, x: nat)
    requires
        n > 0,
        mod_inverse_spec_ok(d, n, x),
    ensures
        inverse_mod(d, n) == x,
{
    let y = inverse_mod(d, n);
    assert(mod_inverse_spec_ok(d, n, y));
    let ni = n as int;
    vstd::arithmetic::div_mod::lemma_mul_mod_noop_right(x as int, (d * y) as int, ni);
    vstd::arithmetic::div_mod::lemma_mul_mod_noop_right(x as int, 1, ni);
    vstd::arithmetic::div_mod::lemma_mul_mod_noop_left((x * d) as int, y as int, ni);
    vstd::arithmetic::div_mod::lemma_mul_mod_noop_left(1, y as int, ni);
    assert((x * d) as int % ni == (d * x) as int % ni) by (nonlinear_arith);
    assert(x * (d * y) == (x * d) * y) by (nonlinear_arith);
    vstd::arithmetic::div_mod::lemma_small_mod(x, n);
    vstd::arithmetic::div_mod::lemma_small_mod(y, n);
}

/// One step of the rho walk on (R, a, b) with R = [a]G + [b]Q.
fn rho_step(
    r: &AffinePoint,
    a: u64,
    b: u64,
    generator: &AffinePoint,
    target: &AffinePoint,
    curve: &CurveParams,
) -> (res: (AffinePoint, u64, u64))
    requires
        curve.order > 0,
        curve.order <= 0x8000_0000_0000_0000,
        a < curve.order,
        b < curve.order,
    ensures
        res.1 < curve.order,
        res.2 < curve.order,
        (res.0@, res.1 as int, res.2 as int) == rho_step_spec(
            (r@, a as int, b as int),
            generator@,
            target@,
            curve.a@,
            curve.order as int,
        ),
{
    reveal(rho_step_spec);
    let n = curve.order;
    let part = match r {
        AffinePoint::Infinity => 0,
        AffinePoint::Finite { x, .. } => x.to_canonical() % 3,
    };
    if part == 0 {
        let new_r = point_add(r, target, curve);
        (new_r, a, (b + 1) % n)
    } else if part == 1 {
        let new_r = point_add(r, r, curve);
        (new_r, (2 * a) % n, (2 * b) % n)
    } else {
        let new_r = point_add(r, generator, curve);
        (new_r, (a + 1) % n, b)
    }
}

/// Solve the ECDLP with Pollard's rho walk and Floyd's cycle detection,
/// capped at 4⌈√n⌉ + 1000 iterations.  A returned k is checked: [k]G = Q.
pub fn pollard_rho(generator: &AffinePoint, target: &AffinePoint, curve: &CurveParams) -> (r: Option<u64>)
    requires
        curve.order <= 0x8000_0000_0000_0000,
    ensures
        r == rho_outcome(generator@, target@, curve.a@, curve.order as int),
        curve.order == 0 ==> r.is_none(),
        r matches Some(k) ==> k < curve.order && ec_scalar_mul(k as nat, generator@, curve.a@, gp())
            == target@,
{
    let n = curve.order;
    if n == 0 {
        return None;
    }
    let ghost g = generator@;
    let ghost q = target@;
    let ghost ca = curve.a@;
    let ghost ni = n as int;
    let cs = ceil_sqrt(n);
    proof {
        lemma_ceil_sqrt_unique(ni, cs as int);
    }
    let max_iter: u64 = 4 * cs + 1000;
    let ghost lim: nat = max_iter as nat;
    assert(lim == rho_limit(ni));
    let mut tortoise: (AffinePoint, u64, u64) = (*generator, 1 % n, 0);
    let mut hare: (AffinePoint, u64, u64) = (*generator, 1 % n, 0);
    let mut iter_count: u64 = 0;
    assert((tortoise.0@, tortoise.1 as int, tortoise.2 as int) == rho_iter(g, q, ca, ni, 0));
    loop
        invariant_except_break
            forall|c: nat| 1 <= c <= iter_count ==> !#[trigger] rho_meets(g, q, ca, ni, c),
        invariant
            n == curve.order,
            0 < n <= 0x8000_0000_0000_0000,
            g == generator@,
            q == target@,
            ca == curve.a@,
            ni == n as int,
            lim == max_iter as nat,
            lim == rho_limit(ni),
            tortoise.1 < n,
            tortoise.2 < n,
            hare.1 < n,
            hare.2 < n,
            iter_count <= max_iter,
            (tortoise.0@, tortoise.1 as int, tortoise.2 as int) == rho_iter(g, q, ca, ni, iter_count as nat),
            (hare.0@, hare.1 as int, hare.2 as int) == rho_iter(g, q, ca, ni, 2 * iter_count as nat),
        ensures
            1 <= iter_count <= max_iter,
            rho_meets(g, q, ca, ni, iter_count as nat),
            forall|c: nat| 1 <= c < iter_count ==> !#[trigger] rho_meets(g, q, ca, ni, c),
        decreases max_iter - iter_count,
    {
        if iter_count >= max_iter {
            proof {
                lemma_rho_search_skip(g, q, ca, ni, 1, lim + 1, lim);
                assert(rho_search(g, q, ca, ni, lim + 1, lim) is None);
            }
            return None;
        }
        let ghost c = iter_count as nat;
        iter_count = iter_count + 1;
        tortoise = rho_step(&tortoise.0, tortoise.1, tortoise.2, generator, target, curve);
        hare = rho_step(&hare.0, hare.1, hare.2, generator, target, curve);
        assert((hare.0@, hare.1 as int, hare.2 as int) == rho_iter(g, q, ca, ni, 2 * c + 1));
        hare = rho_step(&hare.0, hare.1, hare.2, generator, target, curve);
        assert((hare.0@, hare.1 as int, hare.2 as int) == rho_iter(g, q, ca, ni, 2 * c + 2));
        proof {
            lemma_affine_view_eq(tortoise.0, hare.0);
        }
        if tortoise.0 == hare.0 {
            break;
        }
    }
    proof {
        lemma_rho_search_skip(g, q, ca, ni, 1, iter_count as nat, lim);
        assert(rho_search(g, q, ca, ni, 1, lim) == Some(iter_count as nat));
    }
    let (_, a1, b1) = tortoise;
    let (_, a2, b2) = hare;
    let da = if a1 >= a2 {
        a1 - a2
    } else {
        n - (a2 - a1)
    };
    let db = if b2 >= b1 {
        b2 - b1
    } else {
        n - (b1 - b2)
    };
    proof {
        let d1 = a1 as int - a2 as int;
        let d2 = b2 as int - b1 as int;
        if a1 >= a2 {
            vstd::arithmetic::div_mod::lemma_small_mod(d1 as nat, n as nat);
        } else {
            vstd::arithmetic::div_mod::lemma_mod_add_multiples_vanish(d1, ni);
            vstd::arithmetic::div_mod::lemma_small_mod((d1 + ni) as nat, n as nat);
        }
        if b2 >= b1 {
            vstd::arithmetic::div_mod::lemma_small_mod(d2 as nat, n as nat);
        } else {
            vstd::arithmetic::div_mod::lemma_mod_add_multiples_vanish(d2, ni);
            vstd::arithmetic::div_mod::lemma_small_mod((d2 + ni) as nat, n as nat);
        }
        assert(da as int == d1 % ni);
        assert(db as int == d2 % ni);
    }
    if db == 0 {
        return None;
    }
    let db_inv = match mod_inverse(db, n) {
        Some(v) => v,
        None => {
            return None;
        },
    };
    proof {
        lemma_inverse_unique(db as nat, n as nat, db_inv as nat);
    }
    assert((da as u128) * (db_inv as u128) <= 0xFFFF_FFFF_FFFF_FFFF * 0xFFFF_FFFF_FFFF_FFFF) by (nonlinear_arith)
        requires
            da <= 0xFFFF_FFFF_FFFF_FFFFu64,
            db_inv <= 0xFFFF_FFFF_FFFF_FFFFu64,
    ;
    let k = (((da as u128) * (db_inv as u128)) % (n as u128)) as u64;
    let check = scalar_mul(k, generator, curve);
    proof {
        lemma_affine_view_eq(check, *target);
    }
    if check == *target {
        Some(k)
    } else {
        None
    }
}

} // verus!
