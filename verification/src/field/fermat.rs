//! Fermat's little theorem and the primality of the Goldilocks prime: the
//! facts behind inversion as exponentiation by p − 2.
use vstd::arithmetic::div_mod::*;
use vstd::arithmetic::mul::*;
use vstd::arithmetic::power::*;
use crate::field::goldilocks::gp;
use vstd::prelude::*;

verus! {

/// p is prime: greater than one, with no divisor strictly between 1 and p.
pub open spec fn is_prime(p: int) -> bool {
    &&& p > 1
    &&& forall|d: int| 1 < d < p ==> #[trigger] (p % d) != 0
}

/// Extended Euclid: (x, y, g) with a·x + b·y = g, where g = gcd(a, b).
pub open spec fn ext_gcd(a: nat, b: nat) -> (int, int, nat)
    decreases b,
{
    if b == 0 {
        (1, 0, a)
    } else {
        let r = ext_gcd(b, a % b);
        (r.1, r.0 - (a / b) as int * r.1, r.2)
    }
}

proof fn lemma_divides_combination(g: int, a: int, b: int, q: int)
    requires
        g > 0,
        b % g == 0,
        (a - q * b) % g == 0,
    ensures
        a % g == 0,
{
    let s = b / g;
    let t = (a - q * b) / g;
    lemma_fundamental_div_mod(b, g);
    lemma_fundamental_div_mod(a - q * b, g);
    assert(a == g * (q * s + t)) by (nonlinear_arith)
        requires
            b == g * s,
            a - q * b == g * t,
    ;
    lemma_mod_multiples_basic(q * s + t, g);
    assert(g * (q * s + t) == (q * s + t) * g) by (nonlinear_arith);
}

/// The coefficients of extended Euclid combine a and b into their common
/// divisor g, which divides both and is positive unless both are zero.
pub proof fn lemma_ext_gcd(a: nat, b: nat)
    ensures
        a * ext_gcd(a, b).0 + b * ext_gcd(a, b).1 == ext_gcd(a, b).2,
        ext_gcd(a, b).2 > 0 ==> a as int % ext_gcd(a, b).2 as int == 0 && b as int % ext_gcd(a, b).2 as int == 0,
        a > 0 || b > 0 ==> ext_gcd(a, b).2 > 0,
    decreases b,
{
    if b > 0 {
        let q = a / b;
        let rm = a % b;
        lemma_fundamental_div_mod(a as int, b as int);
        lemma_ext_gcd(b, rm);
        let r = ext_gcd(b, rm);
        let (x, y, g) = r;
        assert(b * x + rm * y == g);
        assert(a * y + b * (x - q * y) == g) by (nonlinear_arith)
            requires
                b * x + rm * y == g,
                a == b * q + rm,
        ;
        if g > 0 {
            assert(rm == a - q * b) by (nonlinear_arith)
                requires
                    a == b * q + rm,
            ;
            lemma_divides_combination(g as int, a as int, b as int, q as int);
        }
    }
}

/// Modulo a prime, every residue not divisible by p has an inverse.
pub proof fn lemma_prime_inverse_exists(p: int, a: int) -> (x: int)
    requires
        is_prime(p),
        a % p != 0,
    ensures
        (a * x) % p == 1,
{
    let a0 = a % p;
    lemma_mod_bound(a, p);
    lemma_ext_gcd(a0 as nat, p as nat);
    let (x, y, g) = ext_gcd(a0 as nat, p as nat);
    assert(g > 0);
    if g > 1 {
        assert(a0 % (g as int) == 0);
        lemma_mod_is_zero(a0 as nat, g);
        assert(g <= a0);
        assert(p % (g as int) != 0);
        assert(false);
    }
    assert(g == 1);
    assert(a0 * x == 1 - p * y) by (nonlinear_arith)
        requires
            a0 * x + p * y == 1,
    ;
    lemma_mod_multiples_vanish(-y, 1, p);
    assert(1 - p * y == p * (-y) + 1) by (nonlinear_arith);
    lemma_small_mod(1, p as nat);
    assert((a0 * x) % p == 1);
    lemma_mul_mod_noop_left(a, x, p);
    x
}

/// Euclid's lemma: a prime dividing a product divides one of its factors.
pub proof fn lemma_euclid(p: int, a: int, b: int)
    requires
        is_prime(p),
        (a * b) % p == 0,
        a % p != 0,
    ensures
        b % p == 0,
{
    let x = lemma_prime_inverse_exists(p, a);
    // b ≡ b·(a·x) = (a·b)·x ≡ 0
    assert(b * (a * x) == (a * b) * x) by (nonlinear_arith);
    lemma_mul_mod_noop_left(a * b, x, p);
    assert(0 * x == 0);
    lemma_small_mod(0, p as nat);
    assert(((a * b) * x) % p == 0);
    assert((b * (a * x)) % p == 0);
    lemma_mul_mod_noop_right(b, a * x, p);
    assert((b * ((a * x) % p)) % p == 0);
    assert(b * 1 == b);
}

/// The binomial coefficient C(n, k) by Pascal's rule.
pub open spec fn binom(n: nat, k: nat) -> nat
    decreases n,
{
    if k == 0 {
        1
    } else if n == 0 {
        0
    } else {
        binom((n - 1) as nat, (k - 1) as nat) + binom((n - 1) as nat, k)
    }
}

proof fn lemma_binom_above(n: nat, k: nat)
    requires
        k > n,
    ensures
        binom(n, k) == 0,
    decreases n,
{
    if n > 0 {
        lemma_binom_above((n - 1) as nat, (k - 1) as nat);
        lemma_binom_above((n - 1) as nat, k);
    }
}

proof fn lemma_binom_diag(n: nat)
    ensures
        binom(n, n) == 1,
    decreases n,
{
    if n > 0 {
        lemma_binom_diag((n - 1) as nat);
        lemma_binom_above((n - 1) as nat, n);
    }
}

proof fn lemma_binom_one(n: nat)
    ensures
        binom(n, 1) == n,
    decreases n,
{
    if n > 0 {
        lemma_binom_one((n - 1) as nat);
        assert(binom((n - 1) as nat, 0) == 1);
        assert(binom(n, 1) == binom((n - 1) as nat, 0) + binom((n - 1) as nat, 1));
    }
}

/// Absorption: k · C(n, k) = n · C(n − 1, k − 1).
proof fn lemma_binom_absorb(n: nat, k: nat)
    requires
        n >= 1,
        k >= 1,
    ensures
        k * binom(n, k) == n * binom((n - 1) as nat, (k - 1) as nat),
    decreases n,
{
    if n == 1 {
        assert(binom(0, 0) == 1);
        if k == 1 {
            assert(binom(0, 1) == 0);
            assert(binom(1, 1) == binom(0, 0) + binom(0, 1));
        }
        if k >= 2 {
            lemma_binom_above(0, (k - 1) as nat);
            lemma_binom_above(0, k);
            assert(binom(1, k) == 0);
            assert(k * 0 == 0);
        }
    } else if k == 1 {
        lemma_binom_one(n);
        assert(binom((n - 1) as nat, 0) == 1);
    } else {
        let n1 = (n - 1) as nat;
        let n2 = (n - 2) as nat;
        let k1 = (k - 1) as nat;
        let k2 = (k - 2) as nat;
        lemma_binom_absorb(n1, k);
        lemma_binom_absorb(n1, k1);
        let a = binom(n1, k1);
        let b = binom(n1, k);
        assert(binom(n, k) == a + b);
        assert(a == binom(n2, k2) + binom(n2, k1));
        assert(k * b == n1 * binom(n2, k1));
        assert(k1 * a == n1 * binom(n2, k2));
        assert(k * (a + b) == n * a) by (nonlinear_arith)
            requires
                k * b == n1 * binom(n2, k1),
                k1 * a == n1 * binom(n2, k2),
                a == binom(n2, k2) + binom(n2, k1),
                k1 == k - 1,
                n1 == n - 1,
        ;
    }
}

/// A prime divides every inner binomial coefficient C(p, k), 0 < k < p.
proof fn lemma_prime_divides_binom(p: nat, k: nat)
    requires
        is_prime(p as int),
        0 < k < p,
    ensures
        binom(p, k) as int % p as int == 0,
{
    lemma_binom_absorb(p, k);
    let c = binom((p - 1) as nat, (k - 1) as nat);
    lemma_mod_multiples_basic(c as int, p as int);
    assert((k * binom(p, k)) as int == (c * p) as int) by (nonlinear_arith)
        requires
            k * binom(p, k) == p * c,
    ;
    lemma_small_mod(k, p);
    lemma_euclid(p as int, k as int, binom(p, k) as int);
}

/// Σ_{k < j} C(n, k) · a^k.
pub open spec fn binom_sum(n: nat, a: int, j: nat) -> int
    decreases j,
{
    if j == 0 {
        0
    } else {
        binom_sum(n, a, (j - 1) as nat) + binom(n, (j - 1) as nat) * pow(a, (j - 1) as nat)
    }
}

proof fn lemma_binom_sum_pascal(n: nat, a: int, j: nat)
    requires
        j >= 1,
    ensures
        binom_sum(n + 1, a, j) == binom_sum(n, a, j) + a * binom_sum(n, a, (j - 1) as nat),
    decreases j,
{
    if j == 1 {
        reveal_with_fuel(binom_sum, 2);
        lemma_pow0(a);
    } else {
        let j1 = (j - 1) as nat;
        let j2 = (j - 2) as nat;
        lemma_binom_sum_pascal(n, a, j1);
        let c0 = binom(n, j1);
        let c1 = binom(n, j2);
        assert(binom(n + 1, j1) == c1 + c0);
        let pj1 = pow(a, j1);
        let pj2 = pow(a, j2);
        assert(pj1 == a * pj2) by {
            reveal(pow);
        }
        let sj1 = binom_sum(n, a, j1);
        let sj2 = binom_sum(n, a, j2);
        assert(binom_sum(n, a, j) == sj1 + c0 * pj1);
        assert(sj1 == sj2 + c1 * pj2);
        assert(binom_sum(n + 1, a, j) == binom_sum(n + 1, a, j1) + (c1 + c0) * pj1);
        assert(binom_sum(n + 1, a, j1) == sj1 + a * sj2);
        assert((c1 + c0) * pj1 + sj1 + a * sj2 == sj1 + c0 * pj1 + a * (sj2 + c1 * pj2))
            by (nonlinear_arith)
            requires
                pj1 == a * pj2,
        ;
    }
}

/// The binomial theorem for (a + 1)^n.
pub proof fn lemma_binomial(n: nat, a: int)
    ensures
        pow(a + 1, n) == binom_sum(n, a, n + 1),
    decreases n,
{
    if n == 0 {
        reveal_with_fuel(binom_sum, 2);
        lemma_pow0(a);
        lemma_pow0(a + 1);
    } else {
        let n1 = (n - 1) as nat;
        lemma_binomial(n1, a);
        lemma_binom_sum_pascal(n1, a, n + 1);
        lemma_binom_above(n1, n);
        let s = binom_sum(n1, a, n);
        assert(binom_sum(n1, a, n + 1) == s + 0 * pow(a, n));
        assert(pow(a + 1, n) == (a + 1) * pow(a + 1, n1)) by {
            reveal(pow);
        }
        assert((a + 1) * s == s + a * s) by (nonlinear_arith);
    }
}

proof fn lemma_mod_sum_zero(x: int, y: int, m: int)
    requires
        m > 0,
        x % m == 0,
        y % m == 0,
    ensures
        (x + y) % m == 0,
{
    lemma_add_mod_noop(x, y, m);
    lemma_small_mod(0, m as nat);
}

/// The inner terms of (a + 1)^p vanish modulo p.
proof fn lemma_binom_sum_inner(p: nat, a: int, j: nat)
    requires
        is_prime(p as int),
        1 <= j <= p,
    ensures
        (binom_sum(p, a, j) - 1) % (p as int) == 0,
    decreases j,
{
    if j == 1 {
        reveal_with_fuel(binom_sum, 2);
        lemma_pow0(a);
        lemma_small_mod(0, p);
    } else {
        let j1 = (j - 1) as nat;
        lemma_binom_sum_inner(p, a, j1);
        lemma_prime_divides_binom(p, j1);
        let c = binom(p, j1) as int;
        lemma_mul_mod_noop_left(c, pow(a, j1), p as int);
        assert(0 * pow(a, j1) == 0);
        lemma_small_mod(0, p);
        lemma_mod_sum_zero(binom_sum(p, a, j1) - 1, c * pow(a, j1), p as int);
    }
}

/// (a + 1)^p ≡ a^p + 1 (mod p) for a prime p.
proof fn lemma_freshman(p: nat, a: int)
    requires
        is_prime(p as int),
    ensures
        (pow(a + 1, p) - pow(a, p) - 1) % (p as int) == 0,
{
    lemma_binomial(p, a);
    lemma_binom_sum_inner(p, a, p);
    lemma_binom_diag(p);
    assert(binom_sum(p, a, p + 1) == binom_sum(p, a, p) + 1 * pow(a, p));
}

/// Fermat's little theorem, first form: a^p ≡ a (mod p) for a prime p.
pub proof fn lemma_fermat_pow_p(p: nat, a: nat)
    requires
        is_prime(p as int),
    ensures
        (pow(a as int, p) - a) % (p as int) == 0,
    decreases a,
{
    if a == 0 {
        lemma0_pow(p);
        lemma_small_mod(0, p);
    } else {
        let a1 = (a - 1) as nat;
        lemma_fermat_pow_p(p, a1);
        lemma_freshman(p, a1 as int);
        lemma_mod_sum_zero(pow(a as int, p) - pow(a1 as int, p) - 1, pow(a1 as int, p) - a1, p as int);
    }
}

/// Fermat's little theorem: a^(p−1) ≡ 1 (mod p) for a prime p not
/// dividing a.
pub proof fn lemma_fermat_little(p: int, a: int)
    requires
        is_prime(p),
        a % p != 0,
    ensures
        pow(a, (p - 1) as nat) % p == 1,
{
    let a0 = a % p;
    lemma_mod_bound(a, p);
    lemma_fermat_pow_p(p as nat, a0 as nat);
    let e = (p - 1) as nat;
    let t = pow(a0, e);
    assert(pow(a0, p as nat) == a0 * t) by {
        reveal(pow);
    }
    assert(a0 * (t - 1) == a0 * t - a0) by (nonlinear_arith);
    lemma_small_mod(a0 as nat, p as nat);
    lemma_euclid(p, a0, t - 1);
    // t ≡ 1 (mod p)
    lemma_mod_multiples_vanish(1, t - 1 + p * 0, p);
    assert(t == (t - 1) + 1);
    lemma_add_mod_noop(t - 1, 1, p);
    lemma_small_mod(1, p as nat);
    assert(t % p == 1);
    lemma_pow_mod_noop(a, e, p);
    assert(pow(a0, e) % p == pow(a, e) % p);
}

/// b^e mod m by square-and-multiply on the halved exponent.
pub open spec fn pow_mod_fast(b: int, e: nat, m: int) -> int
    decreases e,
{
    if e == 0 {
        1
    } else {
        let h = pow_mod_fast(b, e / 2, m);
        if e % 2 == 1 {
            ((h * h) % m * b) % m
        } else {
            (h * h) % m
        }
    }
}

proof fn lemma_pow_mod_fast(b: int, e: nat, m: int)
    requires
        m > 1,
    ensures
        pow_mod_fast(b, e, m) == pow(b, e) % m,
    decreases e,
{
    if e == 0 {
        lemma_pow0(b);
        lemma_small_mod(1, m as nat);
    } else {
        let e2 = e / 2;
        lemma_pow_mod_fast(b, e2, m);
        let q = pow(b, e2);
        let h = q % m;
        assert(pow(b, 2 * e2) == q * q) by {
            lemma_pow_adds(b, e2, e2);
        }
        lemma_mul_mod_noop(q, q, m);
        assert((h * h) % m == (q * q) % m);
        if e % 2 == 1 {
            assert(e == 2 * e2 + 1);
            assert(pow(b, e) == (q * q) * b) by {
                lemma_pow_adds(b, 2 * e2, 1);
                lemma_pow1(b);
            }
            lemma_mul_mod_noop_left(q * q, b, m);
        } else {
            assert(e == 2 * e2);
        }
    }
}

proof fn lemma_pow_mod_fast_step(e: nat, h: int, hh: int, r: int, r7: int, v: int)
    requires
        e > 0,
        pow_mod_fast(7, e / 2, gp()) == h,
        hh == h * h,
        r == hh % gp(),
        e % 2 == 1 ==> r7 == r * 7 && v == r7 % gp(),
        e % 2 == 0 ==> v == r,
    ensures
        pow_mod_fast(7, e, gp()) == v,
{
}

/// 7^((p−1)/2) ≡ −1 and 7^(p−1) ≡ 1 modulo the Goldilocks prime p.
pub proof fn lemma_goldilocks_witness()
    ensures
        pow(7, 9223372034707292160) % gp() == gp() - 1,
        pow(7, 18446744069414584320) % gp() == 1,
{
    assert(pow_mod_fast(7, 0, gp()) == 1);
    lemma_pow_mod_fast_step(1, 1, 1, 1, 7, 7);
    lemma_pow_mod_fast_step(3, 7, 49, 49, 343, 343);
    lemma_pow_mod_fast_step(7, 343, 117649, 117649, 823543, 823543);
    lemma_pow_mod_fast_step(15, 823543, 678223072849, 678223072849, 4747561509943, 4747561509943);
    lemma_pow_mod_fast_step(31, 4747561509943, 22539340290692258087863249, 1582037354089406189, 11074261478625843323, 11074261478625843323);
    lemma_pow_mod_fast_step(63, 11074261478625843323, 122639267296976249690716502652943682329, 14911712358349047125, 104381986508443329875, 12148266161370408270);
    lemma_pow_mod_fast_step(127, 12148266161370408270, 147580370727497314425528305226484392900, 14177331716484271384, 99241322015389899688, 7007601668316978083);
    lemma_pow_mod_fast_step(255, 7007601668316978083, 49106481141798894510400959993102354889, 1160753142525841411, 8125271997680889877, 8125271997680889877);
    lemma_pow_mod_fast_step(511, 8125271997680889877, 66020045036297198910721359762601075129, 10915923311382173605, 76411463179675215235, 2624486902016877951);
    lemma_pow_mod_fast_step(1023, 2624486902016877951, 6887931498858149526664480469229958401, 1179017105118043277, 8253119735826302939, 8253119735826302939);
    lemma_pow_mod_fast_step(2047, 8253119735826302939, 68113985373885624411581578877000037721, 13682469552810377440, 95777286869672642080, 3543566522599720475);
    lemma_pow_mod_fast_step(4095, 3543566522599720475, 12556863700089475279895540548134225625, 12252646851770615269, 85768527962394306883, 11981551684735969599);
    lemma_pow_mod_fast_step(8191, 11981551684735969599, 143557580773999351433084160682652220801, 9343193256669382154, 65402352796685675078, 10062120588441922115);
    lemma_pow_mod_fast_step(16383, 10062120588441922115, 101246270736346812967463302395726073225, 4133221502128927102, 28932550514902489714, 10485806445487905393);
    lemma_pow_mod_fast_step(32767, 10485806445487905393, 109952136812235701054177367442518484449, 5861853314594190514, 41032973202159333598, 4139485063330164956);
    lemma_pow_mod_fast_step(65535, 4139485063330164956, 17135336589533539776485113354170481936, 7004045467739516513, 49028318274176615591, 12134830135347446949);
    lemma_pow_mod_fast_step(131071, 12134830135347446949, 147254102413736537639198735612369408601, 618113109518621269, 4326791766630348883, 4326791766630348883);
    lemma_pow_mod_fast_step(262143, 4326791766630348883, 18721126991780175469740734470299347689, 13205783127219969319, 92440481890539785233, 206761543466863628);
    lemma_pow_mod_fast_step(524287, 206761543466863628, 42750335856799737409677655149322384, 14617186517222294718, 102320305620556063026, 10086585273483141421);
    lemma_pow_mod_fast_step(1048575, 10086585273483141421, 101739202479246978812903211498685899241, 5535602650859329748, 38749218556015308236, 1855730417186139594);
    lemma_pow_mod_fast_step(2097151, 1855730417186139594, 3443735381269843701822309344454484836, 3724741596018185032, 26073191172127295224, 7626447102712710903);
    lemma_pow_mod_fast_step(4194303, 7626447102712710903, 58162695410475102406004263043255075409, 11653985196031332500, 81577896372219327500, 7790920094560990216);
    lemma_pow_mod_fast_step(8388607, 7790920094560990216, 60698435919834228729058310630447726656, 16654626667483233145, 116582386672382632015, 5901922255895126089);
    lemma_pow_mod_fast_step(16777215, 5901922255895126089, 34832686314630214197201672105208435921, 9182212999444825067, 64275490996113775469, 8935258787870022506);
    lemma_pow_mod_fast_step(33554431, 8935258787870022506, 79838849606208463853005459604946520036, 17682034324931514088, 123774240274520598616, 13093775858033092690);
    lemma_pow_mod_fast_step(67108863, 13093775858033092690, 171446966220410252694797651166131436100, 9511995656157268947, 66583969593100882629, 11243737384857129666);
    lemma_pow_mod_fast_step(134217727, 11243737384857129666, 126421630379633845193813938752337271556, 16106297366990222687, 112744081568931558809, 2063617152444052883);
    lemma_pow_mod_fast_step(268435455, 2063617152444052883, 4258515751861301395704881394900611689, 4501656151559876649, 31511593060919136543, 13064848991504552222);
    lemma_pow_mod_fast_step(536870911, 13064848991504552222, 170690279170817515258261588948725137284, 2370486178716065012, 16593403251012455084, 16593403251012455084);
    lemma_pow_mod_fast_step(1073741823, 16593403251012455084, 275341031450710713463674311297117447056, 14013264900002007546, 98092854300014052822, 5859133952941131217);
    lemma_pow_mod_fast_step(2147483647, 5859133952941131217, 34329450678507566038509287135611901089, 10142762553374040318, 70999337873618282226, 15659105665374529263);
    lemma_pow_mod_fast_step(4294967295, 15659105665374529263, 245207590239364678833043421958843323169, 16062014221418238814, 112434099549927671698, 1753635133440165772);
    lemma_pow_mod_fast_step(8589934590, 1753635133440165772, 3075236181235708013440281258840355984, 4614640910117430873, 0, 4614640910117430873);
    lemma_pow_mod_fast_step(17179869180, 4614640910117430873, 21294910729329430721299418869933542129, 9123114210336311365, 0, 9123114210336311365);
    lemma_pow_mod_fast_step(34359738360, 9123114210336311365, 83231212894840338086145098634228163225, 16116352524544190054, 0, 16116352524544190054);
    lemma_pow_mod_fast_step(68719476720, 16116352524544190054, 259736818695381888076933335406872522916, 6414415596519834757, 0, 6414415596519834757);
    lemma_pow_mod_fast_step(137438953440, 6414415596519834757, 41144727444876907561557568518585249049, 1213594585890690845, 0, 1213594585890690845);
    lemma_pow_mod_fast_step(274877906880, 1213594585890690845, 1472811818903197398595478831366814025, 17096174751763063430, 0, 17096174751763063430);
    lemma_pow_mod_fast_step(549755813760, 17096174751763063430, 292279191142820843492337177658203364900, 5456943929260765144, 0, 5456943929260765144);
    lemma_pow_mod_fast_step(1099511627520, 5456943929260765144, 29778237047095918579959220012325340736, 9713644485405565297, 0, 9713644485405565297);
    lemma_pow_mod_fast_step(2199023255040, 9713644485405565297, 94354889188849949446187357300130698209, 16905767614792059275, 0, 16905767614792059275);
    lemma_pow_mod_fast_step(4398046510080, 16905767614792059275, 285804978645351993075953997595113525625, 5416168637041100469, 0, 5416168637041100469);
    lemma_pow_mod_fast_step(8796093020160, 5416168637041100469, 29334882704867651911329270754552019961, 17654865857378133588, 0, 17654865857378133588);
    lemma_pow_mod_fast_step(17592186040320, 17654865857378133588, 311694288442016139993475194842373753744, 3511170319078647661, 0, 3511170319078647661);
    lemma_pow_mod_fast_step(35184372080640, 3511170319078647661, 12328317009578852426930133172580770921, 18146160046829613826, 0, 18146160046829613826);
    lemma_pow_mod_fast_step(70368744161280, 18146160046829613826, 329283124445155332642629051092290358276, 9306717745644682924, 0, 9306717745644682924);
    lemma_pow_mod_fast_step(140737488322560, 9306717745644682924, 86614995197097649042794188832497189776, 12380578893860276750, 0, 12380578893860276750);
    lemma_pow_mod_fast_step(281474976645120, 12380578893860276750, 153278733747098553796117351586590562500, 6115771955107415310, 0, 6115771955107415310);
    lemma_pow_mod_fast_step(562949953290240, 6115771955107415310, 37402666606878377105882800148822396100, 17776499369601055404, 0, 17776499369601055404);
    lemma_pow_mod_fast_step(1125899906580480, 17776499369601055404, 316003929837426720181241347750677603216, 16207902636198568418, 0, 16207902636198568418);
    lemma_pow_mod_fast_step(2251799813160960, 16207902636198568418, 262696107864492503667096529112627022724, 1532612707718625687, 0, 1532612707718625687);
    lemma_pow_mod_fast_step(4503599626321920, 1532612707718625687, 2348901711860617568462032296016221969, 17492915097719143606, 0, 17492915097719143606);
    lemma_pow_mod_fast_step(9007199252643840, 17492915097719143606, 306002078616010355494134007090050683236, 455906449640507599, 0, 455906449640507599);
    lemma_pow_mod_fast_step(18014398505287680, 455906449640507599, 207850690823812691445461886376744801, 11353340290879379826, 0, 11353340290879379826);
    lemma_pow_mod_fast_step(36028797010575360, 11353340290879379826, 128898335760505080918251287958375790276, 1803076106186727246, 0, 1803076106186727246);
    lemma_pow_mod_fast_step(72057594021150720, 1803076106186727246, 3251083444701490107238435216398744516, 13797081185216407910, 0, 13797081185216407910);
    lemma_pow_mod_fast_step(144115188042301440, 13797081185216407910, 190359449231452599231739179083510568100, 17870292113338400769, 0, 17870292113338400769);
    lemma_pow_mod_fast_step(288230376084602880, 17870292113338400769, 319347340216044645955702184874459791361, 549755813888, 0, 549755813888);
    lemma_pow_mod_fast_step(576460752169205760, 549755813888, 302231454903657293676544, 70368744161280, 0, 70368744161280);
    lemma_pow_mod_fast_step(1152921504338411520, 70368744161280, 4951760154835678090651238400, 17293822564807737345, 0, 17293822564807737345);
    lemma_pow_mod_fast_step(2305843008676823040, 17293822564807737345, 299076298903053266742145344778507649025, 18446744069397807105, 0, 18446744069397807105);
    lemma_pow_mod_fast_step(4611686017353646080, 18446744069397807105, 340282366761863168470687870982788481025, 281474976710656, 0, 281474976710656);
    lemma_pow_mod_fast_step(9223372034707292160, 281474976710656, 79228162514264337593543950336, 18446744069414584320, 0, 18446744069414584320);
    lemma_pow_mod_fast_step(18446744069414584320, 18446744069414584320, 340282366762482138453292676318389862400, 1, 0, 1);
    lemma_pow_mod_fast(7, 9223372034707292160, gp());
    lemma_pow_mod_fast(7, 18446744069414584320, gp());
}

/// A multiple of m is `m · (x / m)`.
proof fn lemma_multiple(x: int, m: int)
    requires
        m > 0,
        x % m == 0,
    ensures
        x == m * (x / m),
{
    lemma_fundamental_div_mod(x, m);
}

/// `m · t` is a multiple of m.
proof fn lemma_times_is_multiple(m: int, t: int)
    requires
        m > 0,
    ensures
        (m * t) % m == 0,
{
    lemma_mod_multiples_basic(t, m);
    assert(t * m == m * t) by (nonlinear_arith);
}

/// Divisibility is transitive: a | b and b | c give a | c.
proof fn lemma_divides_trans(a: int, b: int, c: int)
    requires
        a > 0,
        b > 0,
        b % a == 0,
        c % b == 0,
    ensures
        c % a == 0,
{
    lemma_multiple(b, a);
    lemma_multiple(c, b);
    let u = b / a;
    let v = c / b;
    assert(c == a * (u * v)) by (nonlinear_arith)
        requires
            b == a * u,
            c == b * v,
    ;
    lemma_times_is_multiple(a, u * v);
}

/// Multiples of m are closed under integer combinations.
proof fn lemma_combination_multiple(x: int, y: int, s: int, t: int, m: int)
    requires
        m > 0,
        x % m == 0,
        y % m == 0,
    ensures
        (s * x + t * y) % m == 0,
{
    lemma_multiple(x, m);
    lemma_multiple(y, m);
    let u = x / m;
    let v = y / m;
    assert(s * x + t * y == m * (s * u + t * v)) by (nonlinear_arith)
        requires
            x == m * u,
            y == m * v,
    ;
    lemma_times_is_multiple(m, s * u + t * v);
}

/// `x mod m = 1` exactly when m divides x − 1 (for m > 1).
proof fn lemma_mod_one(x: int, m: int)
    requires
        m > 1,
    ensures
        x % m == 1 <==> (x - 1) % m == 0,
{
    lemma_fundamental_div_mod(x, m);
    lemma_mod_bound(x, m);
    let q = x / m;
    assert(x - 1 == m * q + (x % m - 1));
    lemma_mod_multiples_vanish(q, x % m - 1, m);
    if x % m == 1 {
        lemma_small_mod(0, m as nat);
    } else {
        if x % m == 0 {
            lemma_mod_multiples_vanish(-1, m - 1, m);
            lemma_small_mod((m - 1) as nat, m as nat);
            assert(m * (-1) + (m - 1) == -1);
        } else {
            lemma_small_mod((x % m - 1) as nat, m as nat);
        }
    }
}

/// The least divisor above one of a composite p: it divides p and no
/// number strictly between 1 and it divides p.
proof fn lemma_least_divisor(p: int, d: int) -> (r: int)
    requires
        1 < d < p,
        p % d == 0,
    ensures
        1 < r <= d,
        p % r == 0,
        forall|e: int| 1 < e < r ==> #[trigger] (p % e) != 0,
    decreases d,
{
    if exists|e: int| 1 < e < d && #[trigger] (p % e) == 0 {
        let e = choose|e: int| 1 < e < d && #[trigger] (p % e) == 0;
        lemma_least_divisor(p, e)
    } else {
        d
    }
}

/// If a^x ≡ 1 and a^y ≡ 1 (mod r) then a^gcd(x, y) ≡ 1 (mod r).
proof fn lemma_pow_one_gcd(a: int, x: nat, y: nat, r: int)
    requires
        r > 1,
        pow(a, x) % r == 1,
        pow(a, y) % r == 1,
    ensures
        pow(a, ext_gcd(x, y).2) % r == 1,
    decreases y,
{
    if y > 0 {
        let q = x / y;
        let rm = x % y;
        lemma_fundamental_div_mod(x as int, y as int);
        assert(x == y * q + rm);
        lemma_pow_adds(a, y * q, rm);
        lemma_pow_multiplies(a, y, q);
        let u = pow(a, y * q);
        let v = pow(a, rm);
        lemma_pow_mod_noop(pow(a, y), q, r);
        lemma1_pow(q);
        lemma_small_mod(1, r as nat);
        assert(u % r == 1);
        lemma_mul_mod_noop_left(u, v, r);
        assert(pow(a, rm) % r == 1);
        lemma_pow_one_gcd(a, y, rm, r);
    }
}

/// If a^g ≡ 1 (mod r) then a^(g·t) ≡ 1 (mod r).
proof fn lemma_pow_one_multiple(a: int, g: nat, t: nat, r: int)
    requires
        r > 1,
        pow(a, g) % r == 1,
    ensures
        pow(a, g * t) % r == 1,
{
    lemma_pow_multiplies(a, g, t);
    lemma_pow_mod_noop(pow(a, g), t, r);
    lemma1_pow(t);
    lemma_small_mod(1, r as nat);
}

/// Every positive integer is a power of two times an odd number.
proof fn lemma_two_adic(g: nat) -> (jo: (nat, nat))
    requires
        g > 0,
    ensures
        g == pow(2, jo.0) * jo.1,
        jo.1 % 2 == 1,
    decreases g,
{
    if g % 2 == 1 {
        lemma_pow0(2);
        (0, g)
    } else {
        let h = g / 2;
        let (j, o) = lemma_two_adic(h);
        assert(pow(2, j + 1) == 2 * pow(2, j)) by {
            reveal(pow);
        }
        assert(g == 2 * h);
        assert(g == pow(2, j + 1) * o) by (nonlinear_arith)
            requires
                g == 2 * h,
                h == pow(2, j) * o,
                pow(2, j + 1) == 2 * pow(2, j),
        ;
        (j + 1, o)
    }
}

/// An odd divisor of 2^k · x divides x.
proof fn lemma_odd_cancel(o: int, k: nat, x: int)
    requires
        o > 0,
        o % 2 == 1,
        (pow(2, k) * x) % o == 0,
    ensures
        x % o == 0,
    decreases k,
{
    if k == 0 {
        lemma_pow0(2);
    } else {
        let k1 = (k - 1) as nat;
        assert(pow(2, k) * x == pow(2, k1) * (2 * x)) by {
            assert(pow(2, k) == 2 * pow(2, k1)) by {
                reveal(pow);
            }
            assert(2 * pow(2, k1) * x == pow(2, k1) * (2 * x)) by (nonlinear_arith);
        }
        lemma_odd_cancel(o, k1, 2 * x);
        // x = (2x)·((o + 1) / 2) − x·o
        let c = (o + 1) / 2;
        assert(2 * c == o + 1);
        assert(x == c * (2 * x) + (-x) * o) by (nonlinear_arith)
            requires
                2 * c == o + 1,
        ;
        lemma_times_is_multiple(o, 1);
        assert(o % o == 0);
        lemma_combination_multiple(2 * x, o, c, -x, o);
    }
}

/// The Goldilocks prime 2^64 − 2^32 + 1 is prime.  Certificate: 7^((p−1)/2)
/// ≡ −1 and 7^(p−1) ≡ 1 (mod p), so every prime factor r of p has
/// 2^32 | r − 1, and two such factors would exceed p.
pub proof fn lemma_goldilocks_prime()
    ensures
        is_prime(gp()),
{
    let p = gp();
    if !is_prime(p) {
        let d = choose|d: int| 1 < d < p && #[trigger] (p % d) == 0;
        let r = lemma_least_divisor(p, d);
        // r is prime
        assert forall|e: int| 1 < e < r implies #[trigger] (r % e) != 0 by {
            if r % e == 0 {
                lemma_divides_trans(e, r, p);
            }
        }
        assert(is_prime(r));
        // r · r <= p
        lemma_multiple(p, r);
        let s = p / r;
        assert(s > 1) by (nonlinear_arith)
            requires
                p == r * s,
                r < p,
                r > 1,
        ;
        assert(s < p) by (nonlinear_arith)
            requires
                p == r * s,
                r > 1,
                s > 1,
        ;
        assert(p == s * r) by (nonlinear_arith)
            requires
                p == r * s,
        ;
        lemma_times_is_multiple(s, r);
        assert(p % s == 0);
        assert(s >= r);
        assert(r * r <= p) by (nonlinear_arith)
            requires
                p == r * s,
                s >= r,
                r > 1,
        ;
        lemma_goldilocks_witness();
        let e_full: nat = 18446744069414584320;
        let e_half: nat = 9223372034707292160;
        let x_full = pow(7, e_full);
        let x_half = pow(7, e_half);
        lemma_mod_one(x_full, p);
        lemma_divides_trans(r, p, x_full - 1);
        lemma_mod_one(x_full, r);
        // r does not divide 7
        if 7int % r == 0 {
            assert(x_full == 7 * pow(7, (e_full - 1) as nat)) by {
                reveal(pow);
            }
            lemma_multiple(7, r);
            assert(x_full == r * ((7int / r) * pow(7, (e_full - 1) as nat))) by (nonlinear_arith)
                requires
                    x_full == 7 * pow(7, (e_full - 1) as nat),
                    7 == r * (7int / r),
            ;
            lemma_times_is_multiple(r, (7int / r) * pow(7, (e_full - 1) as nat));
            assert(x_full % r == 0);
            assert(false);
        }
        lemma_fermat_little(r, 7);
        let r1 = (r - 1) as nat;
        lemma_ext_gcd(r1, e_full);
        let g = ext_gcd(r1, e_full).2;
        lemma_pow_one_gcd(7, r1, e_full, r);
        assert(g > 0);
        let (j, o) = lemma_two_adic(g);
        vstd::arithmetic::power2::lemma2_to64();
        vstd::arithmetic::power2::lemma_pow2(32);
        vstd::arithmetic::power2::lemma_pow2(31);
        if j >= 32 {
            let j2 = (j - 32) as nat;
            lemma_pow_adds(2, 32, j2);
            assert(g == pow(2, 32) * (pow(2, j2) * o)) by (nonlinear_arith)
                requires
                    g == pow(2, j) * o,
                    pow(2, j) == pow(2, 32) * pow(2, j2),
            ;
            lemma_times_is_multiple(pow(2, 32), pow(2, j2) * o);
            lemma_pow_positive(2, j);
            assert(o > 0);
            lemma_divides_trans(pow(2, 32), g as int, r1 as int);
            lemma_mod_is_zero(r1, pow(2, 32) as nat);
            assert(r * r > p) by (nonlinear_arith)
                requires
                    r >= 4294967297,
                    p == 18446744069414584321,
            ;
            assert(false);
        } else {
            let m: int = 4294967295;
            assert(e_full == pow(2, 32) * m);
            // o divides e_full, hence m
            lemma_pow_positive(2, j);
            lemma_times_is_multiple(o as int, pow(2, j));
            assert(g == o * pow(2, j)) by (nonlinear_arith)
                requires
                    g == pow(2, j) * o,
            ;
            lemma_divides_trans(o as int, g as int, e_full as int);
            lemma_odd_cancel(o as int, 32, m);
            lemma_multiple(m, o as int);
            let mo = m / (o as int);
            let j3 = (31 - j) as nat;
            lemma_pow_adds(2, j, j3);
            assert(mo >= 0) by (nonlinear_arith)
                requires
                    m == o * mo,
                    o > 0,
                    m > 0,
            ;
            let t = (pow(2, j3) * mo) as nat;
            lemma_pow_positive(2, j3);
            assert(g * t == e_half) by (nonlinear_arith)
                requires
                    g == pow(2, j) * o,
                    t == pow(2, j3) * mo,
                    m == o * mo,
                    pow(2, 31) == pow(2, j) * pow(2, j3),
                    e_half == pow(2, 31) * m,
            ;
            lemma_pow_one_multiple(7, g, t, r);
            assert(x_half % r == 1);
            // x_half ≡ p − 1 (mod p), so r divides x_half − (p − 1)
            lemma_fundamental_div_mod(x_half, p);
            let qh = x_half / p;
            assert(x_half - (p - 1) == p * qh);
            lemma_times_is_multiple(p, qh);
            lemma_divides_trans(r, p, x_half - (p - 1));
            lemma_mod_one(x_half, r);
            lemma_combination_multiple(x_half - 1, x_half - (p - 1), -1, 1, r);
            assert(-1 * (x_half - 1) + 1 * (x_half - (p - 1)) == 2 - p);
            lemma_combination_multiple(2 - p, p, 1, 1, r);
            assert(1 * (2 - p) + 1 * p == 2);
            lemma_mod_is_zero(2, r as nat);
            assert(r == 2);
            assert(p % 2 == 1);
            assert(false);
        }
    }
}

/// Modulo a prime, products and powers of nonzero residues are nonzero.
pub proof fn lemma_nonzero_mod_prime(p: int, a: int, b: int, e: nat)
    requires
        is_prime(p),
        a % p != 0,
        b % p != 0,
    ensures
        (a * b) % p != 0,
        pow(a, e) % p != 0,
    decreases e,
{
    if (a * b) % p == 0 {
        lemma_euclid(p, a, b);
    }
    if e == 0 {
        lemma_pow0(a);
        lemma_small_mod(1, p as nat);
    } else {
        lemma_nonzero_mod_prime(p, a, a, (e - 1) as nat);
        assert(pow(a, e) == a * pow(a, (e - 1) as nat)) by {
            reveal(pow);
        }
        if pow(a, e) % p == 0 {
            lemma_euclid(p, a, pow(a, (e - 1) as nat));
        }
    }
}

} // verus!
