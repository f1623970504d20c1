//! Laws of the curve arithmetic: negation, and the agreement of Jacobian with
//! affine arithmetic over the Goldilocks field.
use crate::ec::ec_spec::{
    ec_add, ec_double, ec_neg, fadd, finv, fmul, fneg, fsub, jac_double, jac_double_cached, jac_from_affine, jac_ladder,
    jac_mixed_add, jac_to_affine, SpecPoint,
};
use crate::field::fermat::{is_prime, lemma_euclid, lemma_goldilocks_prime};
use crate::field::goldilocks::gp;
use crate::field::laws::lemma_mod_pow_inverse;
use vstd::arithmetic::div_mod::*;
use vstd::prelude::*;

verus! {

/// x ≡ y modulo the Goldilocks prime.
pub open spec fn cong(x: int, y: int) -> bool {
    x % gp() == y % gp()
}

proof fn lemma_cong_mul(a: int, b: int, c: int, d: int)
    requires
        cong(a, b),
        cong(c, d),
    ensures
        cong(a * c, b * d),
{
    lemma_mul_mod_noop(a, c, gp());
    lemma_mul_mod_noop(b, d, gp());
}

proof fn lemma_cong_add(a: int, b: int, c: int, d: int)
    requires
        cong(a, b),
        cong(c, d),
    ensures
        cong(a + c, b + d),
{
    lemma_add_mod_noop(a, c, gp());
    lemma_add_mod_noop(b, d, gp());
}

proof fn lemma_cong_sub(a: int, b: int, c: int, d: int)
    requires
        cong(a, b),
        cong(c, d),
    ensures
        cong(a - c, b - d),
{
    lemma_sub_mod_noop(a, c, gp());
    lemma_sub_mod_noop(b, d, gp());
}

/// The reduced product, sum and difference are congruent to the plain ones.
proof fn lemma_cong_ops(x: int, y: int)
    ensures
        cong(fmul(x, y, gp()), x * y),
        cong(fadd(x, y, gp()), x + y),
        cong(fsub(x, y, gp()), x - y),
{
    lemma_mod_twice(x * y, gp());
    lemma_mod_twice(x + y, gp());
    lemma_mod_twice(x - y, gp());
}

/// Multiplying by something congruent to one changes nothing.
proof fn lemma_cong_times_one(u: int, t: int)
    requires
        cong(t, 1),
    ensures
        cong(u * t, u),
{
    lemma_cong_mul(u, u, t, 1);
}

/// A canonical representative is its own residue.
proof fn lemma_canonical(x: int)
    requires
        0 <= x < gp(),
    ensures
        x % gp() == x,
{
    lemma_small_mod(x as nat, gp() as nat);
}

/// Nonzero residues multiply to a nonzero residue.
proof fn lemma_nonzero_product(u: int, v: int)
    requires
        u % gp() != 0,
        v % gp() != 0,
    ensures
        (u * v) % gp() != 0,
{
    lemma_goldilocks_prime();
    if (u * v) % gp() == 0 {
        lemma_euclid(gp(), u, v);
    }
}

/// A nonzero factor cancels from a congruence.
proof fn lemma_cancel(u: int, v: int, c: int)
    requires
        c % gp() != 0,
        cong(u * c, v * c),
    ensures
        cong(u, v),
{
    lemma_goldilocks_prime();
    lemma_sub_mod_noop(u * c, v * c, gp());
    lemma_small_mod(0, gp() as nat);
    assert((u * c - v * c) % gp() == 0) by {
        lemma_mod_self_0(gp());
        let k = (u * c) % gp();
        assert(k - k == 0);
    }
    assert(c * (u - v) == u * c - v * c) by (nonlinear_arith);
    lemma_euclid(gp(), c, u - v);
    lemma_fundamental_div_mod(u - v, gp());
    let q = (u - v) / gp();
    assert(u == gp() * q + v);
    lemma_mod_multiples_vanish(q, v, gp());
}

/// The Fermat inverse of a nonzero canonical residue is a canonical inverse.
proof fn lemma_finv(z: int)
    requires
        0 < z < gp(),
    ensures
        0 <= finv(z, gp()) < gp(),
        cong(z * finv(z, gp()), 1),
{
    lemma_goldilocks_prime();
    lemma_mod_pow_inverse(gp(), z);
    lemma_mod_bound(vstd::arithmetic::power::pow(z, (gp() - 2) as nat), gp());
    lemma_small_mod(1, gp() as nat);
}

/// Two canonical residues that are congruent are equal.
proof fn lemma_cong_canonical(u: int, v: int)
    requires
        0 <= u < gp(),
        0 <= v < gp(),
        cong(u, v),
    ensures
        u == v,
{
    lemma_canonical(u);
    lemma_canonical(v);
}

proof fn lemma_fmul_range(x: int, y: int)
    ensures
        0 <= fmul(x, y, gp()) < gp(),
        0 <= fadd(x, y, gp()) < gp(),
        0 <= fsub(x, y, gp()) < gp(),
{
    lemma_mod_bound(x * y, gp());
    lemma_mod_bound(x + y, gp());
    lemma_mod_bound(x - y, gp());
}

proof fn lemma_pow4_of_product(u: int, v: int)
    ensures
        (u * u * (u * u)) * (v * (v * v * v)) == (u * v) * (u * v) * ((u * v) * (u * v)),
{
    assert((u * u) * (v * v) == (u * v) * (u * v)) by (nonlinear_arith);
    assert((u * u * (u * u)) * (v * (v * v * v)) == ((u * u) * (v * v)) * ((u * u) * (v * v)))
        by (nonlinear_arith);
}

/// With z·zi ≡ 1 and (2yz)·w ≡ 1: zi ≡ 2yw, zi² ≡ 4y²w², zi³ ≡ 8y³w³.
proof fn lemma_inverse_relations(y: int, z: int, zi: int, w: int)
    requires
        cong(z * zi, 1),
        cong(2 * y * z * w, 1),
    ensures
        cong(zi, 2 * y * w),
        cong(zi * zi, 4 * y * y * w * w),
        cong(zi * zi * zi, 8 * y * y * y * w * w * w),
{
    let s = 2 * y * w;
    assert(s * (z * zi) == zi * (2 * y * z * w)) by (nonlinear_arith)
        requires
            s == 2 * y * w,
    ;
    lemma_cong_times_one(s, z * zi);
    lemma_cong_times_one(zi, 2 * y * z * w);
    lemma_cong_mul(zi, s, zi, s);
    assert(s * s == 4 * y * y * w * w) by (nonlinear_arith)
        requires
            s == 2 * y * w,
    ;
    lemma_cong_mul(zi * zi, 4 * y * y * w * w, zi, s);
    assert((4 * y * y * w * w) * s == 8 * y * y * y * w * w * w) by (nonlinear_arith)
        requires
            s == 2 * y * w,
    ;
}

/// The slope: with d ≡ 3x² + az⁴, λ ≡ num · I, num ≡ 3(x·zi²)² + a,
/// den ≡ 2y·zi³ nonzero, den·I ≡ 1, z·zi ≡ 1 and zi ≡ 2yw: λ ≡ d·w.
proof fn lemma_double_slope(
    x: int,
    y: int,
    z: int,
    a: int,
    zi: int,
    w: int,
    d: int,
    num: int,
    den: int,
    inv: int,
    lam: int,
)
    requires
        cong(z * zi, 1),
        cong(zi, 2 * y * w),
        cong(d, 3 * x * x + a * (z * z * (z * z))),
        cong(num, 3 * (x * (zi * zi)) * (x * (zi * zi)) + a),
        cong(den, 2 * (y * (zi * zi * zi))),
        den % gp() != 0,
        cong(den * inv, 1),
        cong(lam, num * inv),
    ensures
        cong(lam, d * w),
{
    let t = z * zi;
    let zc = zi * zi * zi;
    let z4 = z * z * (z * z);
    let z4i = zi * zc;
    let dd = 3 * x * x + a * z4;
    let xx = 3 * (x * (zi * zi)) * (x * (zi * zi));
    // d·w·den ≡ dd·(2yw)·zc ≡ dd·zi·zc
    lemma_cong_mul(d, dd, w, w);
    lemma_cong_mul(d * w, dd * w, den, 2 * (y * zc));
    assert(dd * w * (2 * (y * zc)) == dd * (2 * y * w) * zc) by (nonlinear_arith);
    lemma_cong_mul(dd, dd, 2 * y * w, zi);
    lemma_cong_mul(dd * (2 * y * w), dd * zi, zc, zc);
    assert(dd * zi * zc == dd * z4i) by (nonlinear_arith)
        requires
            z4i == zi * zc,
    ;
    // dd·zi⁴ = 3(x zi²)² + a·t⁴ ≡ 3(x zi²)² + a
    assert(dd * z4i == 3 * x * x * z4i + a * (z4 * z4i)) by (nonlinear_arith)
        requires
            dd == 3 * x * x + a * z4,
    ;
    assert(3 * x * x * z4i == xx) by (nonlinear_arith)
        requires
            z4i == zi * zc,
            zc == zi * zi * zi,
            xx == 3 * (x * (zi * zi)) * (x * (zi * zi)),
    ;
    lemma_pow4_of_product(z, zi);
    assert(z4 * z4i == t * t * (t * t));
    lemma_cong_mul(t, 1, t, 1);
    lemma_cong_mul(t * t, 1, t * t, 1);
    lemma_cong_mul(a, a, t * t * (t * t), 1);
    lemma_cong_add(xx, xx, a * (t * t * (t * t)), a * 1);
    // λ·den ≡ num·I·den ≡ num
    lemma_cong_mul(lam, num * inv, den, den);
    assert(num * inv * den == num * (den * inv)) by (nonlinear_arith);
    lemma_cong_times_one(num, den * inv);
    lemma_cancel(lam, d * w, den);
}

/// The x-coordinate: X3 = d² − 2b with b ≡ 4xy², scaled by w², is
/// λ² − 2·x·zi².
proof fn lemma_double_x(x: int, y: int, zi: int, w: int, d: int, b: int, x3: int, w2: int, lam: int)
    requires
        cong(x3, d * d - 2 * b),
        cong(b, 4 * x * (y * y)),
        cong(w2, w * w),
        cong(lam, d * w),
        cong(zi * zi, 4 * y * y * w * w),
    ensures
        cong(x3 * w2, lam * lam - 2 * (x * (zi * zi))),
{
    let bb = 4 * x * (y * y);
    lemma_cong_mul(2, 2, b, bb);
    lemma_cong_sub(x3, d * d - 2 * b, 0, 0);
    lemma_cong_sub(d * d, d * d, 2 * b, 2 * bb);
    lemma_cong_mul(x3, d * d - 2 * bb, w2, w * w);
    let ww = w * w;
    assert((d * d - 2 * bb) * ww == d * d * ww - 2 * (bb * ww)) by (nonlinear_arith);
    assert(d * d * ww == (d * w) * (d * w)) by (nonlinear_arith)
        requires
            ww == w * w,
    ;
    assert(bb * ww == x * (4 * y * y * w * w)) by (nonlinear_arith)
        requires
            bb == 4 * x * (y * y),
            ww == w * w,
    ;
    lemma_cong_mul(d * w, lam, d * w, lam);
    lemma_cong_mul(x, x, 4 * y * y * w * w, zi * zi);
    lemma_cong_mul(2, 2, x * (4 * y * y * w * w), x * (zi * zi));
    lemma_cong_sub((d * w) * (d * w), lam * lam, 2 * (x * (4 * y * y * w * w)), 2 * (x * (zi * zi)));
}

/// The y-coordinate: Y3 = d·(b − X3) − c with b ≡ 4xy², c ≡ 8y⁴, scaled
/// by w³, is λ·(xa − x3') − ya.
proof fn lemma_double_y(
    x: int,
    y: int,
    zi: int,
    w: int,
    d: int,
    b: int,
    c: int,
    x3: int,
    y3: int,
    w2: int,
    w3: int,
    lam: int,
    xa: int,
    ya: int,
    ex3: int,
)
    requires
        cong(y3, d * (b - x3) - c),
        cong(b, 4 * x * (y * y)),
        cong(c, 8 * (y * y) * (y * y)),
        cong(w2, w * w),
        cong(w3, w * w * w),
        cong(lam, d * w),
        cong(zi * zi, 4 * y * y * w * w),
        cong(zi * zi * zi, 8 * y * y * y * w * w * w),
        cong(xa, x * (zi * zi)),
        cong(ya, y * (zi * zi * zi)),
        cong(x3 * w2, ex3),
    ensures
        cong(y3 * w3, lam * (xa - ex3) - ya),
{
    let bb = 4 * x * (y * y);
    let cc = 8 * (y * y) * (y * y);
    lemma_cong_sub(b, bb, x3, x3);
    lemma_cong_mul(d, d, b - x3, bb - x3);
    lemma_cong_sub(d * (b - x3), d * (bb - x3), c, cc);
    lemma_cong_mul(y3, d * (bb - x3) - cc, w3, w * w * w);
    let w3i = w * w * w;
    assert((d * (bb - x3) - cc) * w3i == d * (bb - x3) * w3i - cc * w3i) by (nonlinear_arith);
    assert(d * (bb - x3) * w3i == (d * w) * (bb * (w * w) - x3 * (w * w))) by (nonlinear_arith)
        requires
            w3i == w * w * w,
    ;
    assert(bb * (w * w) == x * (4 * y * y * w * w)) by (nonlinear_arith)
        requires
            bb == 4 * x * (y * y),
    ;
    assert(cc * w3i == y * (8 * y * y * y * w * w * w)) by (nonlinear_arith)
        requires
            cc == 8 * (y * y) * (y * y),
            w3i == w * w * w,
    ;
    // x·4y²w² ≡ x·zi² ≡ xa
    lemma_cong_mul(x, x, 4 * y * y * w * w, zi * zi);
    // x3·w² ≡ x3·w2 ≡ ex3
    lemma_cong_mul(x3, x3, w * w, w2);
    lemma_cong_sub(x * (4 * y * y * w * w), xa, x3 * (w * w), ex3);
    lemma_cong_mul(d * w, lam, x * (4 * y * y * w * w) - x3 * (w * w), xa - ex3);
    lemma_cong_mul(y, y, 8 * y * y * y * w * w * w, zi * zi * zi);
    lemma_cong_sub(
        (d * w) * (x * (4 * y * y * w * w) - x3 * (w * w)),
        lam * (xa - ex3),
        y * (8 * y * y * y * w * w * w),
        ya,
    );
}

/// A nonzero canonical residue.
proof fn lemma_nonzero_canonical(u: int)
    requires
        0 < u < gp(),
    ensures
        u % gp() != 0,
{
    lemma_canonical(u);
}

/// The inverses and nonzero values of a Jacobian doubling with Y, Z ≠ 0.
proof fn lemma_double_inverses(y: int, z: int, zi: int, zi2: int, zi3: int, ya: int, z3: int, den: int)
    requires
        0 < y < gp(),
        0 < z < gp(),
        zi == finv(z, gp()),
        zi2 == fmul(zi, zi, gp()),
        zi3 == fmul(zi2, zi, gp()),
        ya == fmul(y, zi3, gp()),
        z3 == fmul(fmul(2, y, gp()), z, gp()),
        den == fmul(2, ya, gp()),
    ensures
        0 <= zi < gp(),
        cong(z * zi, 1),
        0 < z3 < gp(),
        cong(z3, 2 * y * z),
        0 < ya < gp(),
        0 < den < gp(),
        cong(den, 2 * (y * (zi * zi * zi))),
        cong(zi2, zi * zi),
        cong(ya, y * (zi * zi * zi)),
{
    let p = gp();
    lemma_finv(z);
    lemma_canonical(zi);
    if zi == 0 {
        assert(z * zi == 0) by (nonlinear_arith)
            requires
                zi == 0,
        ;
        lemma_small_mod(1, p as nat);
        assert(false);
    }
    lemma_nonzero_canonical(2);
    lemma_nonzero_canonical(y);
    lemma_nonzero_canonical(z);
    lemma_nonzero_canonical(zi);
    lemma_nonzero_product(2, y);
    lemma_nonzero_product(2 * y, z);
    lemma_cong_ops(2, y);
    lemma_cong_ops(fmul(2, y, p), z);
    lemma_cong_mul(fmul(2, y, p), 2 * y, z, z);
    lemma_fmul_range(fmul(2, y, p), z);
    lemma_canonical(z3);
    lemma_cong_ops(zi, zi);
    lemma_cong_ops(zi2, zi);
    lemma_cong_ops(y, zi3);
    lemma_fmul_range(zi, zi);
    lemma_fmul_range(zi2, zi);
    lemma_fmul_range(y, zi3);
    lemma_nonzero_product(zi, zi);
    lemma_canonical(zi2);
    lemma_nonzero_product(zi2, zi);
    lemma_canonical(zi3);
    lemma_nonzero_product(y, zi3);
    lemma_canonical(ya);
    lemma_cong_ops(2, ya);
    lemma_fmul_range(2, ya);
    lemma_nonzero_product(2, ya);
    lemma_canonical(den);
    lemma_cong_mul(zi2, zi * zi, zi, zi);
    lemma_cong_mul(y, y, zi3, zi * zi * zi);
    lemma_cong_mul(2, 2, ya, y * (zi * zi * zi));
}

/// The congruences of the Jacobian doubling's intermediate values.
proof fn lemma_double_terms(
    x: int,
    y: int,
    z: int,
    a: int,
    zi: int,
    zi2: int,
    xa: int,
    num: int,
    aa: int,
    b: int,
    c: int,
    d: int,
)
    requires
        cong(zi2, zi * zi),
        xa == fmul(x, zi2, gp()),
        num == fadd(fmul(fmul(3, xa, gp()), xa, gp()), a, gp()),
        aa == fmul(y, y, gp()),
        b == fmul(fmul(4, x, gp()), aa, gp()),
        c == fmul(fmul(8, aa, gp()), aa, gp()),
        d == fadd(fmul(fmul(3, x, gp()), x, gp()), fmul(a, fmul(fmul(z, z, gp()), fmul(z, z, gp()), gp()), gp()), gp()),
    ensures
        cong(xa, x * (zi * zi)),
        cong(num, 3 * (x * (zi * zi)) * (x * (zi * zi)) + a),
        cong(b, 4 * x * (y * y)),
        cong(c, 8 * (y * y) * (y * y)),
        cong(d, 3 * x * x + a * (z * z * (z * z))),
{
    let p = gp();
    lemma_cong_ops(x, zi2);
    lemma_cong_mul(x, x, zi2, zi * zi);
    // num ≡ 3·xa² + a
    lemma_cong_ops(3, xa);
    lemma_cong_ops(fmul(3, xa, p), xa);
    lemma_cong_ops(fmul(fmul(3, xa, p), xa, p), a);
    lemma_cong_mul(fmul(3, xa, p), 3 * xa, xa, xa);
    lemma_cong_mul(3, 3, xa, x * (zi * zi));
    lemma_cong_mul(3 * xa, 3 * (x * (zi * zi)), xa, x * (zi * zi));
    lemma_cong_add(fmul(fmul(3, xa, p), xa, p), 3 * (x * (zi * zi)) * (x * (zi * zi)), a, a);
    // d ≡ 3x² + az⁴
    let z2 = fmul(z, z, p);
    let z4 = fmul(z2, z2, p);
    let az4 = fmul(a, z4, p);
    lemma_cong_ops(3, x);
    lemma_cong_ops(fmul(3, x, p), x);
    lemma_cong_mul(fmul(3, x, p), 3 * x, x, x);
    lemma_cong_ops(z, z);
    lemma_cong_ops(z2, z2);
    lemma_cong_mul(z2, z * z, z2, z * z);
    lemma_cong_ops(a, z4);
    lemma_cong_mul(a, a, z4, z * z * (z * z));
    lemma_cong_ops(fmul(fmul(3, x, p), x, p), az4);
    lemma_cong_add(fmul(fmul(3, x, p), x, p), 3 * x * x, az4, a * (z * z * (z * z)));
    // b ≡ 4x·y², c ≡ 8y⁴
    lemma_cong_ops(y, y);
    lemma_cong_ops(4, x);
    lemma_cong_ops(fmul(4, x, p), aa);
    lemma_cong_mul(fmul(4, x, p), 4 * x, aa, y * y);
    lemma_cong_ops(8, aa);
    lemma_cong_ops(fmul(8, aa, p), aa);
    lemma_cong_mul(8, 8, aa, y * y);
    lemma_cong_mul(fmul(8, aa, p), 8 * (y * y), aa, y * y);
}

/// X3 ≡ d² − 2b, Y3 ≡ d(b − X3) − c, w2 ≡ w², w3 ≡ w³, λ ≡ num·I.
proof fn lemma_double_outputs(
    d: int,
    b: int,
    c: int,
    x3: int,
    y3: int,
    w: int,
    w2: int,
    w3: int,
    num: int,
    inv: int,
    lam: int,
)
    requires
        x3 == fsub(fmul(d, d, gp()), fmul(2, b, gp()), gp()),
        y3 == fsub(fmul(d, fsub(b, x3, gp()), gp()), c, gp()),
        w2 == fmul(w, w, gp()),
        w3 == fmul(w2, w, gp()),
        lam == fmul(num, inv, gp()),
    ensures
        cong(x3, d * d - 2 * b),
        cong(y3, d * (b - x3) - c),
        cong(w2, w * w),
        cong(w3, w * w * w),
        cong(lam, num * inv),
{
    let p = gp();
    lemma_cong_ops(d, d);
    lemma_cong_ops(2, b);
    lemma_cong_ops(fmul(d, d, p), fmul(2, b, p));
    lemma_cong_sub(fmul(d, d, p), d * d, fmul(2, b, p), 2 * b);
    lemma_cong_ops(b, x3);
    lemma_cong_ops(d, fsub(b, x3, p));
    lemma_cong_mul(d, d, fsub(b, x3, p), b - x3);
    lemma_cong_ops(fmul(d, fsub(b, x3, p), p), c);
    lemma_cong_sub(fmul(d, fsub(b, x3, p), p), d * (b - x3), c, c);
    lemma_cong_ops(w, w);
    lemma_cong_ops(w2, w);
    lemma_cong_mul(w2, w * w, w, w);
    lemma_cong_ops(num, inv);
}

/// The affine doubling formulas reduce to λ² − 2·xa and λ·(xa − x3) − ya.
proof fn lemma_affine_double_terms(lam: int, xa: int, ya: int, ex3: int, ey3: int, xz: int)
    requires
        ex3 == fsub(fsub(fmul(lam, lam, gp()), xa, gp()), xa, gp()),
        ey3 == fsub(fmul(lam, fsub(xa, ex3, gp()), gp()), ya, gp()),
        cong(xa, xz),
    ensures
        cong(ex3, lam * lam - 2 * xz),
        cong(ey3, lam * (xa - ex3) - ya),
        0 <= ex3 < gp(),
        0 <= ey3 < gp(),
{
    let p = gp();
    lemma_cong_ops(lam, lam);
    lemma_cong_ops(fmul(lam, lam, p), xa);
    lemma_cong_ops(fsub(fmul(lam, lam, p), xa, p), xa);
    lemma_cong_sub(fmul(lam, lam, p), lam * lam, xa, xz);
    lemma_cong_sub(fsub(fmul(lam, lam, p), xa, p), lam * lam - xz, xa, xz);
    lemma_cong_ops(xa, ex3);
    lemma_cong_ops(lam, fsub(xa, ex3, p));
    lemma_cong_mul(lam, lam, fsub(xa, ex3, p), xa - ex3);
    lemma_cong_ops(fmul(lam, fsub(xa, ex3, p), p), ya);
    lemma_cong_sub(fmul(lam, fsub(xa, ex3, p), p), lam * (xa - ex3), ya, ya);
    lemma_fmul_range(fsub(fmul(lam, lam, p), xa, p), xa);
    lemma_fmul_range(fmul(lam, fsub(xa, ex3, p), p), ya);
}

/// Doubling in Jacobian coordinates agrees with affine doubling: the
/// affine image of the Jacobian double of (X, Y, Z) is the affine double of
/// the affine image of (X, Y, Z), for canonical coordinates and curve
/// coefficient a over the Goldilocks field.
#[verifier::rlimit(100)]
pub proof fn lemma_jacobian_double_matches_affine(x: int, y: int, z: int, a: int)
    requires
        0 <= x < gp(),
        0 <= y < gp(),
        0 <= z < gp(),
        0 <= a < gp(),
    ensures
        ({
            let r = jac_double(x, y, z, a, gp());
            jac_to_affine(r.0, r.1, r.2, gp())
        }) == ec_double(jac_to_affine(x, y, z, gp()), a, gp()),
{
    let p = gp();
    if z != 0 {
        let zi = finv(z, p);
        let zi2 = fmul(zi, zi, p);
        let zi3 = fmul(zi2, zi, p);
        let xa = fmul(x, zi2, p);
        let ya = fmul(y, zi3, p);
        let z2 = fmul(z, z, p);
        let z4 = fmul(z2, z2, p);
        let az4 = fmul(a, z4, p);
        let aa = fmul(y, y, p);
        let b = fmul(fmul(4, x, p), aa, p);
        let c = fmul(fmul(8, aa, p), aa, p);
        let d = fadd(fmul(fmul(3, x, p), x, p), az4, p);
        let x3 = fsub(fmul(d, d, p), fmul(2, b, p), p);
        let y3 = fsub(fmul(d, fsub(b, x3, p), p), c, p);
        let z3 = fmul(fmul(2, y, p), z, p);
        assert(jac_double_cached(x, y, z, az4, p) == (x3, y3, z3, fmul(fmul(2, c, p), az4, p)));
        assert(jac_to_affine(x, y, z, p) == Some((xa, ya)));
        if y == 0 {
            lemma_small_mod(0, p as nat);
            assert(fmul(2, 0, p) == 0);
            assert(0 * z == 0);
            assert(z3 == 0);
            assert(0 * zi3 == 0);
            assert(ya == 0);
        } else {
            let den = fmul(2, ya, p);
            lemma_double_inverses(y, z, zi, zi2, zi3, ya, z3, den);
            let w = finv(z3, p);
            lemma_finv(z3);
            lemma_cong_mul(z3, 2 * y * z, w, w);
            lemma_inverse_relations(y, z, zi, w);
            let w2 = fmul(w, w, p);
            let w3 = fmul(w2, w, p);
            assert(jac_to_affine(x3, y3, z3, p) == Some((fmul(x3, w2, p), fmul(y3, w3, p))));
            let inv = finv(den, p);
            lemma_finv(den);
            let num = fadd(fmul(fmul(3, xa, p), xa, p), a, p);
            let lam = fmul(num, inv, p);
            let ex3 = fsub(fsub(fmul(lam, lam, p), xa, p), xa, p);
            let ey3 = fsub(fmul(lam, fsub(xa, ex3, p), p), ya, p);
            assert(ec_double(Some((xa, ya)), a, p) == Some((ex3, ey3)));
            lemma_double_terms(x, y, z, a, zi, zi2, xa, num, aa, b, c, d);
            lemma_double_outputs(d, b, c, x3, y3, w, w2, w3, num, inv, lam);
            lemma_double_slope(x, y, z, a, zi, w, d, num, den, inv, lam);
            lemma_affine_double_terms(lam, xa, ya, ex3, ey3, x * (zi * zi));
            assert(fmul(x3, w2, p) == ex3) by {
                lemma_double_x(x, y, zi, w, d, b, x3, w2, lam);
                lemma_cong_ops(x3, w2);
                lemma_fmul_range(x3, w2);
                lemma_cong_canonical(fmul(x3, w2, p), ex3);
            }
            assert(fmul(y3, w3, p) == ey3) by {
                lemma_cong_ops(x3, w2);
                lemma_double_y(x, y, zi, w, d, b, c, x3, y3, w2, w3, lam, xa, ya, ex3);
                lemma_cong_ops(y3, w3);
                lemma_fmul_range(y3, w3);
                lemma_cong_canonical(fmul(y3, w3, p), ey3);
            }
        }
    }
}

/// Modified Jacobian doubling keeps its cache: when the cached term is aZ⁴,
/// the doubled point's cached term is aZ3⁴, and its coordinates are those of
/// plain Jacobian doubling.
pub proof fn lemma_modified_double_keeps_cache(x: int, y: int, z: int, a: int, az4: int)
    requires
        az4 == fmul(a, fmul(fmul(z, z, gp()), fmul(z, z, gp()), gp()), gp()),
    ensures
        ({
            let r = jac_double_cached(x, y, z, az4, gp());
            &&& (r.0, r.1, r.2) == jac_double(x, y, z, a, gp())
            &&& r.3 == fmul(a, fmul(fmul(r.2, r.2, gp()), fmul(r.2, r.2, gp()), gp()), gp())
        }),
{
    let p = gp();
    if z != 0 {
        let aa = fmul(y, y, p);
        let c = fmul(fmul(8, aa, p), aa, p);
        let z3 = fmul(fmul(2, y, p), z, p);
        let c2 = fmul(fmul(2, c, p), az4, p);
        let z32 = fmul(z3, z3, p);
        let target = fmul(a, fmul(z32, z32, p), p);
        // c2 ≡ 2·8y⁴·a·z⁴
        lemma_cong_ops(y, y);
        lemma_cong_ops(8, aa);
        lemma_cong_ops(fmul(8, aa, p), aa);
        lemma_cong_mul(8, 8, aa, y * y);
        lemma_cong_mul(fmul(8, aa, p), 8 * (y * y), aa, y * y);
        let z2 = fmul(z, z, p);
        let z4 = fmul(z2, z2, p);
        lemma_cong_ops(z, z);
        lemma_cong_ops(z2, z2);
        lemma_cong_mul(z2, z * z, z2, z * z);
        lemma_cong_ops(a, z4);
        lemma_cong_mul(a, a, z4, z * z * (z * z));
        lemma_cong_ops(2, c);
        lemma_cong_ops(fmul(2, c, p), az4);
        lemma_cong_mul(2, 2, c, 8 * (y * y) * (y * y));
        lemma_cong_mul(fmul(2, c, p), 2 * (8 * (y * y) * (y * y)), az4, a * (z * z * (z * z)));
        // target ≡ a·(2yz)⁴
        lemma_cong_ops(2, y);
        lemma_cong_ops(fmul(2, y, p), z);
        lemma_cong_mul(fmul(2, y, p), 2 * y, z, z);
        lemma_cong_ops(z3, z3);
        lemma_cong_mul(z3, fmul(2, y, p) * z, z3, fmul(2, y, p) * z);
        lemma_cong_mul(z3, 2 * y * z, z3, 2 * y * z);
        lemma_cong_ops(z32, z32);
        lemma_cong_mul(z32, (2 * y * z) * (2 * y * z), z32, (2 * y * z) * (2 * y * z));
        lemma_cong_ops(a, fmul(z32, z32, p));
        lemma_cong_mul(
            a,
            a,
            fmul(z32, z32, p),
            (2 * y * z) * (2 * y * z) * ((2 * y * z) * (2 * y * z)),
        );
        assert(2 * (8 * (y * y) * (y * y)) * (a * (z * z * (z * z))) == a * ((2 * y * z) * (2 * y * z) * ((2
            * y * z) * (2 * y * z)))) by (nonlinear_arith);
        lemma_fmul_range(fmul(2, c, p), az4);
        lemma_fmul_range(a, fmul(z32, z32, p));
        lemma_cong_canonical(c2, target);
    }
}

/// With z·zi ≡ 1 and (z·h)·w ≡ 1: h·w ≡ zi, and so its square and cube.
proof fn lemma_mixed_relations(h: int, z: int, zi: int, w: int)
    requires
        cong(z * zi, 1),
        cong(z * h * w, 1),
    ensures
        cong(h * w, zi),
        cong((h * w) * (h * w), zi * zi),
        cong((h * w) * (h * w) * (h * w), zi * zi * zi),
{
    assert((h * w) * (z * zi) == zi * (z * h * w)) by (nonlinear_arith);
    lemma_cong_times_one(h * w, z * zi);
    lemma_cong_times_one(zi, z * h * w);
    lemma_cong_mul(h * w, zi, h * w, zi);
    lemma_cong_mul((h * w) * (h * w), zi * zi, h * w, zi);
}

/// The Jacobian differences h ≡ x2·z² − x and r ≡ y2·z³ − y, scaled by
/// zi² and zi³, are the affine differences, and back.
proof fn lemma_mixed_differences(
    x: int,
    y: int,
    z: int,
    zi: int,
    x2: int,
    y2: int,
    h: int,
    r: int,
    xa: int,
    ya: int,
)
    requires
        cong(z * zi, 1),
        cong(h, x2 * (z * z) - x),
        cong(r, y2 * (z * z * z) - y),
        cong(xa, x * (zi * zi)),
        cong(ya, y * (zi * zi * zi)),
    ensures
        cong(x2 - xa, h * (zi * zi)),
        cong(y2 - ya, r * (zi * zi * zi)),
        cong(h, (x2 - xa) * (z * z)),
        cong(r, (y2 - ya) * (z * z * z)),
{
    let t = z * zi;
    lemma_cong_mul(t, 1, t, 1);
    lemma_cong_mul(t * t, 1, t, 1);
    // h·zi² ≡ x2·t² − x·zi² ≡ x2 − xa
    lemma_cong_mul(h, x2 * (z * z) - x, zi * zi, zi * zi);
    assert((x2 * (z * z) - x) * (zi * zi) == x2 * (t * t) - x * (zi * zi)) by (nonlinear_arith)
        requires
            t == z * zi,
    ;
    lemma_cong_mul(x2, x2, t * t, 1);
    lemma_cong_sub(x2 * (t * t), x2 * 1, x * (zi * zi), xa);
    // r·zi³ ≡ y2·t³ − y·zi³ ≡ y2 − ya
    lemma_cong_mul(r, y2 * (z * z * z) - y, zi * zi * zi, zi * zi * zi);
    assert((y2 * (z * z * z) - y) * (zi * zi * zi) == y2 * (t * t * t) - y * (zi * zi * zi))
        by (nonlinear_arith)
        requires
            t == z * zi,
    ;
    lemma_cong_mul(y2, y2, t * t * t, 1);
    lemma_cong_sub(y2 * (t * t * t), y2 * 1, y * (zi * zi * zi), ya);
    // (x2 − xa)·z² ≡ x2·z² − x·t² ≡ h
    lemma_cong_sub(x2, x2, xa, x * (zi * zi));
    lemma_cong_mul(x2 - xa, x2 - x * (zi * zi), z * z, z * z);
    assert((x2 - x * (zi * zi)) * (z * z) == x2 * (z * z) - x * (t * t)) by (nonlinear_arith)
        requires
            t == z * zi,
    ;
    lemma_cong_mul(x, x, t * t, 1);
    lemma_cong_sub(x2 * (z * z), x2 * (z * z), x * (t * t), x * 1);
    // (y2 − ya)·z³ ≡ y2·z³ − y·t³ ≡ r
    lemma_cong_sub(y2, y2, ya, y * (zi * zi * zi));
    lemma_cong_mul(y2 - ya, y2 - y * (zi * zi * zi), z * z * z, z * z * z);
    assert((y2 - y * (zi * zi * zi)) * (z * z * z) == y2 * (z * z * z) - y * (t * t * t))
        by (nonlinear_arith)
        requires
            t == z * zi,
    ;
    lemma_cong_mul(y, y, t * t * t, 1);
    lemma_cong_sub(y2 * (z * z * z), y2 * (z * z * z), y * (t * t * t), y * 1);
}

/// The congruences of the mixed addition's intermediate values.
proof fn lemma_mixed_terms(
    x: int,
    y: int,
    z: int,
    x2: int,
    y2: int,
    h: int,
    r: int,
    hsq: int,
    hcu: int,
    x3: int,
    y3: int,
)
    requires
        h == fsub(fmul(x2, fmul(z, z, gp()), gp()), x, gp()),
        r == fsub(fmul(y2, fmul(fmul(z, z, gp()), z, gp()), gp()), y, gp()),
        hsq == fmul(h, h, gp()),
        hcu == fmul(hsq, h, gp()),
        x3 == fsub(fsub(fmul(r, r, gp()), hcu, gp()), fmul(fmul(2, x, gp()), hsq, gp()), gp()),
        y3 == fsub(fmul(r, fsub(fmul(x, hsq, gp()), x3, gp()), gp()), fmul(y, hcu, gp()), gp()),
    ensures
        cong(h, x2 * (z * z) - x),
        cong(r, y2 * (z * z * z) - y),
        cong(x3, r * r - h * h * h - 2 * x * (h * h)),
        cong(y3, r * (x * (h * h) - x3) - y * (h * h * h)),
{
    let p = gp();
    let z2 = fmul(z, z, p);
    let z3c = fmul(z2, z, p);
    lemma_cong_ops(z, z);
    lemma_cong_ops(z2, z);
    lemma_cong_mul(z2, z * z, z, z);
    lemma_cong_ops(x2, z2);
    lemma_cong_mul(x2, x2, z2, z * z);
    lemma_cong_ops(fmul(x2, z2, p), x);
    lemma_cong_sub(fmul(x2, z2, p), x2 * (z * z), x, x);
    lemma_cong_ops(y2, z3c);
    lemma_cong_mul(y2, y2, z3c, z * z * z);
    lemma_cong_ops(fmul(y2, z3c, p), y);
    lemma_cong_sub(fmul(y2, z3c, p), y2 * (z * z * z), y, y);
    // h², h³
    lemma_cong_ops(h, h);
    lemma_cong_ops(hsq, h);
    lemma_cong_mul(hsq, h * h, h, h);
    // x3
    lemma_cong_ops(r, r);
    lemma_cong_ops(fmul(r, r, p), hcu);
    lemma_cong_sub(fmul(r, r, p), r * r, hcu, h * h * h);
    lemma_cong_ops(2, x);
    lemma_cong_ops(fmul(2, x, p), hsq);
    lemma_cong_mul(fmul(2, x, p), 2 * x, hsq, h * h);
    lemma_cong_ops(fsub(fmul(r, r, p), hcu, p), fmul(fmul(2, x, p), hsq, p));
    lemma_cong_sub(fsub(fmul(r, r, p), hcu, p), r * r - h * h * h, fmul(fmul(2, x, p), hsq, p), 2 * x * (h * h));
    // y3
    lemma_cong_ops(x, hsq);
    lemma_cong_mul(x, x, hsq, h * h);
    lemma_cong_ops(fmul(x, hsq, p), x3);
    lemma_cong_sub(fmul(x, hsq, p), x * (h * h), x3, x3);
    lemma_cong_ops(r, fsub(fmul(x, hsq, p), x3, p));
    lemma_cong_mul(r, r, fsub(fmul(x, hsq, p), x3, p), x * (h * h) - x3);
    lemma_cong_ops(y, hcu);
    lemma_cong_mul(y, y, hcu, h * h * h);
    lemma_cong_ops(fmul(r, fsub(fmul(x, hsq, p), x3, p), p), fmul(y, hcu, p));
    lemma_cong_sub(fmul(r, fsub(fmul(x, hsq, p), x3, p), p), r * (x * (h * h) - x3), fmul(y, hcu, p), y * (h * h * h));
}

/// The chord slope: with dx ≡ h·zi² nonzero, dy ≡ r·zi³, dx·I ≡ 1,
/// λ ≡ dy·I and h·w ≡ zi: λ ≡ r·w.
proof fn lemma_mixed_slope(h: int, r: int, zi: int, w: int, dx: int, dy: int, inv: int, lam: int)
    requires
        cong(dx, h * (zi * zi)),
        cong(dy, r * (zi * zi * zi)),
        dx % gp() != 0,
        cong(dx * inv, 1),
        cong(lam, dy * inv),
        cong(h * w, zi),
    ensures
        cong(lam, r * w),
{
    // (r·w)·dx ≡ r·zi²·(h·w) ≡ r·zi³ ≡ dy
    lemma_cong_mul(r * w, r * w, dx, h * (zi * zi));
    assert((r * w) * (h * (zi * zi)) == r * (zi * zi) * (h * w)) by (nonlinear_arith);
    lemma_cong_mul(r * (zi * zi), r * (zi * zi), h * w, zi);
    assert(r * (zi * zi) * zi == r * (zi * zi * zi)) by (nonlinear_arith);
    // λ·dx ≡ dy·I·dx ≡ dy
    lemma_cong_mul(lam, dy * inv, dx, dx);
    assert(dy * inv * dx == dy * (dx * inv)) by (nonlinear_arith);
    lemma_cong_times_one(dy, dx * inv);
    lemma_cancel(lam, r * w, dx);
}

/// The x-coordinate of the chord: X3·w² ≡ λ² − h·zi² − 2x·zi².
proof fn lemma_mixed_x(x: int, h: int, r: int, zi: int, w: int, x3: int, w2: int, lam: int)
    requires
        cong(x3, r * r - h * h * h - 2 * x * (h * h)),
        cong(w2, w * w),
        cong(lam, r * w),
        cong((h * w) * (h * w), zi * zi),
    ensures
        cong(x3 * w2, lam * lam - h * (zi * zi) - 2 * (x * (zi * zi))),
{
    let hw2 = (h * w) * (h * w);
    lemma_cong_mul(x3, r * r - h * h * h - 2 * x * (h * h), w2, w * w);
    let ww = w * w;
    let h3 = h * h * h;
    let xh = 2 * x * (h * h);
    assert((r * r - h3 - xh) * ww == r * r * ww - h3 * ww - xh * ww) by (nonlinear_arith);
    assert(r * r * ww == (r * w) * (r * w)) by (nonlinear_arith)
        requires
            ww == w * w,
    ;
    assert(h3 * ww == h * hw2) by (nonlinear_arith)
        requires
            h3 == h * h * h,
            ww == w * w,
            hw2 == (h * w) * (h * w),
    ;
    assert(xh * ww == 2 * (x * hw2)) by (nonlinear_arith)
        requires
            xh == 2 * x * (h * h),
            ww == w * w,
            hw2 == (h * w) * (h * w),
    ;
    lemma_cong_mul(r * w, lam, r * w, lam);
    lemma_cong_mul(h, h, hw2, zi * zi);
    lemma_cong_mul(x, x, hw2, zi * zi);
    lemma_cong_mul(2, 2, x * hw2, x * (zi * zi));
    lemma_cong_sub((r * w) * (r * w), lam * lam, h * hw2, h * (zi * zi));
    lemma_cong_sub((r * w) * (r * w) - h * hw2, lam * lam - h * (zi * zi), 2 * (x * hw2), 2 * (x * (zi * zi)));
}

/// The y-coordinate of the chord: Y3·w³ ≡ λ·(xa − ex3) − ya.
proof fn lemma_mixed_y(
    x: int,
    y: int,
    h: int,
    r: int,
    zi: int,
    w: int,
    x3: int,
    y3: int,
    w2: int,
    w3: int,
    lam: int,
    xa: int,
    ya: int,
    ex3: int,
)
    requires
        cong(y3, r * (x * (h * h) - x3) - y * (h * h * h)),
        cong(w2, w * w),
        cong(w3, w * w * w),
        cong(lam, r * w),
        cong((h * w) * (h * w), zi * zi),
        cong((h * w) * (h * w) * (h * w), zi * zi * zi),
        cong(xa, x * (zi * zi)),
        cong(ya, y * (zi * zi * zi)),
        cong(x3 * w2, ex3),
    ensures
        cong(y3 * w3, lam * (xa - ex3) - ya),
{
    let hw2 = (h * w) * (h * w);
    let hw3 = (h * w) * (h * w) * (h * w);
    let ww = w * w;
    let www = w * w * w;
    lemma_cong_mul(y3, r * (x * (h * h) - x3) - y * (h * h * h), w3, www);
    assert((r * (x * (h * h) - x3) - y * (h * h * h)) * www == r * (x * (h * h) - x3) * www - y
        * (h * h * h) * www) by (nonlinear_arith);
    let aa = x * (h * h);
    assert(r * (aa - x3) * www == (r * w) * ((aa - x3) * ww)) by (nonlinear_arith)
        requires
            www == w * w * w,
            ww == w * w,
    ;
    assert((aa - x3) * ww == aa * ww - x3 * ww) by (nonlinear_arith);
    assert(aa * ww == x * hw2) by (nonlinear_arith)
        requires
            aa == x * (h * h),
            ww == w * w,
            hw2 == (h * w) * (h * w),
    ;
    assert(y * (h * h * h) * www == y * hw3) by (nonlinear_arith)
        requires
            www == w * w * w,
            hw3 == (h * w) * (h * w) * (h * w),
    ;
    lemma_cong_mul(x, x, hw2, zi * zi);
    lemma_cong_mul(x3, x3, ww, w2);
    lemma_cong_sub(x * hw2, xa, x3 * ww, ex3);
    lemma_cong_mul(r * w, lam, x * hw2 - x3 * ww, xa - ex3);
    lemma_cong_mul(y, y, hw3, zi * zi * zi);
    lemma_cong_sub((r * w) * (x * hw2 - x3 * ww), lam * (xa - ex3), y * hw3, ya);
}

/// The affine image (x·zi², y·zi³) of a Jacobian point with z ≠ 0.
proof fn lemma_affine_image(x: int, y: int, z: int, zi: int, zi2: int, zi3: int, xa: int, ya: int)
    requires
        0 < z < gp(),
        zi == finv(z, gp()),
        zi2 == fmul(zi, zi, gp()),
        zi3 == fmul(zi2, zi, gp()),
        xa == fmul(x, zi2, gp()),
        ya == fmul(y, zi3, gp()),
    ensures
        0 < zi < gp(),
        cong(z * zi, 1),
        cong(zi2, zi * zi),
        cong(xa, x * (zi * zi)),
        cong(ya, y * (zi * zi * zi)),
        0 <= xa < gp(),
        0 <= ya < gp(),
{
    let p = gp();
    lemma_finv(z);
    if zi == 0 {
        assert(z * zi == 0) by (nonlinear_arith)
            requires
                zi == 0,
        ;
        lemma_small_mod(0, p as nat);
        lemma_small_mod(1, p as nat);
        assert(false);
    }
    lemma_cong_ops(zi, zi);
    lemma_cong_ops(zi2, zi);
    lemma_cong_mul(zi2, zi * zi, zi, zi);
    lemma_cong_ops(x, zi2);
    lemma_cong_mul(x, x, zi2, zi * zi);
    lemma_cong_ops(y, zi3);
    lemma_cong_mul(y, y, zi3, zi * zi * zi);
    lemma_fmul_range(x, zi2);
    lemma_fmul_range(y, zi3);
}

/// The chord case of mixed addition from the congruences of its values.
#[verifier::rlimit(100)]
proof fn lemma_mixed_chord_core(
    x: int,
    y: int,
    z: int,
    a: int,
    x2: int,
    y2: int,
    zi: int,
    xa: int,
    ya: int,
    h: int,
    r: int,
    x3: int,
    y3: int,
    z3: int,
)
    requires
        0 <= xa < gp(),
        0 <= ya < gp(),
        0 <= x2 < gp(),
        0 <= y2 < gp(),
        x2 != xa,
        0 < z3 < gp(),
        cong(z3, z * h),
        cong(z * zi, 1),
        cong(xa, x * (zi * zi)),
        cong(ya, y * (zi * zi * zi)),
        cong(x2 - xa, h * (zi * zi)),
        cong(y2 - ya, r * (zi * zi * zi)),
        cong(x3, r * r - h * h * h - 2 * x * (h * h)),
        cong(y3, r * (x * (h * h) - x3) - y * (h * h * h)),
    ensures
        jac_to_affine(x3, y3, z3, gp()) == ec_add(Some((xa, ya)), Some((x2, y2)), a, gp()),
{
    let p = gp();
    let w = finv(z3, p);
    lemma_finv(z3);
    lemma_cong_mul(z3, z * h, w, w);
    lemma_mixed_relations(h, z, zi, w);
    let w2 = fmul(w, w, p);
    let w3 = fmul(w2, w, p);
    lemma_cong_ops(w, w);
    lemma_cong_ops(w2, w);
    lemma_cong_mul(w2, w * w, w, w);
    let dx = fsub(x2, xa, p);
    let dy = fsub(y2, ya, p);
    lemma_cong_ops(x2, xa);
    lemma_cong_ops(y2, ya);
    lemma_fmul_range(x2, xa);
    lemma_canonical(dx);
    assert(dx != 0) by {
        lemma_canonical(x2);
        lemma_canonical(xa);
        if dx == 0 {
            lemma_fundamental_div_mod(x2 - xa, p);
            assert(x2 - xa == p * ((x2 - xa) / p));
            assert(false);
        }
    }
    let inv = finv(dx, p);
    lemma_finv(dx);
    let lam = fmul(dy, inv, p);
    lemma_cong_ops(dy, inv);
    let ex3 = fsub(fsub(fmul(lam, lam, p), xa, p), x2, p);
    let ey3 = fsub(fmul(lam, fsub(xa, ex3, p), p), ya, p);
    assert(ec_add(Some((xa, ya)), Some((x2, y2)), a, p) == Some((ex3, ey3)));
    assert(jac_to_affine(x3, y3, z3, p) == Some((fmul(x3, w2, p), fmul(y3, w3, p))));
    lemma_mixed_slope(h, r, zi, w, dx, dy, inv, lam);
    assert(fmul(x3, w2, p) == ex3) by {
        lemma_mixed_x(x, h, r, zi, w, x3, w2, lam);
        lemma_cong_mul(2, 2, x * (zi * zi), xa);
        lemma_cong_sub(lam * lam, lam * lam, h * (zi * zi), x2 - xa);
        lemma_cong_sub(lam * lam - h * (zi * zi), lam * lam - (x2 - xa), 2 * (x * (zi * zi)), 2 * xa);
        lemma_cong_ops(lam, lam);
        lemma_cong_ops(fmul(lam, lam, p), xa);
        lemma_cong_ops(fsub(fmul(lam, lam, p), xa, p), x2);
        lemma_cong_sub(fmul(lam, lam, p), lam * lam, xa, xa);
        lemma_cong_sub(fsub(fmul(lam, lam, p), xa, p), lam * lam - xa, x2, x2);
        lemma_cong_ops(x3, w2);
        lemma_fmul_range(x3, w2);
        lemma_fmul_range(fsub(fmul(lam, lam, p), xa, p), x2);
        lemma_cong_canonical(fmul(x3, w2, p), ex3);
    }
    assert(fmul(y3, w3, p) == ey3) by {
        lemma_cong_ops(x3, w2);
        lemma_mixed_y(x, y, h, r, zi, w, x3, y3, w2, w3, lam, xa, ya, ex3);
        lemma_cong_ops(xa, ex3);
        lemma_cong_ops(lam, fsub(xa, ex3, p));
        lemma_cong_mul(lam, lam, fsub(xa, ex3, p), xa - ex3);
        lemma_cong_ops(fmul(lam, fsub(xa, ex3, p), p), ya);
        lemma_cong_sub(fmul(lam, fsub(xa, ex3, p), p), lam * (xa - ex3), ya, ya);
        lemma_cong_ops(y3, w3);
        lemma_fmul_range(y3, w3);
        lemma_fmul_range(fmul(lam, fsub(xa, ex3, p), p), ya);
        lemma_cong_canonical(fmul(y3, w3, p), ey3);
    }
}

/// An affine point in Jacobian form (x, y, 1) maps back to (x, y).
proof fn lemma_from_affine_roundtrip(q: SpecPoint)
    requires
        q matches Some((x2, y2)) ==> 0 <= x2 < gp() && 0 <= y2 < gp(),
    ensures
        ({
            let j = jac_from_affine(q);
            jac_to_affine(j.0, j.1, j.2, gp())
        }) == q,
{
    let p = gp();
    if let Some((x2, y2)) = q {
        vstd::arithmetic::power::lemma1_pow((p - 2) as nat);
        lemma_small_mod(1, p as nat);
        assert(finv(1, p) == 1);
        assert(fmul(1, 1, p) == 1);
        lemma_small_mod(x2 as nat, p as nat);
        lemma_small_mod(y2 as nat, p as nat);
    }
}

/// Mixed addition in Jacobian coordinates agrees with affine addition: the
/// affine image of (X, Y, Z) + Q is the affine sum of the image of
/// (X, Y, Z) and Q, for canonical coordinates over the Goldilocks field.
#[verifier::rlimit(100)]
pub proof fn lemma_jacobian_mixed_add_matches_affine(x: int, y: int, z: int, q: SpecPoint, a: int)
    requires
        0 <= x < gp(),
        0 <= y < gp(),
        0 <= z < gp(),
        0 <= a < gp(),
        q matches Some((x2, y2)) ==> 0 <= x2 < gp() && 0 <= y2 < gp(),
    ensures
        ({
            let r = jac_mixed_add(x, y, z, q, a, gp());
            jac_to_affine(r.0, r.1, r.2, gp())
        }) == ec_add(jac_to_affine(x, y, z, gp()), q, a, gp()),
{
    let p = gp();
    if z == 0 {
        lemma_from_affine_roundtrip(q);
    } else if let Some((x2, y2)) = q {
        let zi = finv(z, p);
        let zi2 = fmul(zi, zi, p);
        let zi3 = fmul(zi2, zi, p);
        let xa = fmul(x, zi2, p);
        let ya = fmul(y, zi3, p);
        let z1_sq = fmul(z, z, p);
        let z1_cu = fmul(z1_sq, z, p);
        let h = fsub(fmul(x2, z1_sq, p), x, p);
        let r = fsub(fmul(y2, z1_cu, p), y, p);
        let hsq = fmul(h, h, p);
        let hcu = fmul(hsq, h, p);
        let x3 = fsub(fsub(fmul(r, r, p), hcu, p), fmul(fmul(2, x, p), hsq, p), p);
        let y3 = fsub(fmul(r, fsub(fmul(x, hsq, p), x3, p), p), fmul(y, hcu, p), p);
        let z3 = fmul(z, h, p);
        assert(jac_to_affine(x, y, z, p) == Some((xa, ya)));
        lemma_affine_image(x, y, z, zi, zi2, zi3, xa, ya);
        lemma_mixed_terms(x, y, z, x2, y2, h, r, hsq, hcu, x3, y3);
        lemma_mixed_differences(x, y, z, zi, x2, y2, h, r, xa, ya);
        lemma_fmul_range(fmul(x2, z1_sq, p), x);
        lemma_fmul_range(fmul(y2, z1_cu, p), y);
        lemma_canonical(h);
        lemma_canonical(r);
        if h == 0 {
            // same affine x-coordinate
            assert(h * (zi * zi) == 0);
            lemma_small_mod(0, p as nat);
            assert(x2 == xa) by {
                lemma_fundamental_div_mod(x2 - xa, p);
                lemma_canonical(x2);
                lemma_canonical(xa);
            }
            if r == 0 {
                assert(r * (zi * zi * zi) == 0);
                assert(y2 == ya) by {
                    lemma_fundamental_div_mod(y2 - ya, p);
                    lemma_canonical(y2);
                    lemma_canonical(ya);
                }
                assert(jac_mixed_add(x, y, z, q, a, p) == jac_double(x, y, z, a, p));
                lemma_jacobian_double_matches_affine(x, y, z, a);
            } else {
                if y2 == ya {
                    assert((y2 - ya) * (z * z * z) == 0) by (nonlinear_arith)
                        requires
                            y2 == ya,
                    ;
                    assert(false);
                }
                assert(jac_mixed_add(x, y, z, q, a, p) == (1int, 1int, 0int));
            }
        } else {
            if x2 == xa {
                assert((x2 - xa) * (z * z) == 0) by (nonlinear_arith)
                    requires
                        x2 == xa,
                ;
                lemma_small_mod(0, p as nat);
                assert(false);
            }
            assert(jac_mixed_add(x, y, z, q, a, p) == (x3, y3, z3));
            lemma_nonzero_canonical(h);
            lemma_nonzero_canonical(z);
            lemma_nonzero_product(z, h);
            lemma_cong_ops(z, h);
            lemma_fmul_range(z, h);
            lemma_canonical(z3);
            lemma_mixed_chord_core(x, y, z, a, x2, y2, zi, xa, ya, h, r, x3, y3, z3);
        }
    }
}

/// Adding a point to itself is doubling it.
pub proof fn lemma_add_self_is_double(p: SpecPoint, a: int, m: int)
    ensures
        ec_add(p, p, a, m) == ec_double(p, a, m),
{
}

/// Negation is an involution on canonical points.
pub proof fn lemma_neg_involution(p: SpecPoint, m: int)
    requires
        m > 0,
        p matches Some((x, y)) ==> 0 <= x < m && 0 <= y < m,
    ensures
        ec_neg(ec_neg(p, m), m) == p,
{
    if let Some((x, y)) = p {
        lemma_mod_bound(-y, m);
        lemma_fundamental_div_mod(-y, m);
        let q = (-y) / m;
        assert(-((-y) % m) == m * q + y);
        lemma_mod_multiples_vanish(q, y, m);
        lemma_small_mod(y as nat, m as nat);
    }
}

/// A point plus its negation is the point at infinity, over a prime field
/// of odd characteristic.
pub proof fn lemma_add_negation_is_identity(p: SpecPoint, a: int, m: int)
    requires
        is_prime(m),
        m > 2,
        p matches Some((x, y)) ==> 0 <= x < m && 0 <= y < m,
    ensures
        ec_add(p, ec_neg(p, m), a, m) == None::<(int, int)>,
{
    if let Some((x, y)) = p {
        let ny = fneg(y, m);
        if y == ny {
            // y ≡ −y, so m divides 2y, hence y = 0
            lemma_fundamental_div_mod(-y, m);
            let q = (-y) / m;
            assert(2 * y == -(m * q)) by {
                assert(-y == m * q + y);
            }
            assert(2 * y == m * (-q)) by (nonlinear_arith)
                requires
                    2 * y == -(m * q),
            ;
            lemma_mod_multiples_basic(-q, m);
            assert((-q) * m == m * (-q)) by (nonlinear_arith);
            lemma_small_mod(2, m as nat);
            lemma_euclid(m, 2, y);
            lemma_small_mod(y as nat, m as nat);
            assert(y == 0);
        }
    }
}

/// Left-to-right double-and-add in affine coordinates over the low `nbits`
/// bits of k: the point after the top `done` of those bits.
pub open spec fn ec_ladder(k: nat, nbits: nat, done: nat, p: SpecPoint, a: int, m: int) -> SpecPoint
    decreases done,
{
    if done == 0 {
        None
    } else {
        let d = ec_double(ec_ladder(k, nbits, (done - 1) as nat, p, a, m), a, m);
        let i = nbits - done;
        if (k / vstd::arithmetic::power2::pow2(i as nat)) % 2 == 1 {
            ec_add(d, p, a, m)
        } else {
            d
        }
    }
}

/// Mixed addition of canonical coordinates yields canonical coordinates.
proof fn lemma_mixed_canonical(x: int, y: int, z: int, q: SpecPoint, a: int)
    requires
        0 <= x < gp(),
        0 <= y < gp(),
        0 <= z < gp(),
        q matches Some((x2, y2)) ==> 0 <= x2 < gp() && 0 <= y2 < gp(),
    ensures
        ({
            let r = jac_mixed_add(x, y, z, q, a, gp());
            0 <= r.0 < gp() && 0 <= r.1 < gp() && 0 <= r.2 < gp()
        }),
{
    let p = gp();
    lemma_double_canonical(x, y, z, a);
    if let Some((x2, y2)) = q {
        let z1_sq = fmul(z, z, p);
        let z1_cu = fmul(z1_sq, z, p);
        let h = fsub(fmul(x2, z1_sq, p), x, p);
        let r = fsub(fmul(y2, z1_cu, p), y, p);
        let h_sq = fmul(h, h, p);
        let h_cu = fmul(h_sq, h, p);
        let x3 = fsub(fsub(fmul(r, r, p), h_cu, p), fmul(fmul(2, x, p), h_sq, p), p);
        lemma_fmul_range(fsub(fmul(r, r, p), h_cu, p), fmul(fmul(2, x, p), h_sq, p));
        lemma_fmul_range(fmul(r, fsub(fmul(x, h_sq, p), x3, p), p), fmul(y, h_cu, p));
        lemma_fmul_range(z, h);
    }
}

/// The Jacobian ladder's coordinates stay canonical.
proof fn lemma_ladder_canonical(k: nat, nbits: nat, done: nat, p: SpecPoint, a: int)
    requires
        p matches Some((x2, y2)) ==> 0 <= x2 < gp() && 0 <= y2 < gp(),
    ensures
        ({
            let j = jac_ladder(k, nbits, done, p, a, gp());
            &&& 0 <= j.0 < gp()
            &&& 0 <= j.1 < gp()
            &&& 0 <= j.2 < gp()
        }),
    decreases done,
{
    if done > 0 {
        lemma_ladder_canonical(k, nbits, (done - 1) as nat, p, a);
        let prev = jac_ladder(k, nbits, (done - 1) as nat, p, a, gp());
        lemma_double_canonical(prev.0, prev.1, prev.2, a);
        let d = jac_double(prev.0, prev.1, prev.2, a, gp());
        lemma_mixed_canonical(d.0, d.1, d.2, p, a);
    }
}

/// The Jacobian left-to-right ladder agrees with the affine left-to-right
/// ladder: after each bit, its affine image is the affine ladder's point.
pub proof fn lemma_jacobian_ladder_matches_affine(k: nat, nbits: nat, done: nat, p: SpecPoint, a: int)
    requires
        0 <= a < gp(),
        p matches Some((x2, y2)) ==> 0 <= x2 < gp() && 0 <= y2 < gp(),
    ensures
        ({
            let j = jac_ladder(k, nbits, done, p, a, gp());
            jac_to_affine(j.0, j.1, j.2, gp())
        }) == ec_ladder(k, nbits, done, p, a, gp()),
    decreases done,
{
    if done > 0 {
        let d1 = (done - 1) as nat;
        lemma_jacobian_ladder_matches_affine(k, nbits, d1, p, a);
        lemma_ladder_canonical(k, nbits, d1, p, a);
        let prev = jac_ladder(k, nbits, d1, p, a, gp());
        lemma_jacobian_double_matches_affine(prev.0, prev.1, prev.2, a);
        let d = jac_double(prev.0, prev.1, prev.2, a, gp());
        lemma_ladder_canonical(k, nbits, done, p, a);
        let i = nbits - done;
        if (k / vstd::arithmetic::power2::pow2(i as nat)) % 2 == 1 {
            lemma_double_canonical(prev.0, prev.1, prev.2, a);
            lemma_jacobian_mixed_add_matches_affine(d.0, d.1, d.2, p, a);
        }
    }
}

/// Jacobian doubling of canonical coordinates yields canonical coordinates.
proof fn lemma_double_canonical(x: int, y: int, z: int, a: int)
    requires
        0 <= x < gp(),
        0 <= y < gp(),
        0 <= z < gp(),
    ensures
        ({
            let d = jac_double(x, y, z, a, gp());
            0 <= d.0 < gp() && 0 <= d.1 < gp() && 0 <= d.2 < gp()
        }),
{
    let p = gp();
    let z2 = fmul(z, z, p);
    let az4 = fmul(a, fmul(z2, z2, p), p);
    let aa = fmul(y, y, p);
    let b = fmul(fmul(4, x, p), aa, p);
    let c = fmul(fmul(8, aa, p), aa, p);
    let d = fadd(fmul(fmul(3, x, p), x, p), az4, p);
    let x3 = fsub(fmul(d, d, p), fmul(2, b, p), p);
    lemma_fmul_range(fmul(d, d, p), fmul(2, b, p));
    lemma_fmul_range(fmul(d, fsub(b, x3, p), p), c);
    lemma_fmul_range(fmul(2, y, p), z);
    assert(jac_double_cached(x, y, z, az4, p).0 == x3 || z == 0);
}

} // verus!
