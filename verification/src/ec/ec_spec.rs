//! Mathematical model of short-Weierstrass curve arithmetic over Z/mZ.
//!
//! Points are `Option<(x, y)>` with `None` the point at infinity; all
//! coordinates are canonical integers in `[0, m)`.
use crate::field::modmath::mod_pow;
use vstd::prelude::*;

verus! {

pub open spec fn fadd(x: int, y: int, m: int) -> int {
    (x + y) % m
}

pub open spec fn fsub(x: int, y: int, m: int) -> int {
    (x - y) % m
}

pub open spec fn fmul(x: int, y: int, m: int) -> int {
    (x * y) % m
}

pub open spec fn fneg(x: int, m: int) -> int {
    (-x) % m
}

/// Inversion by Fermat's little theorem, `x^(m-2) mod m`.
pub open spec fn finv(x: int, m: int) -> int {
    mod_pow(x, (m - 2) as nat, m)
}

pub type SpecPoint = Option<(int, int)>;

/// Affine negation: reflect across the x-axis.
pub open spec fn ec_neg(p: SpecPoint, m: int) -> SpecPoint {
    match p {
        None => None,
        Some((x, y)) => Some((x, fneg(y, m))),
    }
}

/// Affine point doubling with tangent slope (3x² + a) / (2y).
pub open spec fn ec_double(p: SpecPoint, a: int, m: int) -> SpecPoint {
    match p {
        None => None,
        Some((x, y)) => if y == 0 {
            None
        } else {
            let numerator = fadd(fmul(fmul(3, x, m), x, m), a, m);
            let denominator = fmul(2, y, m);
            let lambda = fmul(numerator, finv(denominator, m), m);
            let x3 = fsub(fsub(fmul(lambda, lambda, m), x, m), x, m);
            let y3 = fsub(fmul(lambda, fsub(x, x3, m), m), y, m);
            Some((x3, y3))
        },
    }
}

/// Affine point addition by the chord-and-tangent rule.
pub open spec fn ec_add(p: SpecPoint, q: SpecPoint, a: int, m: int) -> SpecPoint {
    match (p, q) {
        (None, _) => q,
        (_, None) => p,
        (Some((x1, y1)), Some((x2, y2))) => if x1 == x2 {
            if y1 == y2 {
                ec_double(p, a, m)
            } else {
                None
            }
        } else {
            let dy = fsub(y2, y1, m);
            let dx = fsub(x2, x1, m);
            let lambda = fmul(dy, finv(dx, m), m);
            let x3 = fsub(fsub(fmul(lambda, lambda, m), x1, m), x2, m);
            let y3 = fsub(fmul(lambda, fsub(x1, x3, m), m), y1, m);
            Some((x3, y3))
        },
    }
}

/// Right-to-left double-and-add: the accumulator collects `base` for
/// every set bit of `k` while `base` is doubled after each bit.
pub open spec fn ec_double_and_add(acc: SpecPoint, base: SpecPoint, k: nat, a: int, m: int) -> SpecPoint
    decreases k,
{
    if k == 0 {
        acc
    } else {
        let acc2 = if k % 2 == 1 {
            ec_add(acc, base, a, m)
        } else {
            acc
        };
        ec_double_and_add(acc2, ec_double(base, a, m), k / 2, a, m)
    }
}

/// Scalar multiplication [k]P computed by binary double-and-add.
pub open spec fn ec_scalar_mul(k: nat, p: SpecPoint, a: int, m: int) -> SpecPoint {
    ec_double_and_add(None, p, k, a, m)
}

/// [k]P as the k-fold sum P + P + ... + P, accumulated left to right.
pub open spec fn ec_repeated_add(k: nat, p: SpecPoint, a: int, m: int) -> SpecPoint
    decreases k,
{
    if k == 0 {
        None
    } else {
        ec_add(ec_repeated_add((k - 1) as nat, p, a, m), p, a, m)
    }
}

/// Points on the curve y² = x³ + ax + b (infinity included).
pub open spec fn ec_on_curve(p: SpecPoint, a: int, b: int, m: int) -> bool {
    match p {
        None => true,
        Some((x, y)) => fmul(y, y, m) == fadd(
            fadd(fmul(fmul(x, x, m), x, m), fmul(a, x, m), m),
            b,
            m,
        ),
    }
}

/// Jacobian triple (X, Y, Z) standing for the affine point (X/Z², Y/Z³).
pub open spec fn jac_to_affine(x: int, y: int, z: int, m: int) -> SpecPoint {
    if z == 0 {
        None
    } else {
        let z_inv = finv(z, m);
        let z_inv2 = fmul(z_inv, z_inv, m);
        let z_inv3 = fmul(z_inv2, z_inv, m);
        Some((fmul(x, z_inv2, m), fmul(y, z_inv3, m)))
    }
}

/// Jacobian doubling given the cached term aZ⁴; returns (X3, Y3, Z3, aZ3⁴)
/// with aZ3⁴ computed as 2 · 8Y⁴ · aZ⁴.
pub open spec fn jac_double_cached(x: int, y: int, z: int, az4: int, m: int) -> (int, int, int, int) {
    if z == 0 {
        (x, y, z, az4)
    } else {
        let aa = fmul(y, y, m);
        let b = fmul(fmul(4, x, m), aa, m);
        let c = fmul(fmul(8, aa, m), aa, m);
        let d = fadd(fmul(fmul(3, x, m), x, m), az4, m);
        let x3 = fsub(fmul(d, d, m), fmul(2, b, m), m);
        let y3 = fsub(fmul(d, fsub(b, x3, m), m), c, m);
        let z3 = fmul(fmul(2, y, m), z, m);
        (x3, y3, z3, fmul(fmul(2, c, m), az4, m))
    }
}

/// Jacobian doubling with general a, returning (X3, Y3, Z3).
pub open spec fn jac_double(x: int, y: int, z: int, a: int, m: int) -> (int, int, int) {
    let z2 = fmul(z, z, m);
    let z4 = fmul(z2, z2, m);
    let r = jac_double_cached(x, y, z, fmul(a, z4, m), m);
    (r.0, r.1, r.2)
}

/// Affine point in Jacobian form: infinity is (1, 1, 0), (x, y) is (x, y, 1).
pub open spec fn jac_from_affine(p: SpecPoint) -> (int, int, int) {
    match p {
        None => (1, 1, 0),
        Some((x, y)) => (x, y, 1),
    }
}

/// Mixed Jacobian + affine addition, returning (X3, Y3, Z3).
pub open spec fn jac_mixed_add(x1: int, y1: int, z1: int, q: SpecPoint, a: int, m: int) -> (
    int,
    int,
    int,
) {
    if z1 == 0 {
        jac_from_affine(q)
    } else {
        match q {
            None => (x1, y1, z1),
            Some((x2, y2)) => {
                let z1_sq = fmul(z1, z1, m);
                let z1_cu = fmul(z1_sq, z1, m);
                let u2 = fmul(x2, z1_sq, m);
                let s2 = fmul(y2, z1_cu, m);
                let h = fsub(u2, x1, m);
                let r = fsub(s2, y1, m);
                if h == 0 {
                    if r == 0 {
                        jac_double(x1, y1, z1, a, m)
                    } else {
                        (1, 1, 0)
                    }
                } else {
                    let h_sq = fmul(h, h, m);
                    let h_cu = fmul(h_sq, h, m);
                    let x3 = fsub(fsub(fmul(r, r, m), h_cu, m), fmul(fmul(2, x1, m), h_sq, m), m);
                    let y3 = fsub(fmul(r, fsub(fmul(x1, h_sq, m), x3, m), m), fmul(y1, h_cu, m), m);
                    let z3 = fmul(z1, h, m);
                    (x3, y3, z3)
                }
            },
        }
    }
}

/// Left-to-right Jacobian ladder over the low `nbits` bits of k: the state after
/// the top `done` of those bits have been processed.
pub open spec fn jac_ladder(k: nat, nbits: nat, done: nat, p: SpecPoint, a: int, m: int) -> (
    int,
    int,
    int,
)
    decreases done,
{
    if done == 0 {
        (1, 1, 0)
    } else {
        let prev = jac_ladder(k, nbits, (done - 1) as nat, p, a, m);
        let d = jac_double(prev.0, prev.1, prev.2, a, m);
        let i = nbits - done;
        if (k / vstd::arithmetic::power2::pow2(i as nat)) % 2 == 1 {
            jac_mixed_add(d.0, d.1, d.2, p, a, m)
        } else {
            d
        }
    }
}

} // verus!
