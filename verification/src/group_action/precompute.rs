//! Tables of small multiples of a curve point, baked into the circuits as
//! classical constants.
use crate::ec::curve::{AffinePoint, CurveParams};
use crate::ec::ec_spec::{ec_scalar_mul, SpecPoint};
use crate::ec::point_ops::scalar_mul;
use crate::field::goldilocks::gp;
use vstd::arithmetic::power2::pow2;
use vstd::prelude::*;
use vstd::string::StringExecFns;

verus! {

/// The multiples [0]P, [1]P, …, [size − 1]P of `base` on the curve with
/// coefficient `a` over the Goldilocks field.
pub open spec fn multiples(base: SpecPoint, a: int, size: nat) -> Seq<SpecPoint> {
    Seq::new(size, |i: int| ec_scalar_mul(i as nat, base, a, gp()))
}

/// Precomputed table of curve points for windowed scalar multiplication.
///
/// For window size w it holds [0]P, [1]P, …, [2^w − 1]P for a base point P.
#[derive(Clone, Debug)]
pub struct PrecomputeTable {
    /// The precomputed points: table[i] = [i]P.
    pub points: Vec<AffinePoint>,
    /// Window size that generated this table.
    pub window_size: usize,
    /// Label for debugging (e.g., "G" or "Q").
    pub label: String,
}

impl PrecomputeTable {
    /// The table's points as mathematical points.
    pub open spec fn point_views(&self) -> Seq<SpecPoint> {
        self.points@.map_values(|p: AffinePoint| p@)
    }

    /// Generate a precomputation table for a specific base point.
    pub fn generate_for_point(curve: &CurveParams, base_point: &AffinePoint, window_size: usize) -> (r:
        Self)
        requires
            window_size < usize::BITS,
        ensures
            r.window_size == window_size,
            r.label@ == Seq::<char>::empty(),
            r.point_views() == multiples(base_point@, curve.a@, pow2(window_size as nat)),
    {
        proof {
            vstd::bits::lemma_usize_pow2_no_overflow(window_size as nat);
            vstd::bits::lemma_usize_shl_is_mul(1, window_size);
        }
        let table_size = 1usize << window_size;
        let mut points: Vec<AffinePoint> = Vec::new();
        let mut i: usize = 0;
        while i < table_size
            invariant
                i <= table_size,
                table_size == pow2(window_size as nat),
                points@.len() == i,
                forall|j: int|
                    0 <= j < i ==> (#[trigger] points@[j])@ == ec_scalar_mul(
                        j as nat,
                        base_point@,
                        curve.a@,
                        gp(),
                    ),
            decreases table_size - i,
        {
            let point = scalar_mul(i as u64, base_point, curve);
            points.push(point);
            i = i + 1;
        }
        let r = Self { points, window_size, label: String::new() };
        assert(r.point_views() =~= multiples(base_point@, curve.a@, pow2(window_size as nat)));
        r
    }

    /// Generate a precomputation table for the curve generator G.
    pub fn generate_for_generator(curve: &CurveParams, window_size: usize) -> (r: Self)
        requires
            window_size < usize::BITS,
        ensures
            r.window_size == window_size,
            r.label@ == "G"@,
            r.point_views() == multiples(curve.generator@, curve.a@, pow2(window_size as nat)),
    {
        let mut table = Self::generate_for_point(curve, &curve.generator, window_size);
        table.label = String::from_str("G");
        table
    }

    /// Look up a point by scalar window value.
    pub fn lookup(&self, index: usize) -> (r: &AffinePoint)
        requires
            index < self.points@.len(),
        ensures
            *r == self.points@[index as int],
    {
        &self.points[index]
    }

    /// Number of entries in the table.
    pub fn len(&self) -> (r: usize)
        ensures
            r == self.points@.len(),
    {
        self.points.len()
    }

    /// Check if table is empty.
    pub fn is_empty(&self) -> (r: bool)
        ensures
            r == (self.points@.len() == 0),
    {
        self.points.len() == 0
    }
}

} // verus!
