//! The table of small multiples of the generator.
use crate::ec::curve::{AffinePoint, CurveParams};
use crate::ec::ec_spec::SpecPoint;
use crate::ec::point_ops::scalar_mul;
use crate::field::goldilocks::gp;
use crate::group_action::precompute::multiples;
use vstd::arithmetic::power2::pow2;
use vstd::prelude::*;

verus! {

/// Precomputed table [0]G, [1]G, …, [2^w − 1]G of the curve generator.
#[derive(Clone, Debug)]
pub struct PrecomputeTable {
    /// The precomputed points: table[i] = [i]G.
    pub points: Vec<AffinePoint>,
    /// Window size that generated this table.
    pub window_size: usize,
}

impl PrecomputeTable {
    /// The table's points as mathematical points.
    pub open spec fn point_views(&self) -> Seq<SpecPoint> {
        self.points@.map_values(|p: AffinePoint| p@)
    }

    /// Generate the precomputation table for the curve and window size.
    pub fn generate(curve: &CurveParams, window_size: usize) -> (r: Self)
        requires
            window_size < usize::BITS,
        ensures
            r.window_size == window_size,
            r.point_views() == multiples(curve.generator@, curve.a@, pow2(window_size as nat)),
    {
        proof {
            vstd::bits::lemma_usize_pow2_no_overflow(window_size as nat);
            vstd::bits::lemma_usize_shl_is_mul(1, window_size);
        }
        let table_size = 1usize << window_size;
        let mut points: Vec<AffinePoint> = Vec::new();
        let mut i: usize = 0;
        while i < table_size
            invariant
                i <= table_size,
                table_size == pow2(window_size as nat),
                points@.len() == i,
                forall|j: int|
                    0 <= j < i ==> (#[trigger] points@[j])@ == crate::ec::ec_spec::ec_scalar_mul(
                        j as nat,
                        curve.generator@,
                        curve.a@,
                        gp(),
                    ),
            decreases table_size - i,
        {
            let point = scalar_mul(i as u64, &curve.generator, curve);
            points.push(point);
            i = i + 1;
        }
        let r = Self { points, window_size };
        assert(r.point_views() =~= multiples(curve.generator@, curve.a@, pow2(window_size as nat)));
        r
    }

    /// Look up a point by scalar window value.
    pub fn lookup(&self, index: usize) -> (r: &AffinePoint)
        requires
            index < self.points@.len(),
        ensures
            *r == self.points@[index as int],
    {
        &self.points[index]
    }

    /// Number of entries in the table.
    pub fn len(&self) -> (r: usize)
        ensures
            r == self.points@.len(),
    {
        self.points.len()
    }

    /// Check if the table is empty.
    pub fn is_empty(&self) -> (r: bool)
        ensures
            r == (self.points@.len() == 0),
    {
        self.points.len() == 0
    }
}

} // verus!
