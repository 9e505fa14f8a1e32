//! The search-space mapper: per-dimension bounds and the affine map from
//! internal (scaled-unit) coordinates to caller-visible domain coordinates.

use vstd::prelude::*;
use crate::SCALE;
use crate::COORD_LIMIT;
use crate::DIM_LIMIT;

verus! {

/// The caller-visible domain: one `(lower, upper)` pair per dimension.
pub struct SearchSpace {
    /// Per-dimension bounds, `lower < upper` for each pair.
    pub bounds: Vec<(i64, i64)>,
}

/// Valid bounds: at least one dimension, each pair strictly increasing and
/// inside the magnitude limit.
pub open spec fn wf_bounds(bs: Seq<(i64, i64)>) -> bool {
    &&& 1 <= bs.len() <= DIM_LIMIT
    &&& forall|j: int|
        0 <= j < bs.len() ==> -COORD_LIMIT <= #[trigger] bs[j].0 && bs[j].0 < bs[j].1 && bs[j].1
            <= COORD_LIMIT
}

/// The affine map of internal coordinate `x[j]` into dimension `j` of the
/// domain: `lower + (upper - lower) * x[j] / SCALE` with flooring division,
/// so internal `0` maps to `lower` and internal `SCALE` maps to `upper`.
pub open spec fn to_domain_at(bs: Seq<(i64, i64)>, x: Seq<u64>, j: int) -> int {
    bs[j].0 + (bs[j].1 - bs[j].0) * x[j] / (SCALE as int)
}

impl SearchSpace {
    /// Well-formedness of the mapper.
    pub open spec fn wf(self) -> bool {
        wf_bounds(self.bounds@)
    }

    /// The number of dimensions.
    pub open spec fn dims(self) -> nat {
        self.bounds@.len()
    }

    /// Builds the mapper from a list of bounds.
    pub fn new(bounds: &Vec<(i64, i64)>) -> (r: SearchSpace)
        requires
            wf_bounds(bounds@),
        ensures
            r.wf(),
            r.bounds@ == bounds@,
    {
        let mut bs: Vec<(i64, i64)> = Vec::new();
        let mut i: usize = 0;
        while i < bounds.len()
            invariant
                i <= bounds@.len(),
                bs@ == bounds@.take(i as int),
            decreases bounds@.len() - i,
        {
            bs.push(bounds[i]);
            proof {
                assert(bounds@.take(i as int).push(bounds@[i as int]) =~= bounds@.take(
                    i as int + 1,
                ));
            }
            i += 1;
        }
        proof {
            assert(bounds@.take(bounds@.len() as int) =~= bounds@);
        }
        SearchSpace { bounds: bs }
    }

    /// Maps internal coordinates to domain coordinates, dimension by
    /// dimension; the exact inverse of the normalization used when the
    /// initial simplex was laid over the unit domain.
    pub fn to_domain(&self, x: &Vec<u64>) -> (r: Vec<i64>)
        requires
            self.wf(),
            x@.len() == self.dims(),
            forall|j: int| 0 <= j < x@.len() ==> x@[j] <= SCALE,
        ensures
            r@.len() == self.dims(),
            forall|j: int| 0 <= j < r@.len() ==> r@[j] == to_domain_at(self.bounds@, x@, j),
            forall|j: int|
                0 <= j < r@.len() ==> self.bounds@[j].0 <= #[trigger] r@[j] <= self.bounds@[j].1,
    {
        let mut r: Vec<i64> = Vec::new();
        let mut i: usize = 0;
        while i < self.bounds.len()
            invariant
                self.wf(),
                x@.len() == self.dims(),
                forall|j: int| 0 <= j < x@.len() ==> x@[j] <= SCALE,
                i <= self.bounds@.len(),
                r@.len() == i,
                forall|j: int| 0 <= j < i ==> r@[j] == to_domain_at(self.bounds@, x@, j),
                forall|j: int|
                    0 <= j < i ==> self.bounds@[j].0 <= #[trigger] r@[j] <= self.bounds@[j].1,
            decreases self.bounds@.len() - i,
        {
            let (lower, upper) = self.bounds[i];
            let c: u64 = x[i];
            proof {
                assert((upper - lower) * c <= (upper - lower) * SCALE) by (nonlinear_arith)
                    requires
                        0 <= c <= SCALE,
                        0 <= upper - lower,
                ;
                assert(0 <= (upper - lower) * c) by (nonlinear_arith)
                    requires
                        0 <= c,
                        0 <= upper - lower,
                ;
                assert((upper - lower) * SCALE / (SCALE as int) == upper - lower) by {
                    vstd::arithmetic::div_mod::lemma_div_by_multiple(
                        upper - lower,
                        SCALE as int,
                    );
                }
                vstd::arithmetic::div_mod::lemma_div_is_ordered(
                    (upper - lower) * c,
                    (upper - lower) * (SCALE as int),
                    SCALE as int,
                );
                vstd::arithmetic::div_mod::lemma_div_pos_is_pos((upper - lower) * c, SCALE as int);
            }
            let prod: i64 = (upper - lower) * (c as i64);
            let off: i64 = prod / (SCALE as i64);
            r.push(lower + off);
            i += 1;
        }
        r
    }
}

} // verus!
