//! An evaluated location of the search: internal coordinates and the value
//! observed there.  A point is created once per evaluated location and never
//! mutated afterwards.

use vstd::prelude::*;
use crate::SCALE;
use crate::VALUE_LIMIT;

verus! {

/// A location in internal coordinates together with its observed value.
pub struct Point {
    /// Internal (unit-domain) coordinates, each in `0 ..= SCALE`.
    pub coordinates: Vec<u64>,
    /// The observed objective value at this location (internally the
    /// algorithm always maximizes).
    pub value: i64,
}

/// Well-formedness of a point in a `d`-dimensional search: `d` coordinates,
/// each inside the scaled unit interval, and a bounded value.
pub open spec fn wf_point(p: Point, d: nat) -> bool {
    &&& p.coordinates@.len() == d
    &&& forall|j: int| 0 <= j < d ==> p.coordinates@[j] <= SCALE
    &&& -VALUE_LIMIT <= p.value <= VALUE_LIMIT
}

/// Structural equality of two points, stated over their views.
pub open spec fn points_equal(a: Point, b: Point) -> bool {
    &&& a.coordinates@ == b.coordinates@
    &&& a.value == b.value
}

/// Copies a coordinate vector.
pub fn copy_coords(v: &Vec<u64>) -> (r: Vec<u64>)
    ensures
        r@ == v@,
{
    let mut r: Vec<u64> = Vec::new();
    let mut i: usize = 0;
    while i < v.len()
        invariant
            i <= v@.len(),
            r@ == v@.take(i as int),
        decreases v@.len() - i,
    {
        r.push(v[i]);
        proof {
            assert(v@.take(i as int).push(v@[i as int]) =~= v@.take(i as int + 1));
        }
        i += 1;
    }
    proof {
        assert(v@.take(v@.len() as int) =~= v@);
    }
    r
}

/// Copies a point.
pub fn copy_point(p: &Point) -> (r: Point)
    ensures
        points_equal(r, *p),
{
    Point { coordinates: copy_coords(&p.coordinates), value: p.value }
}

} // verus!
