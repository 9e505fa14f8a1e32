//! A simplex of the search partition: `d + 1` corner points, the precomputed
//! centroid, the recursion depth, and the global value range that was in
//! effect the last time its score was computed (used to detect staleness).

use vstd::prelude::*;
use crate::SCALE;
use crate::VALUE_LIMIT;
use crate::DIM_LIMIT;
use crate::point::Point;
use crate::point::wf_point;
use crate::point::points_equal;
use crate::point::copy_point;
use crate::search_space::SearchSpace;

verus! {

/// A region of the partition: the convex hull of `d + 1` corners.
pub struct Simplex {
    /// The `d + 1` corners, each an evaluated (or, during bootstrap, not yet
    /// evaluated) point.
    pub corners: Vec<Point>,
    /// The centroid of the corners, precomputed once at construction.
    pub center: Vec<u64>,
    /// The global `best - min` value range in effect when this simplex was
    /// last scored; a mismatch with the live range marks the score stale.
    pub cached_range: i64,
    /// How many splits separate this simplex from the initial simplex.
    pub depth: u64,
}

/// The sum of coordinate `j` over a sequence of points.
pub open spec fn coord_sum(cs: Seq<Point>, j: int) -> int
    decreases cs.len(),
{
    if cs.len() == 0 {
        0
    } else {
        coord_sum(cs.drop_last(), j) + cs.last().coordinates@[j]
    }
}

/// The greatest corner value (the exploitation statistic of a simplex).
pub open spec fn best_corner_value(cs: Seq<Point>) -> int
    decreases cs.len(),
{
    if cs.len() == 0 {
        0
    } else if cs.len() == 1 {
        cs[0].value as int
    } else if cs.last().value > best_corner_value(cs.drop_last()) {
        cs.last().value as int
    } else {
        best_corner_value(cs.drop_last())
    }
}

/// The least corner value.
pub open spec fn min_corner_value(cs: Seq<Point>) -> int
    decreases cs.len(),
{
    if cs.len() == 0 {
        0
    } else if cs.len() == 1 {
        cs[0].value as int
    } else if cs.last().value < min_corner_value(cs.drop_last()) {
        cs.last().value as int
    } else {
        min_corner_value(cs.drop_last())
    }
}

/// The greatest entry of a value sequence (`0` when empty).
pub open spec fn seq_max(vs: Seq<i64>) -> int
    decreases vs.len(),
{
    if vs.len() == 0 {
        0
    } else if vs.len() == 1 {
        vs[0] as int
    } else if vs.last() > seq_max(vs.drop_last()) {
        vs.last() as int
    } else {
        seq_max(vs.drop_last())
    }
}

/// The least entry of a value sequence (`0` when empty).
pub open spec fn seq_min(vs: Seq<i64>) -> int
    decreases vs.len(),
{
    if vs.len() == 0 {
        0
    } else if vs.len() == 1 {
        vs[0] as int
    } else if vs.last() < seq_min(vs.drop_last()) {
        vs.last() as int
    } else {
        seq_min(vs.drop_last())
    }
}

/// The corner statistics only read the corner values: on a point sequence
/// and a value sequence that agree pointwise they agree.
pub proof fn lemma_corner_values(cs: Seq<Point>, vs: Seq<i64>)
    requires
        cs.len() == vs.len(),
        forall|k: int| 0 <= k < cs.len() ==> (#[trigger] cs[k]).value == vs[k],
    ensures
        best_corner_value(cs) == seq_max(vs),
        min_corner_value(cs) == seq_min(vs),
    decreases cs.len(),
{
    if cs.len() > 1 {
        lemma_corner_values(cs.drop_last(), vs.drop_last());
    }
}

/// Every corner value lies between the least and the greatest.
pub proof fn lemma_corner_value_bounds(cs: Seq<Point>)
    requires
        cs.len() >= 1,
    ensures
        forall|k: int|
            0 <= k < cs.len() ==> min_corner_value(cs) <= (#[trigger] cs[k]).value
                && cs[k].value <= best_corner_value(cs),
    decreases cs.len(),
{
    if cs.len() > 1 {
        lemma_corner_value_bounds(cs.drop_last());
        assert forall|k: int| 0 <= k < cs.len() implies min_corner_value(cs) <= (
        #[trigger] cs[k]).value && cs[k].value <= best_corner_value(cs) by {
            if k < cs.len() - 1 {
                assert(cs.drop_last()[k] == cs[k]);
            }
        }
    }
}

/// Coordinate sums only read the corner coordinates: on two point sequences
/// whose coordinates agree pointwise they agree.
pub proof fn lemma_coord_sum_congruence(cs1: Seq<Point>, cs2: Seq<Point>, j: int)
    requires
        cs1.len() == cs2.len(),
        forall|k: int|
            0 <= k < cs1.len() ==> (#[trigger] cs1[k]).coordinates@ == cs2[k].coordinates@,
    ensures
        coord_sum(cs1, j) == coord_sum(cs2, j),
    decreases cs1.len(),
{
    if cs1.len() > 0 {
        lemma_coord_sum_congruence(cs1.drop_last(), cs2.drop_last(), j);
    }
}

/// Two simplices that cover the same region at the same depth: everything
/// equal but possibly the stamped range.
pub open spec fn same_geometry(a: Simplex, b: Simplex) -> bool {
    &&& a.corners@ == b.corners@
    &&& a.center@ == b.center@
    &&& a.depth == b.depth
}

/// `center` is the flooring centroid of the corners' coordinates.
pub open spec fn is_centroid(center: Seq<u64>, corners: Seq<Point>, d: nat) -> bool {
    &&& corners.len() >= 1
    &&& center.len() == d
    &&& forall|j: int| 0 <= j < d ==> center[j] == coord_sum(corners, j) / (corners.len() as int)
}

/// Well-formedness of a simplex in a `d`-dimensional search.
pub open spec fn wf_simplex(s: Simplex, d: nat) -> bool {
    &&& 1 <= d
    &&& s.corners@.len() == d + 1
    &&& forall|k: int| 0 <= k < s.corners@.len() ==> wf_point(#[trigger] s.corners@[k], d)
    &&& is_centroid(s.center@, s.corners@, d)
    &&& forall|j: int| 0 <= j < d ==> s.center@[j] <= SCALE
    &&& 0 <= s.cached_range <= 2 * VALUE_LIMIT
}

/// The raw potential-optimality estimate: the best corner value plus an
/// exploration bonus that grows with the cached value range and shrinks as
/// the simplex gets deeper (smaller); `edepth` sets how many splits the
/// bonus survives undiminished.
pub open spec fn raw_score(s: Simplex, edepth: int) -> int {
    best_corner_value(s.corners@) + s.cached_range * edepth / (edepth + s.depth)
}

/// Clamps `x` into `lo ..= hi`.
pub open spec fn clamped(x: int, lo: int, hi: int) -> int {
    if x > hi {
        hi
    } else if x < lo {
        lo
    } else {
        x
    }
}

/// The priority score of a simplex: the raw estimate capped at the best
/// observed value and floored at the least observed value, so no region can
/// monopolize or starve the queue.
pub open spec fn score_spec(s: Simplex, edepth: int, best_value: int, min_value: int) -> int {
    clamped(raw_score(s, edepth), min_value, best_value)
}

/// The canonical corners of the initial simplex over the scaled unit
/// domain: corner `0` is the origin and corner `k >= 1` is offset by `SCALE`
/// along axis `k - 1`.
pub open spec fn initial_corner(d: nat, k: int) -> Seq<u64> {
    Seq::new(d, |j: int| if j == k - 1 { SCALE } else { 0u64 })
}

/// The coordinate sum over corners with coordinates in `0 ..= SCALE` is at
/// most `len * SCALE` (and nonnegative).
pub proof fn lemma_coord_sum_bound(cs: Seq<Point>, j: int)
    requires
        forall|k: int| 0 <= k < cs.len() ==> 0 <= #[trigger] cs[k].coordinates@[j] <= SCALE,
    ensures
        0 <= coord_sum(cs, j) <= cs.len() * SCALE,
    decreases cs.len(),
{
    if cs.len() > 0 {
        lemma_coord_sum_bound(cs.drop_last(), j);
        assert(cs.len() * SCALE == (cs.len() - 1) * SCALE + SCALE) by (nonlinear_arith);
    }
}

/// Computes the flooring centroid of a non-empty corner list whose
/// coordinates all lie in the scaled unit domain.
pub fn centroid(corners: &Vec<Point>, d: usize) -> (r: Vec<u64>)
    requires
        1 <= corners@.len() <= DIM_LIMIT + 1,
        forall|k: int| 0 <= k < corners@.len() ==> wf_point(#[trigger] corners@[k], d as nat),
    ensures
        is_centroid(r@, corners@, d as nat),
        forall|j: int| 0 <= j < d ==> r@[j] <= SCALE,
{
    let n = corners.len();
    let mut r: Vec<u64> = Vec::new();
    let mut j: usize = 0;
    while j < d
        invariant
            1 <= n == corners@.len() <= DIM_LIMIT + 1,
            forall|k: int| 0 <= k < corners@.len() ==> wf_point(#[trigger] corners@[k], d as nat),
            j <= d,
            r@.len() == j,
            forall|jj: int| 0 <= jj < j ==> r@[jj] == coord_sum(corners@, jj) / (n as int),
            forall|jj: int| 0 <= jj < j ==> r@[jj] <= SCALE,
        decreases d - j,
    {
        let mut sum: u64 = 0;
        let mut k: usize = 0;
        while k < n
            invariant
                1 <= n == corners@.len() <= DIM_LIMIT + 1,
                forall|kk: int|
                    0 <= kk < corners@.len() ==> wf_point(#[trigger] corners@[kk], d as nat),
                j < d,
                k <= n,
                sum == coord_sum(corners@.take(k as int), j as int),
                sum <= k * SCALE,
            decreases n - k,
        {
            proof {
                assert(corners@.take(k as int + 1).drop_last() =~= corners@.take(k as int));
                assert(corners@.take(k as int + 1).last() == corners@[k as int]);
                assert((k + 1) * SCALE == k * SCALE + SCALE) by (nonlinear_arith);
            }
            sum = sum + corners[k].coordinates[j];
            k += 1;
        }
        proof {
            assert(corners@.take(n as int) =~= corners@);
            assert(coord_sum(corners@, j as int) <= n * SCALE) by {
                lemma_coord_sum_bound(corners@, j as int);
            }
            assert((n as int) * SCALE / (n as int) == SCALE) by {
                vstd::arithmetic::div_mod::lemma_div_by_multiple(SCALE as int, n as int);
                assert((n as int) * SCALE == SCALE * (n as int)) by (nonlinear_arith);
            }
            vstd::arithmetic::div_mod::lemma_div_is_ordered(
                sum as int,
                (n as int) * SCALE,
                n as int,
            );
            vstd::arithmetic::div_mod::lemma_div_pos_is_pos(sum as int, n as int);
        }
        let c: u64 = sum / (n as u64);
        r.push(c);
        j += 1;
    }
    r
}

/// Finds the index of a corner with the greatest value.
pub fn best_corner_index(corners: &Vec<Point>) -> (r: usize)
    requires
        corners@.len() >= 1,
    ensures
        r < corners@.len(),
        corners@[r as int].value == best_corner_value(corners@),
{
    let mut best: usize = 0;
    let mut k: usize = 1;
    while k < corners.len()
        invariant
            1 <= k <= corners@.len(),
            best < k,
            corners@[best as int].value == best_corner_value(corners@.take(k as int)),
        decreases corners@.len() - k,
    {
        proof {
            assert(corners@.take(k as int + 1).drop_last() =~= corners@.take(k as int));
            assert(corners@.take(k as int + 1).last() == corners@[k as int]);
        }
        if corners[k].value > corners[best].value {
            best = k;
        }
        k += 1;
    }
    proof {
        assert(corners@.take(corners@.len() as int) =~= corners@);
    }
    best
}

/// Finds the index of a corner with the least value.
pub fn min_corner_index(corners: &Vec<Point>) -> (r: usize)
    requires
        corners@.len() >= 1,
    ensures
        r < corners@.len(),
        corners@[r as int].value == min_corner_value(corners@),
{
    let mut best: usize = 0;
    let mut k: usize = 1;
    while k < corners.len()
        invariant
            1 <= k <= corners@.len(),
            best < k,
            corners@[best as int].value == min_corner_value(corners@.take(k as int)),
        decreases corners@.len() - k,
    {
        proof {
            assert(corners@.take(k as int + 1).drop_last() =~= corners@.take(k as int));
            assert(corners@.take(k as int + 1).last() == corners@[k as int]);
        }
        if corners[k].value < corners[best].value {
            best = k;
        }
        k += 1;
    }
    proof {
        assert(corners@.take(corners@.len() as int) =~= corners@);
    }
    best
}

/// The depth of a child simplex: one more than the parent's, saturating at
/// the greatest representable depth (depth only damps the exploration
/// bonus, so saturation is harmless).
pub open spec fn next_depth(dp: u64) -> u64 {
    if dp == u64::MAX {
        u64::MAX
    } else {
        (dp + 1) as u64
    }
}

/// The children of a split: one per parent corner, each replacing exactly
/// that corner with the evaluated centroid point, one level deeper, stamped
/// with the range in effect at the split, and carrying its own centroid.
pub open spec fn is_split_of(children: Seq<Simplex>, parent: Simplex, p: Point, range: i64, d: nat) -> bool {
    &&& children.len() == parent.corners@.len()
    &&& forall|k: int|
        0 <= k < children.len() ==> (#[trigger] children[k]).corners@.len()
            == parent.corners@.len()
    &&& forall|k: int|
        0 <= k < children.len() ==> points_equal((#[trigger] children[k]).corners@[k], p)
    &&& forall|k: int, m: int|
        0 <= k < children.len() && 0 <= m < children.len() && m != k ==> points_equal(
            #[trigger] children[k].corners@[m],
            parent.corners@[m],
        )
    &&& forall|k: int| 0 <= k < children.len() ==> (#[trigger] children[k]).cached_range == range
    &&& forall|k: int|
        0 <= k < children.len() ==> (#[trigger] children[k]).depth == next_depth(parent.depth)
    &&& forall|k: int| 0 <= k < children.len() ==> wf_simplex(#[trigger] children[k], d)
}

impl Simplex {
    /// Builds the canonical starting simplex covering the whole internal
    /// unit domain: the origin plus one scaled unit offset per axis.  Its
    /// corners carry the placeholder value `0` until the bootstrap phase
    /// evaluates them.
    pub fn initial_simplex(space: &SearchSpace) -> (r: Simplex)
        requires
            space.wf(),
        ensures
            wf_simplex(r, space.dims()),
            r.corners@.len() == space.dims() + 1,
            forall|k: int|
                0 <= k < r.corners@.len() ==> (#[trigger] r.corners@[k]).coordinates@
                    == initial_corner(space.dims(), k),
            forall|k: int| 0 <= k < r.corners@.len() ==> (#[trigger] r.corners@[k]).value == 0,
            r.cached_range == 0,
            r.depth == 0,
    {
        let d = space.bounds.len();
        let mut corners: Vec<Point> = Vec::new();
        let mut k: usize = 0;
        while k < d + 1
            invariant
                1 <= d <= DIM_LIMIT,
                k <= d + 1,
                corners@.len() == k,
                forall|kk: int|
                    0 <= kk < k ==> (#[trigger] corners@[kk]).coordinates@ == initial_corner(
                        d as nat,
                        kk,
                    ),
                forall|kk: int| 0 <= kk < k ==> (#[trigger] corners@[kk]).value == 0,
                forall|kk: int| 0 <= kk < k ==> wf_point(#[trigger] corners@[kk], d as nat),
            decreases d + 1 - k,
        {
            let mut coords: Vec<u64> = Vec::new();
            let mut j: usize = 0;
            while j < d
                invariant
                    j <= d,
                    coords@.len() == j,
                    forall|jj: int|
                        0 <= jj < j ==> coords@[jj] == (if jj == k - 1 {
                            SCALE
                        } else {
                            0u64
                        }),
                decreases d - j,
            {
                if k >= 1 && j == k - 1 {
                    coords.push(SCALE);
                } else {
                    coords.push(0);
                }
                j += 1;
            }
            proof {
                assert(coords@ =~= initial_corner(d as nat, k as int));
            }
            corners.push(Point { coordinates: coords, value: 0 });
            k += 1;
        }
        let center = centroid(&corners, d);
        Simplex { corners, center, cached_range: 0, depth: 0 }
    }

    /// The raw potential-optimality estimate of this simplex; see
    /// [`raw_score`].
    pub fn evaluate(&self, exploration_depth: i64) -> (r: i64)
        requires
            1 <= self.corners@.len(),
            forall|k: int|
                0 <= k < self.corners@.len() ==> -VALUE_LIMIT
                    <= (#[trigger] self.corners@[k]).value <= VALUE_LIMIT,
            0 <= self.cached_range <= 2 * VALUE_LIMIT,
            1 <= exploration_depth,
        ensures
            r == raw_score(*self, exploration_depth as int),
            -VALUE_LIMIT <= r <= 3 * VALUE_LIMIT,
    {
        let bc_idx = best_corner_index(&self.corners);
        let bc: i64 = self.corners[bc_idx].value;
        proof {
            assert(0 <= (self.cached_range as int) * (exploration_depth as int) <= (2
                * VALUE_LIMIT) * (i64::MAX as int)) by (nonlinear_arith)
                requires
                    0 <= self.cached_range <= 2 * VALUE_LIMIT,
                    1 <= exploration_depth <= i64::MAX,
            ;
        }
        let num: i128 = (self.cached_range as i128) * (exploration_depth as i128);
        let den: i128 = (exploration_depth as i128) + (self.depth as i128);
        proof {
            assert((num as int) / (exploration_depth as int) == self.cached_range) by {
                vstd::arithmetic::div_mod::lemma_div_by_multiple(
                    self.cached_range as int,
                    exploration_depth as int,
                );
                assert((self.cached_range as int) * (exploration_depth as int) == (
                exploration_depth as int) * (self.cached_range as int)) by (nonlinear_arith);
            }
            vstd::arithmetic::div_mod::lemma_div_is_ordered_by_denominator(
                num as int,
                exploration_depth as int,
                den as int,
            );
            vstd::arithmetic::div_mod::lemma_div_pos_is_pos(num as int, den as int);
        }
        let q: i128 = num / den;
        bc + (q as i64)
    }

    /// The priority score of this simplex under the current global best and
    /// least observed values; see [`score_spec`].
    pub fn scored(&self, exploration_depth: i64, best_value: i64, min_value: i64) -> (r: i64)
        requires
            1 <= self.corners@.len(),
            forall|k: int|
                0 <= k < self.corners@.len() ==> -VALUE_LIMIT
                    <= (#[trigger] self.corners@[k]).value <= VALUE_LIMIT,
            0 <= self.cached_range <= 2 * VALUE_LIMIT,
            1 <= exploration_depth,
            min_value <= best_value,
        ensures
            r == score_spec(*self, exploration_depth as int, best_value as int, min_value as int),
            min_value <= r <= best_value,
    {
        let raw = self.evaluate(exploration_depth);
        if raw > best_value {
            best_value
        } else if raw < min_value {
            min_value
        } else {
            raw
        }
    }

    /// Splits this simplex around a freshly evaluated centroid point into
    /// `d + 1` children, each replacing exactly one corner with the new
    /// point; the parent's corners all survive and the children are stamped
    /// with the value range in effect at the split.
    pub fn split(&self, new_point: &Point, current_range: i64, d: usize) -> (r: Vec<Simplex>)
        requires
            1 <= d <= DIM_LIMIT,
            self.corners@.len() == d + 1,
            forall|k: int| 0 <= k < self.corners@.len() ==> wf_point(#[trigger] self.corners@[k], d as nat),
            wf_point(*new_point, d as nat),
            0 <= current_range <= 2 * VALUE_LIMIT,
        ensures
            is_split_of(r@, *self, *new_point, current_range, d as nat),
    {
        let child_depth: u64 = if self.depth == u64::MAX {
            u64::MAX
        } else {
            self.depth + 1
        };
        let n = d + 1;
        let mut children: Vec<Simplex> = Vec::new();
        let mut k: usize = 0;
        while k < n
            invariant
                1 <= d <= DIM_LIMIT,
                n == d + 1,
                self.corners@.len() == n,
                forall|kk: int|
                    0 <= kk < self.corners@.len() ==> wf_point(
                        #[trigger] self.corners@[kk],
                        d as nat,
                    ),
                wf_point(*new_point, d as nat),
                child_depth == next_depth(self.depth),
                0 <= current_range <= 2 * VALUE_LIMIT,
                k <= n,
                children@.len() == k,
                forall|kk: int|
                    0 <= kk < k ==> (#[trigger] children@[kk]).corners@.len() == n,
                forall|kk: int|
                    0 <= kk < k ==> points_equal(
                        (#[trigger] children@[kk]).corners@[kk],
                        *new_point,
                    ),
                forall|kk: int, m: int|
                    0 <= kk < k && 0 <= m < n && m != kk ==> points_equal(
                        #[trigger] children@[kk].corners@[m],
                        self.corners@[m],
                    ),
                forall|kk: int| 0 <= kk < k ==> (#[trigger] children@[kk]).cached_range == current_range,
                forall|kk: int| 0 <= kk < k ==> (#[trigger] children@[kk]).depth == next_depth(self.depth),
                forall|kk: int| 0 <= kk < k ==> wf_simplex(#[trigger] children@[kk], d as nat),
            decreases n - k,
        {
            let mut cs: Vec<Point> = Vec::new();
            let mut m: usize = 0;
            while m < n
                invariant
                    1 <= d <= DIM_LIMIT,
                    n == d + 1,
                    self.corners@.len() == n,
                    forall|kk: int|
                        0 <= kk < self.corners@.len() ==> wf_point(
                            #[trigger] self.corners@[kk],
                            d as nat,
                        ),
                    wf_point(*new_point, d as nat),
                    k < n,
                    m <= n,
                    cs@.len() == m,
                    forall|mm: int|
                        0 <= mm < m && mm == k ==> points_equal(
                            #[trigger] cs@[mm],
                            *new_point,
                        ),
                    forall|mm: int|
                        0 <= mm < m && mm != k ==> points_equal(
                            #[trigger] cs@[mm],
                            self.corners@[mm],
                        ),
                    forall|mm: int| 0 <= mm < m ==> wf_point(#[trigger] cs@[mm], d as nat),
                decreases n - m,
            {
                if m == k {
                    cs.push(copy_point(new_point));
                } else {
                    cs.push(copy_point(&self.corners[m]));
                }
                m += 1;
            }
            let center = centroid(&cs, d);
            children.push(
                Simplex { corners: cs, center, cached_range: current_range, depth: child_depth },
            );
            k += 1;
        }
        children
    }
}

/// Child `k` of a split of `parent` around an evaluated point with
/// coordinates `pcoords` and value `pvalue`: corner `k` is that point,
/// every other corner is the parent's, one level deeper, stamped with
/// `range`, and carrying the centroid of its own corners.
pub open spec fn child_replacing(
    c: Simplex,
    parent: Simplex,
    pcoords: Seq<u64>,
    pvalue: i64,
    range: int,
    k: int,
) -> bool {
    &&& c.corners@.len() == parent.corners@.len()
    &&& 0 <= k < c.corners@.len()
    &&& c.corners@[k].coordinates@ == pcoords
    &&& c.corners@[k].value == pvalue
    &&& forall|m: int|
        0 <= m < c.corners@.len() && m != k ==> points_equal(
            #[trigger] c.corners@[m],
            parent.corners@[m],
        )
    &&& c.cached_range == range
    &&& c.depth == next_depth(parent.depth)
    &&& is_centroid(c.center@, c.corners@, (parent.corners@.len() - 1) as nat)
}

/// Corner `m` of the parent stands, untouched, at position `m` of some
/// child.
pub open spec fn corner_survives(children: Seq<Simplex>, parent: Simplex, m: int) -> bool {
    exists|k: int|
        0 <= k < children.len() && points_equal(
            (#[trigger] children[k]).corners@[m],
            parent.corners@[m],
        )
}

/// Law: a split discards no information and replaces the parent exactly.
/// There are as many children as the parent has corners; the evaluated
/// centroid point is corner `k` of child `k`; and every corner of the
/// parent survives in some child at its original position.
pub proof fn lemma_split_coverage(
    children: Seq<Simplex>,
    parent: Simplex,
    p: Point,
    range: i64,
    d: nat,
)
    requires
        is_split_of(children, parent, p, range, d),
        parent.corners@.len() >= 2,
    ensures
        children.len() == parent.corners@.len(),
        forall|k: int| 0 <= k < children.len() ==> points_equal((#[trigger] children[k]).corners@[k], p),
        forall|m: int|
            0 <= m < parent.corners@.len() ==> #[trigger] corner_survives(children, parent, m),
{
    assert forall|m: int| 0 <= m < parent.corners@.len() implies #[trigger] corner_survives(
        children,
        parent,
        m,
    ) by {
        if m == 0 {
            assert(points_equal(children[1].corners@[0], parent.corners@[0]));
        } else {
            assert(points_equal(children[0].corners@[m], parent.corners@[m]));
        }
    }
}

/// Law: the bootstrap suggestions are pairwise distinct — no two corners of
/// the canonical initial simplex coincide.
pub proof fn lemma_initial_corners_distinct(d: nat, k1: int, k2: int)
    requires
        1 <= d,
        0 <= k1 < d + 1,
        0 <= k2 < d + 1,
        k1 != k2,
    ensures
        initial_corner(d, k1) != initial_corner(d, k2),
{
    if k1 == 0 {
        assert(initial_corner(d, k1)[k2 - 1] == 0);
        assert(initial_corner(d, k2)[k2 - 1] == SCALE);
    } else {
        assert(initial_corner(d, k1)[k1 - 1] == SCALE);
        assert(initial_corner(d, k2)[k1 - 1] == 0);
    }
}

} // verus!
