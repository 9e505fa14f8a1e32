//! The optimizer's state machine: bootstrap of the initial simplex, then the
//! steady suggest/report loop over the simplex queue with lazy rescoring.

use vstd::prelude::*;
use crate::SCALE;
use crate::VALUE_LIMIT;
use crate::point::Point;
use crate::point::wf_point;
use crate::point::copy_coords;
use crate::point::copy_point;
use crate::search_space::SearchSpace;
use crate::search_space::wf_bounds;
use crate::search_space::to_domain_at;
use crate::simplex::Simplex;
use crate::simplex::wf_simplex;
use crate::simplex::is_centroid;
use crate::simplex::is_split_of;
use crate::simplex::same_geometry;
use crate::simplex::score_spec;
use crate::simplex::child_replacing;
use crate::simplex::initial_corner;
use crate::simplex::best_corner_value;
use crate::simplex::min_corner_value;
use crate::simplex::seq_max;
use crate::simplex::seq_min;
use crate::simplex::lemma_corner_values;
use crate::simplex::lemma_corner_value_bounds;
use crate::simplex::lemma_coord_sum_congruence;
use crate::simplex::best_corner_index;
use crate::simplex::min_corner_index;
use crate::pqueue::pq_contents;
use crate::pqueue::prio_le;
use crate::pqueue::pq_empty;
use crate::pqueue::pq_new;
use crate::pqueue::pq_push;
use crate::pqueue::pq_pop;
use crate::pqueue::pq_len;

verus! {

/// The internal (always-maximizing) reading of a reported value: negated
/// when the caller minimizes — minimization is handled by negation at the
/// boundary, never by inverting comparisons inside.
pub open spec fn oriented(minimize: bool, v: i64) -> i64 {
    if minimize {
        (-v) as i64
    } else {
        v
    }
}

/// Stores the parameters and current state of a search.
///
/// Once constructed, the caller alternates `next_explore_point` (which point
/// to evaluate next) and `next_with_value` (report the observed value and
/// get the best so far).
pub struct Optimizer {
    /// Effective exploration depth used by the score; always at least 1.
    exploration_depth: i64,
    /// Whether the caller minimizes; internally the search always
    /// maximizes, values are negated at the boundary.
    minimize: bool,
    /// The domain bounds and the internal/domain coordinate map.
    search_space: SearchSpace,
    /// Arena of every simplex ever produced; the queue holds indices into
    /// it.  An entry is never removed, only its stamped range is refreshed.
    simplices: Vec<Simplex>,
    /// The simplex queue, keyed by the clamped potential-optimality score
    /// with a deterministic tie-break.
    queue: priority_queue::PriorityQueue<usize, (i64, usize)>,
    /// The point with the greatest observed value.
    best_point: Point,
    /// The least observed value (the floor of the global range).
    min_value: i64,
    /// During bootstrap: the next corner awaiting a value, and the initial
    /// simplex being filled in.
    in_progress_simplex: Option<(usize, Simplex)>,
    /// The arena index of the popped simplex whose centroid is the pending
    /// suggestion, if one is outstanding.
    current_simplex: Option<usize>,
    /// The global range snapshot taken when the pending suggestion was
    /// made.
    current_difference: Option<i64>,
}

impl Optimizer {
    /// The number of dimensions of the search domain.
    pub closed spec fn dims(self) -> nat {
        self.search_space.dims()
    }

    /// The per-dimension bounds.
    pub closed spec fn bounds(self) -> Seq<(i64, i64)> {
        self.search_space.bounds@
    }

    /// Whether the caller minimizes.
    pub closed spec fn minimizing(self) -> bool {
        self.minimize
    }

    /// Whether the initial simplex is still being evaluated corner by
    /// corner.
    pub closed spec fn bootstrapping(self) -> bool {
        self.in_progress_simplex is Some
    }

    /// The index of the next initial-simplex corner awaiting a value.
    pub closed spec fn bootstrap_index(self) -> int {
        self.in_progress_simplex->Some_0.0 as int
    }

    /// The corners of the initial simplex being bootstrapped.
    pub closed spec fn bootstrap_corners(self) -> Seq<Point> {
        self.in_progress_simplex->Some_0.1.corners@
    }

    /// The corner values of the initial simplex being bootstrapped.
    pub closed spec fn bootstrap_values(self) -> Seq<i64> {
        Seq::new(self.bootstrap_corners().len(), |k: int| self.bootstrap_corners()[k].value)
    }

    /// Whether a suggestion is outstanding (made and not yet reported).
    pub closed spec fn pending(self) -> bool {
        self.current_simplex is Some
    }

    /// The arena index of the simplex behind the pending suggestion.
    pub closed spec fn pending_id(self) -> usize {
        self.current_simplex->Some_0
    }

    /// The internal coordinates of the pending suggestion.
    pub closed spec fn pending_center(self) -> Seq<u64> {
        self.simplices@[self.pending_id() as int].center@
    }

    /// The greatest observed value (internal orientation: maximize).
    pub closed spec fn best_value(self) -> int {
        self.best_point.value as int
    }

    /// The internal coordinates of the best observed point.
    pub closed spec fn best_coordinates(self) -> Seq<u64> {
        self.best_point.coordinates@
    }

    /// The least observed value.
    pub closed spec fn least_value(self) -> int {
        self.min_value as int
    }

    /// The effective exploration depth.
    pub closed spec fn depth_setting(self) -> int {
        self.exploration_depth as int
    }

    /// How many simplices sit in the queue.
    pub closed spec fn queue_size(self) -> nat {
        pq_contents(self.queue).dom().len()
    }

    /// Whether the simplex with this arena index sits in the queue.
    pub closed spec fn queued(self, id: usize) -> bool {
        pq_contents(self.queue).dom().contains(id)
    }

    /// The internal centroid coordinates of the simplex with this arena
    /// index.
    pub closed spec fn queued_center(self, id: usize) -> Seq<u64> {
        self.simplices@[id as int].center@
    }

    /// The priority stored in the queue for this arena index.
    pub closed spec fn queued_priority(self, id: usize) -> (i64, usize) {
        pq_contents(self.queue)[id]
    }

    /// The whole simplex with this arena index.
    pub closed spec fn queued_simplex(self, id: usize) -> Simplex {
        self.simplices@[id as int]
    }

    /// The simplex behind the pending suggestion.
    pub closed spec fn pending_simplex(self) -> Simplex {
        self.simplices@[self.pending_id() as int]
    }

    /// The global `best - least` range snapshot recorded when the pending
    /// suggestion was made.
    pub closed spec fn pending_range(self) -> int {
        self.current_difference->Some_0 as int
    }

    /// How many simplices were ever produced (they are never destroyed,
    /// only retired from the queue).
    pub closed spec fn arena_size(self) -> nat {
        self.simplices@.len()
    }

    /// No queued score is stale: every queued simplex was last scored under
    /// the live global value range.
    pub closed spec fn fresh_scores(self) -> bool {
        forall|id: usize|
            #[trigger] self.queued(id) ==> self.simplices@[id as int].cached_range
                == self.best_value() - self.least_value()
    }

    /// The domain coordinate, in dimension `j`, of the suggestion that
    /// `next_explore_point` returns in this state: the corner under
    /// evaluation during bootstrap, the pending centroid otherwise.
    pub closed spec fn suggestion_at(self, j: int) -> int {
        if self.bootstrapping() {
            to_domain_at(
                self.bounds(),
                self.bootstrap_corners()[self.bootstrap_index()].coordinates@,
                j,
            )
        } else {
            to_domain_at(self.bounds(), self.pending_center(), j)
        }
    }

    /// The well-formedness invariant of the optimizer: every public
    /// operation requires and preserves it.
    pub closed spec fn wf(self) -> bool {
        &&& self.search_space.wf()
        &&& 1 <= self.exploration_depth
        &&& wf_point(self.best_point, self.dims())
        &&& -VALUE_LIMIT <= self.min_value <= VALUE_LIMIT
        &&& self.min_value <= self.best_point.value
        &&& forall|i: int|
            0 <= i < self.simplices@.len() ==> wf_simplex(
                #[trigger] self.simplices@[i],
                self.dims(),
            )
        &&& pq_contents(self.queue).dom().finite()
        &&& forall|id: usize| #[trigger]
            pq_contents(self.queue).dom().contains(id) ==> id < self.simplices@.len()
        &&& match self.in_progress_simplex {
            Some((i, s)) => {
                &&& i <= self.dims()
                &&& wf_simplex(s, self.dims())
                &&& pq_contents(self.queue) == pq_empty()
                &&& self.current_simplex is None
            },
            None => self.current_simplex is Some || pq_contents(self.queue).dom().len() >= 1,
        }
        &&& forall|id: usize| #[trigger]
            pq_contents(self.queue).dom().contains(id) ==> pq_contents(self.queue)[id].1
                == usize::MAX - id
        &&& match self.current_simplex {
            Some(id) => id < self.simplices@.len() && self.current_difference is Some
                && !pq_contents(self.queue).dom().contains(id),
            None => self.current_difference is None,
        }
        &&& match self.current_difference {
            Some(dv) => 0 <= dv <= 2 * VALUE_LIMIT,
            None => true,
        }
    }

    /// Creates a new optimizer to explore the given search space.
    ///
    /// Takes one `(lower, upper)` interval per dimension and a flag saying
    /// whether this is a minimization problem (as opposed to a maximization
    /// problem).  The search starts in the bootstrap phase: the first
    /// `d + 1` suggestions are the corners of the initial simplex, and the
    /// very first one is the vector of lower bounds.
    pub fn new(input_interval: &Vec<(i64, i64)>, should_minimize: bool) -> (r: Optimizer)
        requires
            wf_bounds(input_interval@),
        ensures
            r.wf(),
            r.dims() == input_interval@.len(),
            r.bounds() == input_interval@,
            r.minimizing() == should_minimize,
            r.bootstrapping(),
            r.bootstrap_index() == 0,
            !r.pending(),
            r.queue_size() == 0,
            r.depth_setting() == 6,
            r.best_value() == 0,
            r.least_value() == 0,
            r.bootstrap_corners().len() == r.dims() + 1,
            forall|k: int|
                0 <= k < r.bootstrap_corners().len() ==> (
                #[trigger] r.bootstrap_corners()[k]).coordinates@ == initial_corner(r.dims(), k),
            forall|k: int| 0 <= k < r.bootstrap_corners().len() ==> r.bootstrap_values()[k] == 0,
            forall|j: int| 0 <= j < r.dims() ==> r.suggestion_at(j) == input_interval@[j].0,
    {
        let search_space = SearchSpace::new(input_interval);
        let initial_simplex = Simplex::initial_simplex(&search_space);
        let best_point = copy_point(&initial_simplex.corners[0]);
        let queue = pq_new();
        let r = Optimizer {
            exploration_depth: 6,
            minimize: should_minimize,
            search_space,
            simplices: Vec::new(),
            queue,
            best_point,
            min_value: 0,
            in_progress_simplex: Some((0usize, initial_simplex)),
            current_simplex: None,
            current_difference: None,
        };
        proof {
            assert(pq_empty().dom() =~= Set::<usize>::empty());
            assert forall|j: int| 0 <= j < r.dims() implies r.suggestion_at(j)
                == input_interval@[j].0 by {
                let bs = r.bounds();
                let x = r.bootstrap_corners()[0].coordinates@;
                assert(x[j] == 0);
                assert((bs[j].1 - bs[j].0) * 0 == 0) by (nonlinear_arith);
                vstd::arithmetic::div_mod::lemma_div_of0(SCALE as int);
            }
        }
        r
    }

    /// Sets the exploration depth for the search.
    ///
    /// `exploration_depth` is roughly the number of splits the search may
    /// exploit before requiring higher-level exploration: `0` behaves like
    /// uniform grid refinement, large values focus on the best-known
    /// region.  The effective depth is `exploration_depth + 1`, so even `0`
    /// keeps a nonzero exploitation term.  Scores already sitting in the
    /// queue are not recomputed, so this should be called before the first
    /// suggestion.
    pub fn set_exploration_depth(self, exploration_depth: usize) -> (r: Self)
        requires
            self.wf(),
            exploration_depth <= 0x7fff_ffff_ffff_fffe,
        ensures
            r.wf(),
            r.depth_setting() == exploration_depth + 1,
            r.dims() == self.dims(),
            r.bounds() == self.bounds(),
            r.minimizing() == self.minimizing(),
            r.bootstrapping() == self.bootstrapping(),
            r.bootstrapping() ==> r.bootstrap_index() == self.bootstrap_index()
                && r.bootstrap_corners() == self.bootstrap_corners(),
            r.pending() == self.pending(),
            r.queue_size() == self.queue_size(),
            r.best_value() == self.best_value(),
            r.least_value() == self.least_value(),
            r.best_coordinates() == self.best_coordinates(),
            forall|j: int| #[trigger] r.suggestion_at(j) == self.suggestion_at(j),
            forall|id: usize| #[trigger] r.queued(id) == self.queued(id),
            forall|id: usize|
                r.queued(id) ==> #[trigger] r.queued_priority(id) == self.queued_priority(id),
            forall|id: usize| #[trigger] r.queued_simplex(id) == self.queued_simplex(id),
            r.arena_size() == self.arena_size(),
            r.pending() ==> r.pending_id() == self.pending_id() && r.pending_range()
                == self.pending_range(),
    {
        let mut r = self;
        r.exploration_depth = (exploration_depth as i64) + 1;
        r
    }
    /// Enters the now fully evaluated initial simplex into the queue and
    /// records the best and least corner values as the global trackers.
    fn finalize_initial_simplex(&mut self, simplex: Simplex)
        requires
            old(self).search_space.wf(),
            1 <= old(self).exploration_depth,
            forall|i: int|
                0 <= i < old(self).simplices@.len() ==> wf_simplex(
                    #[trigger] old(self).simplices@[i],
                    old(self).dims(),
                ),
            pq_contents(old(self).queue) == pq_empty(),
            old(self).in_progress_simplex is None,
            old(self).current_simplex is None,
            old(self).current_difference is None,
            wf_simplex(simplex, old(self).dims()),
        ensures
            final(self).wf(),
            final(self).dims() == old(self).dims(),
            final(self).bounds() == old(self).bounds(),
            final(self).minimizing() == old(self).minimizing(),
            final(self).depth_setting() == old(self).depth_setting(),
            !final(self).bootstrapping(),
            !final(self).pending(),
            final(self).queue_size() == 1,
            final(self).best_value() == best_corner_value(simplex.corners@),
            final(self).least_value() == min_corner_value(simplex.corners@),
            exists|k: int|
                0 <= k < simplex.corners@.len() && final(self).best_coordinates() == (
                #[trigger] simplex.corners@[k]).coordinates@ && simplex.corners@[k].value
                    == best_corner_value(simplex.corners@),
            forall|id: usize|
                final(self).queued(id) ==> is_centroid(
                    #[trigger] final(self).queued_center(id),
                    simplex.corners@,
                    old(self).dims(),
                ),
            forall|id: usize|
                final(self).queued(id) ==> (#[trigger] final(self).queued_priority(id)).0 == 0
                    && final(self).queued_priority(id).1 == usize::MAX - id,
    {
        let bi = best_corner_index(&simplex.corners);
        let best_point = copy_point(&simplex.corners[bi]);
        let mi = min_corner_index(&simplex.corners);
        let min_value = simplex.corners[mi].value;
        proof {
            lemma_corner_value_bounds(simplex.corners@);
        }
        let id = self.simplices.len();
        self.simplices.push(simplex);
        pq_push(&mut self.queue, id, (0i64, usize::MAX - id));
        self.min_value = min_value;
        self.best_point = best_point;
        proof {
            assert(pq_contents(self.queue).dom() =~= Set::<usize>::empty().insert(id));
            assert(!Set::<usize>::empty().contains(id));
        }
    }

    /// During bootstrap: stores the reported value into the corner under
    /// evaluation and advances the corner pointer; on the last corner,
    /// finalizes the initial simplex.
    fn step_in_progress_simplex(&mut self, value: i64)
        requires
            old(self).wf(),
            old(self).bootstrapping(),
            -VALUE_LIMIT <= value <= VALUE_LIMIT,
        ensures
            final(self).wf(),
            final(self).dims() == old(self).dims(),
            final(self).bounds() == old(self).bounds(),
            final(self).minimizing() == old(self).minimizing(),
            final(self).depth_setting() == old(self).depth_setting(),
            !final(self).pending(),
            old(self).bootstrap_index() < old(self).dims() ==> {
                &&& final(self).bootstrapping()
                &&& final(self).bootstrap_index() == old(self).bootstrap_index() + 1
                &&& final(self).queue_size() == 0
                &&& final(self).best_value() == old(self).best_value()
                &&& final(self).least_value() == old(self).least_value()
                &&& final(self).best_coordinates() == old(self).best_coordinates()
                &&& final(self).bootstrap_values() =~= old(self).bootstrap_values().update(
                    old(self).bootstrap_index(),
                    value,
                )
                &&& final(self).bootstrap_corners().len() == old(self).bootstrap_corners().len()
                &&& forall|k: int|
                    0 <= k < final(self).bootstrap_corners().len() ==> (
                    #[trigger] final(self).bootstrap_corners()[k]).coordinates@ == old(self).bootstrap_corners()[k].coordinates@
            },
            old(self).bootstrap_index() == old(self).dims() ==> {
                &&& !final(self).bootstrapping()
                &&& final(self).queue_size() == 1
                &&& final(self).best_value() == seq_max(
                    old(self).bootstrap_values().update(old(self).bootstrap_index(), value),
                )
                &&& final(self).least_value() == seq_min(
                    old(self).bootstrap_values().update(old(self).bootstrap_index(), value),
                )
                &&& forall|id: usize|
                    final(self).queued(id) ==> is_centroid(
                        #[trigger] final(self).queued_center(id),
                        old(self).bootstrap_corners(),
                        old(self).dims(),
                    )
                &&& forall|id: usize|
                    final(self).queued(id) ==> (#[trigger] final(self).queued_priority(id)).0 == 0
            },
    {
        let ip = self.in_progress_simplex.take();
        match ip {
            Some((dim, mut simplex)) => {
                let ghost old_corners = simplex.corners@;
                let coordinates = copy_coords(&simplex.corners[dim].coordinates);
                simplex.corners[dim] = Point { coordinates, value };
                proof {
                    assert forall|j: int| 0 <= j < old(self).dims() implies crate::simplex::coord_sum(
                        simplex.corners@,
                        j,
                    ) == crate::simplex::coord_sum(old_corners, j) by {
                        lemma_coord_sum_congruence(simplex.corners@, old_corners, j);
                    }
                    assert(wf_simplex(simplex, old(self).dims()));
                }
                let ghost updated_values = old(self).bootstrap_values().update(
                    old(self).bootstrap_index(),
                    value,
                );
                proof {
                    assert forall|k: int| 0 <= k < simplex.corners@.len() implies (
                    #[trigger] simplex.corners@[k]).value == updated_values[k] by {}
                }
                let dim2 = dim + 1;
                if dim2 < simplex.corners.len() {
                    self.in_progress_simplex = Some((dim2, simplex));
                    proof {
                        assert(final(self).bootstrap_values() =~= updated_values);
                    }
                } else {
                    let ghost scs = simplex.corners@;
                    self.finalize_initial_simplex(simplex);
                    proof {
                        lemma_corner_values(scs, updated_values);
                        assert forall|id: usize| final(self).queued(id) implies is_centroid(
                            #[trigger] final(self).queued_center(id),
                            old(self).bootstrap_corners(),
                            old(self).dims(),
                        ) by {
                            assert(is_centroid(
                                final(self).queued_center(id),
                                scs,
                                old(self).dims(),
                            ));
                            assert forall|j: int| 0 <= j < old(self).dims() implies crate::simplex::coord_sum(
                                old(self).bootstrap_corners(),
                                j,
                            ) == crate::simplex::coord_sum(scs, j) by {
                                lemma_coord_sum_congruence(
                                    old(self).bootstrap_corners(),
                                    scs,
                                    j,
                                );
                            }
                        }
                    }
                }
            },
            None => {
                proof {
                    assert(false);
                }
            },
        }
    }

    /// The next point to evaluate, in domain coordinates.
    ///
    /// During bootstrap this is the corner of the initial simplex currently
    /// under evaluation.  In steady state it pops the most promising
    /// simplex, lazily repairing stale scores on the way (restamping and
    /// reinserting at most one full pass over the queue), and suggests the
    /// popped simplex's centroid.  Calling this twice without reporting a
    /// value in between returns the same suggestion and leaves the state
    /// untouched.
    #[verifier::loop_isolation(false)]
    pub fn next_explore_point(&mut self) -> (r: Vec<i64>)
        requires
            old(self).wf(),
        ensures
            final(self).wf(),
            r@.len() == old(self).dims(),
            forall|j: int| 0 <= j < r@.len() ==> r@[j] == final(self).suggestion_at(j),
            old(self).bootstrapping() || old(self).pending() ==> *final(self) == *old(self),
            final(self).bootstrapping() == old(self).bootstrapping(),
            !old(self).bootstrapping() ==> final(self).pending(),
            final(self).dims() == old(self).dims(),
            final(self).bounds() == old(self).bounds(),
            final(self).minimizing() == old(self).minimizing(),
            final(self).depth_setting() == old(self).depth_setting(),
            final(self).best_value() == old(self).best_value(),
            final(self).least_value() == old(self).least_value(),
            final(self).best_coordinates() == old(self).best_coordinates(),
            old(self).pending() ==> final(self).pending_id() == old(self).pending_id(),
            final(self).arena_size() == old(self).arena_size(),
            !old(self).bootstrapping() && !old(self).pending() ==> {
                &&& final(self).queue_size() == old(self).queue_size() - 1
                &&& old(self).queued(final(self).pending_id())
                &&& !final(self).queued(final(self).pending_id())
                &&& same_geometry(
                    final(self).pending_simplex(),
                    old(self).queued_simplex(final(self).pending_id()),
                )
                &&& final(self).pending_center() == old(self).queued_center(
                    final(self).pending_id(),
                )
                &&& final(self).pending_range() == old(self).best_value() - old(self).least_value()
                &&& forall|id: usize| #[trigger]
                    final(self).queued(id) ==> old(self).queued(id) && id != final(self).pending_id()
                &&& forall|id: usize| #[trigger]
                    old(self).queued(id) && id != final(self).pending_id() ==> final(self).queued(id)
                &&& forall|id: usize| #[trigger]
                    final(self).queued(id) ==> same_geometry(
                        final(self).queued_simplex(id),
                        old(self).queued_simplex(id),
                    )
                &&& forall|id: usize| #[trigger]
                    final(self).queued(id) ==> ((final(self).queued_simplex(id) == old(self).queued_simplex(id) && final(self).queued_priority(id) == old(self).queued_priority(id)) || (final(self).queued_simplex(id).cached_range == old(self).best_value() - old(self).least_value() && final(self).queued_priority(id).0
                        == score_spec(
                        final(self).queued_simplex(id),
                        old(self).depth_setting(),
                        old(self).best_value(),
                        old(self).least_value(),
                    ) && final(self).queued_priority(id).1 == usize::MAX - id))
            },
            !old(self).bootstrapping() && !old(self).pending() && old(self).fresh_scores()
                ==> forall|id: usize| #[trigger]
                old(self).queued(id) ==> prio_le(
                    old(self).queued_priority(id),
                    old(self).queued_priority(final(self).pending_id()),
                ),
    {
        match &self.in_progress_simplex {
            Some((dim, simplex)) => {
                let r = self.search_space.to_domain(&simplex.corners[*dim].coordinates);
                return r;
            },
            None => {},
        }
        match &self.current_simplex {
            Some(id) => {
                let sid: usize = *id;
                let r = self.search_space.to_domain(&self.simplices[sid].center);
                return r;
            },
            None => {},
        }

        // gets the exploration depth for later use
        let exploration_depth = self.exploration_depth;

        // gets an up to date simplex
        let popped = pq_pop(&mut self.queue);
        let mut sid: usize = match popped {
            Some(p) => p.0,
            None => {
                proof {
                    assert(pq_empty().dom() =~= Set::<usize>::empty());
                }
                vstd::pervasive::unreached()
            },
        };
        let current_difference = self.best_point.value - self.min_value;
        let ghost pre = *self;
        let ghost sid0 = sid;
        let mut n_iter: usize = 0;
        let max_iter = pq_len(&self.queue);
        while self.simplices[sid].cached_range != current_difference && n_iter < max_iter
            invariant
                sid < self.simplices@.len(),
                self.simplices@.len() == pre.simplices@.len(),
                forall|i: int|
                    0 <= i < self.simplices@.len() ==> wf_simplex(
                        #[trigger] self.simplices@[i],
                        pre.dims(),
                    ),
                forall|i: int|
                    0 <= i < self.simplices@.len() ==> same_geometry(
                        #[trigger] self.simplices@[i],
                        pre.simplices@[i],
                    ),
                forall|i: int|
                    0 <= i < self.simplices@.len() ==> (#[trigger] self.simplices@[i]).cached_range
                        == pre.simplices@[i].cached_range || self.simplices@[i].cached_range
                        == current_difference,
                old(self).fresh_scores() ==> sid == sid0,
                pq_contents(self.queue).dom().finite(),
                pq_contents(self.queue).dom().len() == max_iter,
                !pq_contents(self.queue).dom().contains(sid),
                forall|id: usize| #[trigger]
                    pq_contents(self.queue).dom().contains(id) ==> id < self.simplices@.len(),
                forall|id: usize| #[trigger]
                    pq_contents(self.queue).dom().contains(id) ==> pq_contents(
                        old(self).queue,
                    ).dom().contains(id) && id != sid,
                forall|id: usize| #[trigger]
                    pq_contents(old(self).queue).dom().contains(id) && id != sid ==> pq_contents(
                        self.queue,
                    ).dom().contains(id),
                forall|id: usize| #[trigger]
                    pq_contents(self.queue).dom().contains(id) ==> ((self.simplices@[id as int]
                        == old(self).simplices@[id as int] && pq_contents(self.queue)[id]
                        == pq_contents(old(self).queue)[id]) || (self.simplices@[
                        id as int].cached_range == current_difference && pq_contents(
                        self.queue,
                    )[id].0 == score_spec(
                        self.simplices@[id as int],
                        old(self).depth_setting(),
                        old(self).best_value(),
                        old(self).least_value(),
                    ) && pq_contents(self.queue)[id].1 == usize::MAX - id)),
                forall|id: usize| #[trigger]
                    pq_contents(self.queue).dom().contains(id) ==> pq_contents(self.queue)[id].1
                        == usize::MAX - id,
                pq_contents(old(self).queue).dom().contains(sid),
                self.search_space == pre.search_space,
                self.best_point == pre.best_point,
                self.min_value == pre.min_value,
                self.exploration_depth == pre.exploration_depth,
                self.minimize == pre.minimize,
                self.in_progress_simplex == pre.in_progress_simplex,
                self.current_simplex == pre.current_simplex,
                self.current_difference == pre.current_difference,
                n_iter <= max_iter,
            decreases max_iter - n_iter,
        {
            proof {
                if old(self).fresh_scores() {
                    assert(old(self).queued(sid0));
                    assert(old(self).simplices@[sid0 as int].cached_range == old(self).best_value()
                        - old(self).least_value());
                    assert(false);
                }
            }
            self.simplices[sid].cached_range = current_difference;
            let new_evaluation = self.simplices[sid].scored(
                exploration_depth,
                self.best_point.value,
                self.min_value,
            );
            pq_push(&mut self.queue, sid, (new_evaluation, usize::MAX - sid));
            // pops a new simplex
            let popped2 = pq_pop(&mut self.queue);
            let nsid: usize = match popped2 {
                Some(p) => p.0,
                None => {
                    proof {
                        assert(pq_empty().dom() =~= Set::<usize>::empty());
                        assert(!pq_empty().dom().contains(sid));
                    }
                    vstd::pervasive::unreached()
                },
            };
            sid = nsid;
            n_iter += 1;
        }

        self.current_simplex = Some(sid);
        self.current_difference = Some(current_difference);
        // suggest the centroid of the chosen simplex, as a domain point
        let r = self.search_space.to_domain(&self.simplices[sid].center);
        r
    }

    /// Reports the value observed at the pending suggestion and returns the
    /// best result so far as `(value, domain coordinates)`; the value is
    /// negated when the optimizer minimizes.
    ///
    /// During bootstrap this fills in the corner under evaluation and, on
    /// the last corner, enters the completed initial simplex into the
    /// queue.  In steady state it builds a point from the pending centroid
    /// (first materializing a suggestion if none is pending, so a report
    /// without a pending suggestion degrades gracefully), splits the
    /// pending simplex around that point, scores and queues the children,
    /// and refreshes the global best and least values.
    #[verifier::loop_isolation(false)]
    #[verifier::rlimit(60)]
    pub fn next_with_value(&mut self, value: i64) -> (r: (i64, Vec<i64>))
        requires
            old(self).wf(),
            -VALUE_LIMIT <= value <= VALUE_LIMIT,
        ensures
            final(self).wf(),
            final(self).dims() == old(self).dims(),
            final(self).bounds() == old(self).bounds(),
            final(self).minimizing() == old(self).minimizing(),
            final(self).depth_setting() == old(self).depth_setting(),
            !final(self).pending(),
            final(self).bootstrapping() == (old(self).bootstrapping()
                && old(self).bootstrap_index() < old(self).dims()),
            old(self).bootstrapping() && old(self).bootstrap_index() < old(self).dims() ==> {
                &&& final(self).bootstrap_index() == old(self).bootstrap_index() + 1
                &&& final(self).queue_size() == 0
                &&& final(self).best_value() == old(self).best_value()
                &&& final(self).least_value() == old(self).least_value()
                &&& final(self).best_coordinates() == old(self).best_coordinates()
                &&& final(self).bootstrap_values() =~= old(self).bootstrap_values().update(
                    old(self).bootstrap_index(),
                    oriented(old(self).minimizing(), value),
                )
                &&& final(self).bootstrap_corners().len() == old(self).bootstrap_corners().len()
                &&& forall|k: int|
                    0 <= k < final(self).bootstrap_corners().len() ==> (
                    #[trigger] final(self).bootstrap_corners()[k]).coordinates@ == old(self).bootstrap_corners()[k].coordinates@
            },
            (old(self).bootstrapping() && old(self).bootstrap_index() == old(self).dims()) ==> {
                &&& final(self).queue_size() == 1
                &&& final(self).best_value() == seq_max(
                    old(self).bootstrap_values().update(
                        old(self).bootstrap_index(),
                        oriented(old(self).minimizing(), value),
                    ),
                )
                &&& final(self).least_value() == seq_min(
                    old(self).bootstrap_values().update(
                        old(self).bootstrap_index(),
                        oriented(old(self).minimizing(), value),
                    ),
                )
                &&& forall|id: usize|
                    final(self).queued(id) ==> is_centroid(
                        #[trigger] final(self).queued_center(id),
                        old(self).bootstrap_corners(),
                        old(self).dims(),
                    )
                &&& forall|id: usize|
                    final(self).queued(id) ==> (#[trigger] final(self).queued_priority(id)).0 == 0
            },
            !old(self).bootstrapping() ==> {
                &&& final(self).queue_size() == (if old(self).pending() {
                    old(self).queue_size() as int
                } else {
                    old(self).queue_size() - 1
                }) + old(self).dims() + 1
                &&& final(self).best_value() == (if oriented(old(self).minimizing(), value)
                    > old(self).best_value() {
                    oriented(old(self).minimizing(), value) as int
                } else {
                    old(self).best_value()
                })
                &&& final(self).least_value() == (if oriented(old(self).minimizing(), value)
                    <= old(self).best_value() && oriented(old(self).minimizing(), value)
                    < old(self).least_value() {
                    oriented(old(self).minimizing(), value) as int
                } else {
                    old(self).least_value()
                })
                &&& final(self).best_value() >= old(self).best_value()
                &&& (oriented(old(self).minimizing(), value) <= old(self).best_value()
                    ==> final(self).best_coordinates() == old(self).best_coordinates())
                &&& (old(self).pending() && oriented(old(self).minimizing(), value)
                    > old(self).best_value() ==> final(self).best_coordinates()
                    == old(self).pending_center())
                &&& (old(self).pending() ==> reported_step(
                    *old(self),
                    *final(self),
                    old(self).pending_id(),
                    oriented(old(self).minimizing(), value),
                    old(self).pending_range(),
                ))
                &&& (!old(self).pending() ==> exists|sel: usize|
                    #[trigger] old(self).queued(sel) && reported_step(
                        *old(self),
                        *final(self),
                        sel,
                        oriented(old(self).minimizing(), value),
                        old(self).best_value() - old(self).least_value(),
                    ) && (oriented(old(self).minimizing(), value) > old(self).best_value()
                        ==> final(self).best_coordinates() == old(self).queued_center(sel)))
            },
            r.0 == (if final(self).minimizing() {
                -final(self).best_value()
            } else {
                final(self).best_value()
            }),
            r.1@.len() == final(self).dims(),
            forall|j: int|
                0 <= j < r.1@.len() ==> r.1@[j] == to_domain_at(
                    final(self).bounds(),
                    final(self).best_coordinates(),
                    j,
                ),
    {
        let ghost value0 = value;
        // minimization is handled here at the boundary: internally the
        // search always maximizes
        let value: i64 = if self.minimize {
            -value
        } else {
            value
        };
        if self.in_progress_simplex.is_some() {
            self.step_in_progress_simplex(value);
            let best_value = if self.minimize {
                -self.best_point.value
            } else {
                self.best_point.value
            };
            let best_coordinate = self.search_space.to_domain(&self.best_point.coordinates);
            return (best_value, best_coordinate);
        }

        let exploration_depth = self.exploration_depth;
        // a report with no pending suggestion first materializes one
        if self.current_simplex.is_none() {
            let _ = self.next_explore_point();
        }
        let ghost s1 = *self;
        let sid: usize = match self.current_simplex {
            Some(id) => id,
            None => vstd::pervasive::unreached(),
        };
        let current_difference: i64 = match self.current_difference {
            Some(dv) => dv,
            None => vstd::pervasive::unreached(),
        };
        // the pending suggestion is consumed
        self.current_simplex = None;
        self.current_difference = None;

        let coordinates = copy_coords(&self.simplices[sid].center);
        let new_point = Point { coordinates, value };
        let ghost np = new_point;

        // splits the simplex around its center and queues the children
        let d = self.search_space.bounds.len();
        let mut children = self.simplices[sid].split(&new_point, current_difference, d);
        let ghost children0 = children@;
        let ghost pre = *self;
        let ghost entry_size = pq_contents(self.queue).dom().len();
        let ghost entryc = pq_contents(self.queue);
        proof {
            assert(forall|id: usize|
                entryc.dom().contains(id) ==> id < pre.simplices@.len());
        }
        while children.len() > 0
            invariant
                children@ == children0.take(children@.len() as int),
                children@.len() <= children0.len(),
                is_split_of(children0, pre.simplices@[sid as int], new_point, current_difference, pre.dims()),
                sid < pre.simplices@.len(),
                self.simplices@.len() == pre.simplices@.len() + children0.len() - children@.len(),
                forall|i: int|
                    0 <= i < self.simplices@.len() ==> wf_simplex(
                        #[trigger] self.simplices@[i],
                        pre.dims(),
                    ),
                pq_contents(self.queue).dom().finite(),
                pq_contents(self.queue).dom().len() == entry_size + children0.len()
                    - children@.len(),
                forall|id: usize| #[trigger]
                    pq_contents(self.queue).dom().contains(id) ==> id < self.simplices@.len(),
                forall|id: usize| #[trigger]
                    pq_contents(self.queue).dom().contains(id) ==> pq_contents(self.queue)[id].1
                        == usize::MAX - id,
                forall|i: int| 0 <= i < pre.simplices@.len() ==> self.simplices@[i]
                    == pre.simplices@[i],
                forall|id: usize| #[trigger]
                    pq_contents(self.queue).dom().contains(id) ==> (entryc.dom().contains(id)
                        || pre.simplices@.len() <= id < self.simplices@.len()),
                forall|id: usize| #[trigger]
                    entryc.dom().contains(id) ==> pq_contents(self.queue).dom().contains(id)
                        && pq_contents(self.queue)[id] == entryc[id],
                forall|id: usize|
                    pre.simplices@.len() <= id < self.simplices@.len() ==> #[trigger] pq_contents(
                        self.queue,
                    ).dom().contains(id) && pq_contents(self.queue)[id].0 == score_spec(
                        self.simplices@[id as int],
                        pre.exploration_depth as int,
                        pre.best_point.value as int,
                        pre.min_value as int,
                    ) && pq_contents(self.queue)[id].1 == usize::MAX - id && self.simplices@[
                        id as int] == children0[children0.len() - 1 - (id - pre.simplices@.len())],
                self.search_space == pre.search_space,
                self.best_point == pre.best_point,
                self.min_value == pre.min_value,
                self.exploration_depth == pre.exploration_depth,
                self.minimize == pre.minimize,
                self.in_progress_simplex == pre.in_progress_simplex,
                self.current_simplex == pre.current_simplex,
                self.current_difference == pre.current_difference,
            decreases children@.len(),
        {
            let ghost n = children@.len() as int;
            let ghost qb = pq_contents(self.queue);
            let ghost sb = self.simplices@;
            let child = match children.pop() {
                Some(c) => c,
                None => vstd::pervasive::unreached(),
            };
            proof {
                assert(children0.take(n).drop_last() =~= children0.take(n - 1));
                assert(children0.take(n).last() == children0[n - 1]);
            }
            let score = child.scored(exploration_depth, self.best_point.value, self.min_value);
            let id = self.simplices.len();
            self.simplices.push(child);
            pq_push(&mut self.queue, id, (score, usize::MAX - id));
            proof {
                assert(pq_contents(self.queue) == qb.insert(id, (score, (usize::MAX - id) as usize)));
                assert(self.simplices@ == sb.push(children0[n - 1]));
                assert(self.simplices@[id as int] == children0[n - 1]);
                assert(n - 1 == children0.len() - 1 - (id - pre.simplices@.len()));
                assert forall|idd: usize|
                    pre.simplices@.len() <= idd < self.simplices@.len() implies #[trigger] pq_contents(
                    self.queue,
                ).dom().contains(idd) && pq_contents(self.queue)[idd].0 == score_spec(
                    self.simplices@[idd as int],
                    pre.exploration_depth as int,
                    pre.best_point.value as int,
                    pre.min_value as int,
                ) && pq_contents(self.queue)[idd].1 == usize::MAX - idd && self.simplices@[
                    idd as int] == children0[children0.len() - 1 - (idd
                    - pre.simplices@.len())] by {
                    if idd != id {
                        assert(idd < id);
                        assert(qb.dom().contains(idd));
                        assert(self.simplices@[idd as int] == sb[idd as int]);
                    }
                }
            }
        }

        // updates the global trackers
        if value > self.best_point.value {
            self.best_point = new_point;
        } else if value < self.min_value {
            self.min_value = value;
        }
        proof {
            let pro = *old(self);
            let postn = self.simplices@.len() as int;
            let pren = pre.simplices@.len() as int;
            let rng_g: int = if pro.pending() {
                pro.pending_range()
            } else {
                pro.best_value() - pro.least_value()
            };
            assert(value == oriented(pro.minimizing(), value0));
            assert(children0.len() == pro.dims() + 1);
            if pro.pending() {
                assert(s1 == pro);
            }
            assert(entryc == pq_contents(s1.queue));
            assert(!s1.queued(sid));
            assert(pren == pro.arena_size());
            assert(postn == (*self).arena_size());
            assert((*self).arena_size() == pro.arena_size() + pro.dims() + 1);
            // entries other than the consumed one survive, at most restamped
            assert forall|id: usize| #[trigger] pro.queued(id) && id != sid implies {
                &&& (*self).queued(id)
                &&& same_geometry((*self).queued_simplex(id), pro.queued_simplex(id))
                &&& (((*self).queued_simplex(id) == pro.queued_simplex(id)
                    && (*self).queued_priority(id) == pro.queued_priority(id)) || ((
                *self).queued_simplex(id).cached_range == pro.best_value() - pro.least_value()
                    && (*self).queued_priority(id).0 == score_spec(
                    (*self).queued_simplex(id),
                    pro.depth_setting(),
                    pro.best_value(),
                    pro.least_value(),
                ) && (*self).queued_priority(id).1 == usize::MAX - id))
            } by {
                assert(s1.queued(id));
                assert(entryc.dom().contains(id));
            }
            // nothing else is queued but the fresh children
            assert forall|id: usize| #[trigger] (*self).queued(id) implies ((pro.queued(id) && id
                != sid) || (pro.arena_size() <= id < (*self).arena_size())) by {
                if !(pren <= id < postn) {
                    assert(entryc.dom().contains(id));
                    assert(s1.queued(id));
                }
            }
            assert(!(*self).queued(sid));
            // the fresh arena tail holds exactly the queued children
            assert forall|id: usize| pren <= id < postn implies {
                &&& #[trigger] (*self).queued(id)
                &&& child_replacing(
                    (*self).queued_simplex(id),
                    pro.queued_simplex(sid),
                    pro.queued_center(sid),
                    value,
                    rng_g,
                    pren + pro.dims() - id,
                )
                &&& (*self).queued_priority(id).0 == score_spec(
                    (*self).queued_simplex(id),
                    pro.depth_setting(),
                    pro.best_value(),
                    pro.least_value(),
                )
                &&& (*self).queued_priority(id).1 == usize::MAX - id
            } by {
                assert(pq_contents(self.queue).dom().contains(id));
                assert(pro.dims() == pre.dims());
                let k = pren + pro.dims() - id;
                assert(children0.len() - 1 - (id - pre.simplices@.len()) == k);
                assert(self.simplices@[id as int] == children0[k]);
                assert(crate::point::points_equal(children0[k].corners@[k], np));
                assert(np.coordinates@ == pre.simplices@[sid as int].center@);
                assert(wf_simplex(children0[k], pro.dims()));
                assert(pro.queued_simplex(sid).corners@ == pre.simplices@[sid as int].corners@);
                assert(rng_g == current_difference as int);
            }
            if pro.pending() {
                assert(reported_step(pro, *self, sid, value, pro.pending_range()));
            } else {
                assert(pro.queued(sid));
                assert(reported_step(
                    pro,
                    *self,
                    sid,
                    value,
                    pro.best_value() - pro.least_value(),
                ));
            }
        }
        // gets the best value so far
        let best_value = if self.minimize {
            -self.best_point.value
        } else {
            self.best_point.value
        };
        let best_coordinate = self.search_space.to_domain(&self.best_point.coordinates);
        (best_value, best_coordinate)
    }
}

/// What one steady-state report does to the queue and the arena: the
/// consumed simplex `sel` has left the queue; every other queued entry
/// survives, at most restamped under the live range with a freshly clamped
/// score; and the fresh arena tail holds exactly the `d + 1` children of
/// the consumed simplex split around its centroid point (coordinates
/// `pre.queued_center(sel)`, value `pvalue`), each queued with its clamped
/// score.
pub open spec fn reported_step(
    pre: Optimizer,
    post: Optimizer,
    sel: usize,
    pvalue: i64,
    range: int,
) -> bool {
    &&& post.arena_size() == pre.arena_size() + pre.dims() + 1
    &&& !post.queued(sel)
    &&& forall|id: usize| #[trigger]
        post.queued(id) ==> ((pre.queued(id) && id != sel) || (pre.arena_size() <= id
            < post.arena_size()))
    &&& forall|id: usize| #[trigger]
        pre.queued(id) && id != sel ==> {
            &&& post.queued(id)
            &&& same_geometry(post.queued_simplex(id), pre.queued_simplex(id))
            &&& ((post.queued_simplex(id) == pre.queued_simplex(id) && post.queued_priority(id)
                == pre.queued_priority(id)) || (post.queued_simplex(id).cached_range
                == pre.best_value() - pre.least_value() && post.queued_priority(id).0
                == score_spec(
                post.queued_simplex(id),
                pre.depth_setting(),
                pre.best_value(),
                pre.least_value(),
            ) && post.queued_priority(id).1 == usize::MAX - id))
        }
    &&& forall|id: usize|
        pre.arena_size() <= id < post.arena_size() ==> {
            &&& #[trigger] post.queued(id)
            &&& child_replacing(
                post.queued_simplex(id),
                pre.queued_simplex(sel),
                pre.queued_center(sel),
                pvalue,
                range,
                pre.arena_size() + pre.dims() - id,
            )
            &&& post.queued_priority(id).0 == score_spec(
                post.queued_simplex(id),
                pre.depth_setting(),
                pre.best_value(),
                pre.least_value(),
            )
            &&& post.queued_priority(id).1 == usize::MAX - id
        }
}

/// Law: bootstrap completeness — no two corners of the canonical initial
/// simplex map to the same domain point, so the `d + 1` suggestions served
/// before the queue-based phase begins are pairwise distinct.
pub proof fn lemma_bootstrap_suggestions_distinct(bs: Seq<(i64, i64)>, d: nat, k1: int, k2: int)
    requires
        wf_bounds(bs),
        d == bs.len(),
        0 <= k1 < d + 1,
        0 <= k2 < d + 1,
        k1 != k2,
    ensures
        exists|j: int|
            0 <= j < d && #[trigger] to_domain_at(bs, initial_corner(d, k1), j) != to_domain_at(
                bs,
                initial_corner(d, k2),
                j,
            ),
{
    // the corners differ along the axis of the larger index: one sits at
    // the lower bound of that dimension, the other at the upper bound
    let hi = if k1 > k2 {
        k1
    } else {
        k2
    };
    let j = hi - 1;
    let span = bs[j].1 - bs[j].0;
    assert(span * SCALE / (SCALE as int) == span) by {
        vstd::arithmetic::div_mod::lemma_div_by_multiple(span, SCALE as int);
    }
    assert(span * 0 == 0) by (nonlinear_arith);
    vstd::arithmetic::div_mod::lemma_div_of0(SCALE as int);
    assert(initial_corner(d, hi)[j] == SCALE);
    assert(to_domain_at(bs, initial_corner(d, hi), j) == bs[j].1);
    let lo = if k1 > k2 {
        k2
    } else {
        k1
    };
    assert(initial_corner(d, lo)[j] == 0);
    assert(to_domain_at(bs, initial_corner(d, lo), j) == bs[j].0);
    assert(to_domain_at(bs, initial_corner(d, k1), j) != to_domain_at(bs, initial_corner(d, k2), j));
}

/// Law: no two queued simplices carry the same priority — the tie-break
/// component is determined by the arena index — so the top of the queue is
/// unique and the pop is deterministic.
pub proof fn lemma_queued_priorities_distinct(o: Optimizer, id1: usize, id2: usize)
    requires
        o.wf(),
        o.queued(id1),
        o.queued(id2),
        id1 != id2,
    ensures
        o.queued_priority(id1) != o.queued_priority(id2),
{
    assert(o.queued_priority(id1).1 == usize::MAX - id1);
    assert(o.queued_priority(id2).1 == usize::MAX - id2);
}

/// Law: in steady state with no suggestion outstanding the queue is never
/// empty, so a suggestion can always be served.
pub proof fn lemma_steady_queue_nonempty(o: Optimizer)
    requires
        o.wf(),
        !o.bootstrapping(),
        !o.pending(),
    ensures
        o.queue_size() >= 1,
{
}

} // verus!
