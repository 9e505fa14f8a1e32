//! The simplex queue: a max-priority queue from the `priority_queue` crate,
//! holding arena indices of simplices keyed by their priority.  A priority
//! is a `(score, tie_break)` pair of integers, compared lexicographically,
//! so ties in the score are broken deterministically.
//!
//! The queue's abstract contents are the map [`pq_contents`] from queued
//! index to its priority: `priority_queue::PriorityQueue` keeps at most one
//! entry per item, updating the priority when an item is pushed again.

use vstd::prelude::*;

verus! {

/// Declares the outside queue type so that it can stand in fields and
/// signatures; its inside stays opaque to the verifier.
#[verifier::external_type_specification]
#[verifier::external_body]
#[verifier::reject_recursive_types(I)]
#[verifier::reject_recursive_types(P)]
#[verifier::reject_recursive_types(H)]
pub struct ExPriorityQueue<I, P, H>(priority_queue::PriorityQueue<I, P, H>);

/// What the queue holds: each queued arena index, mapped to the priority it
/// was last pushed with.
pub uninterp spec fn pq_contents(q: priority_queue::PriorityQueue<usize, (i64, usize)>) -> Map<
    usize,
    (i64, usize),
>;

/// Lexicographic order on priorities, as `Ord` on tuples of integers
/// compares them.
pub open spec fn prio_le(a: (i64, usize), b: (i64, usize)) -> bool {
    a.0 < b.0 || (a.0 == b.0 && a.1 <= b.1)
}

/// The empty contents.
pub open spec fn pq_empty() -> Map<usize, (i64, usize)> {
    Map::empty()
}

/// Relies on `priority_queue::PriorityQueue::new`: creates an empty queue.
#[verifier::external_body]
pub fn pq_new() -> (queue: priority_queue::PriorityQueue<usize, (i64, usize)>)
    ensures
        pq_contents(queue) == pq_empty(),
{
    priority_queue::PriorityQueue::new()
}

/// Relies on `priority_queue::PriorityQueue::push`: inserts the
/// `(item, priority)` pair; if the item is already queued, only its
/// priority is updated.  Either way the new contents are the old contents
/// with `item` now mapped to `prio`.
#[verifier::external_body]
pub fn pq_push(
    q: &mut priority_queue::PriorityQueue<usize, (i64, usize)>,
    item: usize,
    prio: (i64, usize),
)
    ensures
        pq_contents(*final(q)) == pq_contents(*old(q)).insert(item, prio),
        pq_contents(*final(q)).dom().finite(),
{
    q.push(item, prio);
}

/// Relies on `priority_queue::PriorityQueue::pop`: removes and returns a
/// pair `(item, priority)` whose priority is greatest in the queue, or
/// `None` if and only if the queue is empty.
#[verifier::external_body]
pub fn pq_pop(q: &mut priority_queue::PriorityQueue<usize, (i64, usize)>) -> (r: Option<
    (usize, (i64, usize)),
>)
    ensures
        pq_contents(*final(q)).dom().finite(),
        match r {
            None => {
                &&& pq_contents(*old(q)) == pq_empty()
                &&& *final(q) == *old(q)
            },
            Some((item, prio)) => {
                &&& pq_contents(*old(q)).dom().contains(item)
                &&& pq_contents(*old(q))[item] == prio
                &&& forall|j: usize|
                    pq_contents(*old(q)).dom().contains(j) ==> prio_le(
                        #[trigger] pq_contents(*old(q))[j],
                        prio,
                    )
                &&& pq_contents(*final(q)) == pq_contents(*old(q)).remove(item)
            },
        },
{
    q.pop()
}

/// Relies on `priority_queue::PriorityQueue::len`: the number of queued
/// items.
#[verifier::external_body]
pub fn pq_len(q: &priority_queue::PriorityQueue<usize, (i64, usize)>) -> (r: usize)
    ensures
        r == pq_contents(*q).dom().len(),
{
    q.len()
}

} // verus!
