use priority_queue::PriorityQueue;
use std::hash::Hash;
use vstd::prelude::*;

verus! {

#[verifier::external_type_specification]
#[verifier::external_body]
#[verifier::reject_recursive_types(I)]
#[verifier::reject_recursive_types(P)]
#[verifier::reject_recursive_types(H)]
pub struct ExPriorityQueue<I, P, H>(PriorityQueue<I, P, H>) where I: Hash + Eq, P: Ord;

/// A max-priority queue of node indices.
pub type NodeQueue = PriorityQueue<usize, u64>;

/// The items of a priority queue of node indices, each with its priority.
pub uninterp spec fn queue_priorities(q: NodeQueue) -> Map<usize, u64>;

/// Relies on `PriorityQueue::new`: the queue starts empty.
#[verifier::external_body]
pub(crate) fn queue_new() -> (r: NodeQueue)
    ensures
        queue_priorities(r).dom().is_empty(),
{
    PriorityQueue::new()
}

/// Relies on `PriorityQueue::push`: the item is stored with the priority, replacing
/// the priority it had, which is returned.
#[verifier::external_body]
pub(crate) fn queue_push(q: &mut NodeQueue, item: usize, priority: u64) -> (r:
    Option<u64>)
    ensures
        queue_priorities(*final(q)) == queue_priorities(*old(q)).insert(item, priority),
        r == (if queue_priorities(*old(q)).contains_key(item) {
            Some(queue_priorities(*old(q))[item])
        } else {
            None::<u64>
        }),
{
    q.push(item, priority)
}

/// Relies on `PriorityQueue::pop`: it removes and returns an item of greatest
/// priority, or `None` when the queue is empty.
#[verifier::external_body]
pub(crate) fn queue_pop(q: &mut NodeQueue) -> (r: Option<(usize, u64)>)
    ensures
        match r {
            None => queue_priorities(*old(q)).dom().is_empty() && queue_priorities(*final(q))
                == queue_priorities(*old(q)),
            Some((item, priority)) => {
                &&& queue_priorities(*old(q)).contains_key(item)
                &&& queue_priorities(*old(q))[item] == priority
                &&& forall|j: usize| #[trigger]
                    queue_priorities(*old(q)).contains_key(j) ==> queue_priorities(*old(q))[j]
                        <= priority
                &&& queue_priorities(*final(q)) == queue_priorities(*old(q)).remove(item)
            },
        },
{
    q.pop()
}

/// Relies on `PriorityQueue::change_priority`: an item in the queue gets the new
/// priority and its old one is returned; otherwise nothing changes.
#[verifier::external_body]
pub(crate) fn queue_change_priority(
    q: &mut NodeQueue,
    item: &usize,
    priority: u64,
) -> (r: Option<u64>)
    ensures
        queue_priorities(*old(q)).contains_key(*item) ==> {
            &&& queue_priorities(*final(q)) == queue_priorities(*old(q)).insert(*item, priority)
            &&& r == Some(queue_priorities(*old(q))[*item])
        },
        !queue_priorities(*old(q)).contains_key(*item) ==> {
            &&& queue_priorities(*final(q)) == queue_priorities(*old(q))
            &&& r == None::<u64>
        },
{
    q.change_priority(item, priority)
}

/// Relies on `PriorityQueue::get_priority`: the priority of an item in the queue.
#[verifier::external_body]
pub(crate) fn queue_get_priority(q: &NodeQueue, item: &usize) -> (r: Option<u64>)
    ensures
        r == (if queue_priorities(*q).contains_key(*item) {
            Some(queue_priorities(*q)[*item])
        } else {
            None::<u64>
        }),
{
    q.get_priority(item).copied()
}

} // verus!
