//! The queue of live faults: faults that fired with a lifespan and wait to
//! be reverted. It is a `priority_queue::PriorityQueue` keyed by the fault's
//! trigger address; the greatest priority comes out first.
use priority_queue::PriorityQueue;
use std::collections::hash_map::RandomState;
use std::hash::Hash;
use vstd::prelude::*;

verus! {

#[verifier::external_type_specification]
#[verifier::external_body]
#[verifier::reject_recursive_types(I)]
#[verifier::reject_recursive_types(P)]
#[verifier::reject_recursive_types(H)]
pub struct ExPriorityQueue<I, P, H = RandomState>(PriorityQueue<I, P, H>) where
    I: Hash + Eq,
    P: Ord,
;

/// A queue of live faults: trigger address with priority.
pub type LiveQueue = PriorityQueue<u64, u64>;

/// What a queue of live faults holds: each item with its priority.
pub uninterp spec fn queue_entries(q: LiveQueue) -> Map<u64, u64>;

/// The queue holds nothing.
pub open spec fn no_entries(q: Map<u64, u64>) -> bool {
    q.dom() == Set::<u64>::empty()
}

/// The entry that comes out first: an item of greatest priority.
pub open spec fn is_top(q: Map<u64, u64>, item: u64, priority: u64) -> bool {
    &&& q.contains_key(item)
    &&& q[item] == priority
    &&& forall|j: u64| q.contains_key(j) ==> q[j] <= priority
}

/// Relies on `PriorityQueue::new`: an empty queue.
#[verifier::external_body]
pub(crate) fn queue_new() -> (r: LiveQueue)
    ensures
        no_entries(queue_entries(r)),
{
    PriorityQueue::new()
}

/// Relies on `PriorityQueue::push`: the item is inserted with its priority,
/// or its priority is replaced; the old priority comes back.
#[verifier::external_body]
pub(crate) fn queue_push(q: &mut LiveQueue, item: u64, priority: u64) -> (r: Option<
    u64,
>)
    ensures
        queue_entries(*final(q)) == queue_entries(*old(q)).insert(item, priority),
        r == (if queue_entries(*old(q)).contains_key(item) {
            Some(queue_entries(*old(q))[item])
        } else {
            None
        }),
{
    q.push(item, priority)
}

/// Relies on `PriorityQueue::peek`: an entry of greatest priority, or
/// nothing when the queue is empty.
#[verifier::external_body]
pub(crate) fn queue_peek(q: &LiveQueue) -> (r: Option<(u64, u64)>)
    ensures
        r is None <==> no_entries(queue_entries(*q)),
        r matches Some((i, p)) ==> is_top(queue_entries(*q), i, p),
{
    q.peek().map(|(i, p)| (*i, *p))
}

/// Relies on `PriorityQueue::pop`: removes and returns an entry of greatest
/// priority, or nothing when the queue is empty.
#[verifier::external_body]
pub(crate) fn queue_pop(q: &mut LiveQueue) -> (r: Option<(u64, u64)>)
    ensures
        r is None <==> no_entries(queue_entries(*old(q))),
        r is None ==> queue_entries(*final(q)) == queue_entries(*old(q)),
        r matches Some((i, p)) ==> is_top(queue_entries(*old(q)), i, p) && queue_entries(
            *final(q),
        ) == queue_entries(*old(q)).remove(i),
{
    q.pop()
}

/// Relies on `PriorityQueue::is_empty`.
#[verifier::external_body]
pub(crate) fn queue_is_empty(q: &LiveQueue) -> (r: bool)
    ensures
        r <==> no_entries(queue_entries(*q)),
{
    q.is_empty()
}

} // verus!
