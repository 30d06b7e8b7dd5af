use vstd::prelude::*;
use priority_queue::PriorityQueue;
use rand::rngs::StdRng;
use rand::Rng;
use rand::seq::SliceRandom;
use crate::pos::Pos;
use std::cmp::Reverse;
use std::hash::Hash;

verus! {

#[verifier::external_type_specification]
#[verifier::external_body]
#[verifier::reject_recursive_types(T)]
pub struct ExReverse<T>(Reverse<T>);

#[verifier::external_type_specification]
#[verifier::external_body]
#[verifier::reject_recursive_types(I)]
#[verifier::reject_recursive_types(P)]
#[verifier::reject_recursive_types(H)]
pub struct ExPriorityQueue<I, P, H>(PriorityQueue<I, P, H>) where I: Hash + Eq, P: Ord;

#[verifier::external_type_specification]
#[verifier::external_body]
pub struct ExStdRng(StdRng);

/// Cells waiting for a decision, keyed by flat index, smallest count of
/// options first.
pub type Frontier = PriorityQueue<usize, Reverse<usize>>;

/// What a frontier holds: each queued cell index with its count of options.
pub uninterp spec fn frontier_entries(q: Frontier) -> Map<usize, usize>;

/// Relies on `PriorityQueue::new`: the queue starts empty.
#[verifier::external_body]
pub(crate) fn frontier_new() -> (r: Frontier)
    ensures
        frontier_entries(r).dom() == Set::<usize>::empty(),
{
    PriorityQueue::new()
}

/// Relies on `PriorityQueue::push`: the item is inserted with the priority,
/// or, when already queued, its priority is replaced.
#[verifier::external_body]
pub(crate) fn frontier_push(q: &mut Frontier, i: usize, count: usize)
    ensures
        frontier_entries(*final(q)) == frontier_entries(*old(q)).insert(i, count),
{
    q.push(i, Reverse(count));
}

/// Relies on `PriorityQueue::pop`: removes and returns an item of greatest
/// priority, here of smallest count; `None` when the queue is empty.
#[verifier::external_body]
pub(crate) fn frontier_pop(q: &mut Frontier) -> (r: Option<(usize, usize)>)
    ensures
        match r {
            None => frontier_entries(*old(q)).dom() == Set::<usize>::empty() && frontier_entries(*final(q))
                == frontier_entries(*old(q)),
            Some((i, c)) => {
                &&& frontier_entries(*old(q)).contains_key(i)
                &&& frontier_entries(*old(q))[i] == c
                &&& forall|k: usize| #[trigger]
                    frontier_entries(*old(q)).contains_key(k) ==> c <= frontier_entries(*old(q))[k]
                &&& frontier_entries(*final(q)) == frontier_entries(*old(q)).remove(i)
            },
        },
{
    q.pop().map(|(i, Reverse(c))| (i, c))
}

/// Relies on `PriorityQueue::peek`: an item of greatest priority, here of
/// smallest count, left in place; `None` when the queue is empty.
#[verifier::external_body]
pub(crate) fn frontier_peek(q: &Frontier) -> (r: Option<(usize, usize)>)
    ensures
        match r {
            None => frontier_entries(*q).dom() == Set::<usize>::empty(),
            Some((i, c)) => {
                &&& frontier_entries(*q).contains_key(i)
                &&& frontier_entries(*q)[i] == c
                &&& forall|k: usize| #[trigger]
                    frontier_entries(*q).contains_key(k) ==> c <= frontier_entries(*q)[k]
            },
        },
{
    q.peek().map(|(i, Reverse(c))| (*i, *c))
}

/// Relies on `PriorityQueue::is_empty`.
#[verifier::external_body]
pub(crate) fn frontier_is_empty(q: &Frontier) -> (r: bool)
    ensures
        r == (frontier_entries(*q).dom() == Set::<usize>::empty()),
{
    q.is_empty()
}

/// Relies on `Rng::gen_range` over `0..n`: a value drawn below `n`.
#[verifier::external_body]
pub(crate) fn random_below(rng: &mut StdRng, n: usize) -> (r: usize)
    requires
        n > 0,
    ensures
        r < n,
{
    rng.gen_range(0..n)
}

/// Relies on `SliceRandom::choose`: one of the items, `None` only when there
/// are none.
#[verifier::external_body]
pub(crate) fn choose_pos(rng: &mut StdRng, items: &Vec<Pos>) -> (r: Option<Pos>)
    ensures
        r is None <==> items@.len() == 0,
        r matches Some(p) ==> items@.contains(p),
{
    items.choose(rng).copied()
}

} // verus!
