//! Visiting the children of a node, in parallel where the node asks for it.

use rayon::iter::IntoParallelIterator;
use rayon::iter::ParallelIterator;
use vstd::prelude::*;

verus! {

/// Runs `op` on each item on rayon's thread pool and collects what it
/// returns.
///
/// This is rayon's `into_par_iter` on a vector, followed by `map` and
/// `collect`. It is taken on trust that `op` is called on the items of the
/// vector and on nothing else, and that the result holds, at each place,
/// what `op` returned for the item at that place: a parallel iterator over
/// a vector knows its length, and rayon collects such an iterator into a
/// vector in the order of the items, as a sequential `collect` would.
#[verifier::external_body]
fn map_in_parallel<T: Send, R: Send, OP: Fn(T) -> R + Sync + Send>(
    items: Vec<T>,
    op: OP,
) -> (results: Vec<R>)
    requires
        forall|a: int| 0 <= a < items@.len() ==> call_requires(op, (#[trigger] items@[a],)),
    ensures
        results@.len() == items@.len(),
        forall|a: int|
            0 <= a < items@.len() ==> call_ensures(op, (items@[a],), #[trigger] results@[a]),
{
    items.into_par_iter().map(op).collect()
}

/// Runs `op` on each item in turn and collects what it returns.
fn map_in_turn<T, R, OP: Fn(T) -> R>(items: Vec<T>, op: OP) -> (results: Vec<R>)
    requires
        forall|a: int| 0 <= a < items@.len() ==> call_requires(op, (#[trigger] items@[a],)),
    ensures
        results@.len() == items@.len(),
        forall|a: int|
            0 <= a < items@.len() ==> call_ensures(op, (items@[a],), #[trigger] results@[a]),
{
    let ghost all = items@;
    let mut results: Vec<R> = Vec::new();
    for item in it: items.into_iter()
        invariant
            it.seq() == all,
            results@.len() == it.index(),
            forall|a: int| 0 <= a < all.len() ==> call_requires(op, (#[trigger] all[a],)),
            forall|a: int|
                0 <= a < it.index() ==> call_ensures(op, (all[a],), #[trigger] results@[a]),
    {
        let r = op(item);
        results.push(r);
    }
    results
}

/// Executes `op` for each child, potentially in parallel, and returns the
/// results in the order of the children.
///
/// `children` holds what `op` is to be given for each action of a node, in
/// the order of the actions. The children are visited in parallel exactly
/// where `parallel`, the node's hint, is set; either way `op` runs once on
/// every child.
pub fn for_each_child<T: Send, R: Send, OP: Fn(T) -> R + Sync + Send>(
    children: Vec<T>,
    parallel: bool,
    op: OP,
) -> (results: Vec<R>)
    requires
        forall|a: int| 0 <= a < children@.len() ==> call_requires(op, (#[trigger] children@[a],)),
    ensures
        results@.len() == children@.len(),
        forall|a: int|
            0 <= a < children@.len() ==> call_ensures(op, (children@[a],), #[trigger] results@[a]),
{
    if parallel {
        map_in_parallel(children, op)
    } else {
        map_in_turn(children, op)
    }
}

} // verus!
