//! Data-parallel execution of independent tasks on the worker pool.

use vstd::prelude::*;

verus! {

/// Rayon's `into_par_iter().map(task).collect()` over `0..n`: runs `task` on
/// every index below `n`, on the pool's threads, and hands back the results
/// in index order. Each result is one that `task` may return for its index;
/// nothing is claimed of which thread ran it, or when.
#[verifier::external_body]
pub(crate) fn par_map_range<T: Send, F: Fn(usize) -> T + Sync + Send>(n: usize, task: F) -> (r: Vec<T>)
    requires
        forall|i: usize| i < n ==> call_requires(task, (i,)),
    ensures
        r.len() == n,
        forall|i: int| 0 <= i < n ==> call_ensures(task, (i as usize,), #[trigger] r[i]),
{
    rayon::iter::ParallelIterator::collect(
        rayon::iter::ParallelIterator::map(rayon::iter::IntoParallelIterator::into_par_iter(0..n), task),
    )
}

/// Rayon's `join`: runs the two tasks, possibly in parallel, waits for both
/// and hands back what each returned.
#[verifier::external_body]
pub(crate) fn par_join<A: Send, B: Send, FA: FnOnce() -> A + Send, FB: FnOnce() -> B + Send>(
    task_a: FA,
    task_b: FB,
) -> (r: (A, B))
    requires
        call_requires(task_a, ()),
        call_requires(task_b, ()),
    ensures
        call_ensures(task_a, (), r.0),
        call_ensures(task_b, (), r.1),
{
    rayon::join(task_a, task_b)
}

/// `num_cpus::get`: the number of logical cores that this process may use,
/// which is at least one.
#[verifier::external_body]
pub(crate) fn available_cpus() -> (n: usize)
    ensures
        n >= 1,
{
    num_cpus::get()
}

} // verus!
