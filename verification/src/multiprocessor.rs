//! The integer rules of the thread pool: how many worker threads it starts
//! and how many of them a dispatch should use.
use vstd::prelude::*;

verus! {

/// Worker threads for a machine with `available` cores (`None` when the
/// count is unknown): one per core but one, and at least one.
pub fn worker_thread_count(available: Option<usize>) -> (r: usize)
    ensures
        r >= 1,
        r == match available {
            Some(n) => if n >= 2 { (n - 1) as int } else { 1int },
            None => 1int,
        },
{
    match available {
        Some(n) => if n >= 2 {
            n - 1
        } else {
            1
        },
        None => 1,
    }
}

/// Threads a dispatch should use out of `num_threads`: all but one, which
/// is left for synchronisation.
pub fn optimal_dispatch_size(num_threads: usize) -> (r: usize)
    requires
        num_threads >= 1,
    ensures
        r == num_threads - 1,
{
    num_threads - 1
}

} // verus!
