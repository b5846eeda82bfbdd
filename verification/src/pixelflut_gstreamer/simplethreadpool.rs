use vstd::prelude::*;

verus! {

/// How the worker thread pool is to be set up.
pub enum PoolConfig {
    /// Run on the global pool.
    UseGlobalPool,
    /// Build a pool of this many threads.
    Threads(usize),
}

/// The pool setup for the element's `threads` setting: `0` (and `-1`) use the global pool, a
/// positive count builds a pool of that many threads, and a count below `-1` is invalid
/// (`None`).
pub fn pool_config(nthreads: i32) -> (r: Option<PoolConfig>)
    ensures
        nthreads == -1 ==> r == Some(PoolConfig::UseGlobalPool),
        nthreads == 0 ==> r == Some(PoolConfig::UseGlobalPool),
        nthreads < -1 ==> r is None,
        nthreads > 0 ==> r == Some(PoolConfig::Threads(nthreads as usize)),
{
    if nthreads == -1 || nthreads == 0 {
        Some(PoolConfig::UseGlobalPool)
    } else if nthreads < -1 {
        None
    } else {
        Some(PoolConfig::Threads(nthreads as usize))
    }
}

} // verus!
