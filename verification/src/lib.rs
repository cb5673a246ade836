use vstd::prelude::*;

pub mod batched_points;
pub mod builder;
pub mod cancel;
pub mod errors;
pub mod gpu;
pub mod graph;
pub mod page;
pub mod vectors;

verus! {

/// Maximum number of links per level.
#[derive(Debug, Clone, Copy, PartialEq, Eq, Structural)]
pub struct HnswM {
    /// M for all levels except level 0.
    pub m: usize,
    /// M for level 0.
    pub m0: usize,
}

impl HnswM {
    /// Explicitly set both `m` and `m0`.
    pub fn new(m: usize, m0: usize) -> (r: Self)
        ensures
            r.m == m,
            r.m0 == m0,
    {
        Self { m, m0 }
    }

    /// Initialize with `m0 = 2 * m`.
    pub fn new2(m: usize) -> (r: Self)
        requires
            2 * m <= usize::MAX,
        ensures
            r.m == m,
            r.m0 == 2 * m,
    {
        Self { m, m0: 2 * m }
    }

    /// The neighbor-list bound that applies at `level`.
    pub open spec fn spec_level_m(self, level: nat) -> usize {
        if level == 0 {
            self.m0
        } else {
            self.m
        }
    }

    pub fn level_m(&self, level: usize) -> (r: usize)
        ensures
            r == self.spec_level_m(level as nat),
    {
        if level == 0 {
            self.m0
        } else {
            self.m
        }
    }
}

/// Number of threads to use for index building: the configured maximum, or,
/// when it is zero, the machine's CPU count (supplied by the caller together
/// with its build-specific cap) clamped to at least one thread.
pub fn num_rayon_threads(max_indexing_threads: usize, num_cpus: usize, threads_cap: usize) -> (r:
    usize)
    requires
        threads_cap >= 1,
    ensures
        max_indexing_threads != 0 ==> r == max_indexing_threads,
        max_indexing_threads == 0 ==> r == if num_cpus < 1 {
            1usize
        } else if num_cpus > threads_cap {
            threads_cap
        } else {
            num_cpus
        },
{
    if max_indexing_threads == 0 {
        if num_cpus < 1 {
            1
        } else if num_cpus > threads_cap {
            threads_cap
        } else {
            num_cpus
        }
    } else {
        max_indexing_threads
    }
}

} // verus!
