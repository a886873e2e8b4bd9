//! Sizing the worker pool from the machine's core count. The runtime reads
//! the count from the platform and hands it in; the arithmetic itself is
//! verified here.

use vstd::prelude::*;

verus! {

/// Bounds and target for the worker pool's size.
pub struct ThreadPoolConfig {
    /// Never fewer threads than this.
    pub min_threads: usize,
    /// Never more threads than this.
    pub max_threads: usize,
    /// The size to run with.
    pub target_threads: usize,
}

/// `x` confined to `[lo, hi]`, with `lo` winning when the bounds cross.
pub open spec fn spec_clamp(x: int, lo: int, hi: int) -> int {
    if x < lo {
        lo
    } else if x > hi {
        hi
    } else {
        x
    }
}

/// The cores left for workers after reserving a quarter, rounded up, for
/// the system: always at least one.
pub open spec fn spec_available_cores(total: int) -> int {
    let reserved = (total + 3) / 4;
    if total - reserved < 1 {
        1
    } else {
        total - reserved
    }
}

impl ThreadPoolConfig {
    /// The balanced configuration for serving workloads: reserve a quarter
    /// of the cores, aim for twice the rest, cap at three times, and keep
    /// every figure inside fixed floors and ceilings.
    pub fn optimal(total_cpus: usize) -> (r: ThreadPoolConfig)
        requires
            total_cpus <= 100000,
        ensures
            ({
                let available = spec_available_cores(total_cpus as int);
                let min = spec_clamp(available, 2, 64);
                let max = spec_clamp(available * 3, 4, 256);
                &&& r.min_threads == min
                &&& r.max_threads == max
                &&& r.target_threads == spec_clamp(available * 2, min, max)
            }),
    {
        let reserved = (total_cpus + 3) / 4;
        let available = if total_cpus - reserved < 1 {
            1
        } else {
            total_cpus - reserved
        };
        let min_threads = clamp_usize(available, 2, 64);
        let max_threads = clamp_usize(available * 3, 4, 256);
        let target_threads = clamp_usize(available * 2, min_threads, max_threads);
        ThreadPoolConfig { min_threads, max_threads, target_threads }
    }

    /// The configuration for compute-bound work: three quarters of the
    /// cores, rounded down, with no elasticity.
    pub fn cpu_bound(total_cpus: usize) -> (r: ThreadPoolConfig)
        requires
            total_cpus <= 100000,
        ensures
            r.min_threads == total_cpus * 3 / 4,
            r.max_threads == total_cpus * 3 / 4,
            r.target_threads == total_cpus * 3 / 4,
    {
        let available = total_cpus * 3 / 4;
        ThreadPoolConfig { min_threads: available, max_threads: available, target_threads: available }
    }

    /// A small fixed configuration for development and tests.
    pub fn development() -> (r: ThreadPoolConfig)
        ensures
            r.min_threads == 2,
            r.max_threads == 4,
            r.target_threads == 4,
    {
        ThreadPoolConfig { min_threads: 2, max_threads: 4, target_threads: 4 }
    }
}

/// Confine `x` to `[lo, hi]`, `lo` winning when the bounds cross.
fn clamp_usize(x: usize, lo: usize, hi: usize) -> (r: usize)
    ensures
        r == spec_clamp(x as int, lo as int, hi as int),
{
    if x < lo {
        lo
    } else if x > hi {
        hi
    } else {
        x
    }
}

/// What the machine looks like to the pool sizing.
pub struct SystemInfo {
    /// Physical cores, estimated.
    pub physical_cores: usize,
    /// Logical cores as the platform reports them.
    pub logical_cores: usize,
    /// Memory locality domains; taken as one without platform help.
    pub numa_nodes: usize,
}

impl SystemInfo {
    /// Estimate the machine's shape from its logical core count: above
    /// four logical cores, hyperthreading is assumed to double them.
    pub fn detect(logical_cores: usize) -> (r: SystemInfo)
        ensures
            r.logical_cores == logical_cores,
            r.physical_cores == if logical_cores > 4 {
                logical_cores as int / 2
            } else {
                logical_cores as int
            },
            r.numa_nodes == 1,
    {
        let physical_cores = if logical_cores > 4 {
            logical_cores / 2
        } else {
            logical_cores
        };
        SystemInfo { physical_cores, logical_cores, numa_nodes: 1 }
    }
}

} // verus!
