//! Parallel processing configuration for DataFrame operations
//!
//! Operations are parallelized when the row count exceeds a configurable
//! threshold.

use vstd::prelude::*;

verus! {

/// Default threshold for automatic parallelization (10,000 rows)
pub const DEFAULT_PARALLEL_THRESHOLD: usize = 10_000;

/// Whether `num_rows` rows are enough to run in parallel under `threshold`:
/// only more rows than the threshold are.
pub fn exceeds_threshold(num_rows: usize, threshold: usize) -> (r: bool)
    ensures
        r == (num_rows > threshold),
{
    num_rows > threshold
}

/// Configuration builder for parallel operations
#[derive(Debug, Clone)]
pub struct ParallelConfig {
    /// Minimum rows to trigger parallelization
    pub threshold: usize,
    /// Number of threads to use (None = use Rayon default)
    pub num_threads: Option<usize>,
}

impl Default for ParallelConfig {
    fn default() -> (r: Self)
        ensures
            r.threshold == DEFAULT_PARALLEL_THRESHOLD,
            r.num_threads is None,
    {
        ParallelConfig { threshold: DEFAULT_PARALLEL_THRESHOLD, num_threads: None }
    }
}

impl ParallelConfig {
    /// Create a new parallel configuration
    pub fn new() -> (r: Self)
        ensures
            r.threshold == DEFAULT_PARALLEL_THRESHOLD,
            r.num_threads is None,
    {
        ParallelConfig { threshold: DEFAULT_PARALLEL_THRESHOLD, num_threads: None }
    }

    /// Set the parallelization threshold
    pub fn with_threshold(self, threshold: usize) -> (r: Self)
        ensures
            r.threshold == threshold,
            r.num_threads == self.num_threads,
    {
        let mut c = self;
        c.threshold = threshold;
        c
    }

    /// Set the number of threads
    pub fn with_num_threads(self, num_threads: usize) -> (r: Self)
        ensures
            r.threshold == self.threshold,
            r.num_threads == Some(num_threads),
    {
        let mut c = self;
        c.num_threads = Some(num_threads);
        c
    }
}

} // verus!
