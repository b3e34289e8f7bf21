//! The parallel-execution settings: the threshold a configuration starts
//! with, and which row counts exceed a threshold.

use stratum_core::data::parallel::{exceeds_threshold, ParallelConfig, DEFAULT_PARALLEL_THRESHOLD};

#[test]
fn test_default_threshold() {
    assert_eq!(ParallelConfig::default().threshold, DEFAULT_PARALLEL_THRESHOLD);
    assert_eq!(ParallelConfig::new().threshold, DEFAULT_PARALLEL_THRESHOLD);
}

#[test]
fn test_should_parallelize() {
    let config = ParallelConfig::new().with_threshold(1000);
    assert!(!exceeds_threshold(500, config.threshold));
    assert!(!exceeds_threshold(1000, config.threshold));
    assert!(exceeds_threshold(1001, config.threshold));
    // Back to the default
    let config = config.with_threshold(DEFAULT_PARALLEL_THRESHOLD);
    assert_eq!(config.threshold, DEFAULT_PARALLEL_THRESHOLD);
}

#[test]
fn parallel_config_keeps_threads() {
    let config = ParallelConfig::new().with_num_threads(4).with_threshold(7);
    assert_eq!(config.num_threads, Some(4));
    assert_eq!(config.threshold, 7);
    assert!(exceeds_threshold(8, 7));
    assert!(!exceeds_threshold(0, 0));
}
