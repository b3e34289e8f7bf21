use stratum_core::data::error::DataError;
use stratum_core::data::grouped::{group_rows, value_to_group_key, AggOp, AggSpec, GroupKey};
use stratum_core::data::join::{join_rows, JoinSpec, JoinType};
use stratum_core::data::memory::categories;
use stratum_core::data::memory::{truncate_str, CategoryStats, GcStats, MemoryProfiler};
use stratum_core::data::parallel::{exceeds_threshold, ParallelConfig, DEFAULT_PARALLEL_THRESHOLD};
use stratum_core::data::value::{same_value, Value};
use stratum_core::fmt::format_bytes;

fn stats_of<'a>(stats: &'a [(String, CategoryStats)], name: &str) -> Option<&'a CategoryStats> {
    stats.iter().find(|(k, _)| k == name).map(|(_, s)| s)
}

// ---------------------------------------------------------------------------
// Memory profiler
// ---------------------------------------------------------------------------

#[test]
fn test_format_bytes() {
    assert_eq!(format_bytes(500), "500 B");
    assert_eq!(format_bytes(1024), "1.00 KB");
    assert_eq!(format_bytes(1024 * 1024), "1.00 MB");
    assert_eq!(format_bytes(1024 * 1024 * 1024), "1.00 GB");
}

#[test]
fn format_bytes_rounding() {
    assert_eq!(format_bytes(0), "0 B");
    assert_eq!(format_bytes(1023), "1023 B");
    assert_eq!(format_bytes(1536), "1.50 KB");
    assert_eq!(format_bytes(1100), "1.07 KB");
    assert_eq!(format_bytes(5 * 1024 * 1024 * 1024 + 1), "5.00 GB");
}

#[test]
fn test_profiler() {
    let mut profiler = MemoryProfiler::new();
    profiler.enable();

    profiler.record_allocation(1000, "test");
    assert_eq!(profiler.current_bytes(), 1000);
    assert_eq!(profiler.peak_bytes(), 1000);

    profiler.record_allocation(500, "test");
    assert_eq!(profiler.current_bytes(), 1500);
    assert_eq!(profiler.peak_bytes(), 1500);

    profiler.record_deallocation(700, "test");
    assert_eq!(profiler.current_bytes(), 800);
    assert_eq!(profiler.peak_bytes(), 1500);
}

#[test]
fn test_category_stats() {
    let mut profiler = MemoryProfiler::new();
    profiler.enable();

    profiler.record_allocation(1000, categories::LIST);
    profiler.record_allocation(2000, categories::MAP);
    profiler.record_allocation(500, categories::LIST);

    let stats = profiler.category_stats();
    assert_eq!(stats.len(), 2);

    let list_stats = stats_of(stats, categories::LIST).unwrap();
    assert_eq!(list_stats.allocation_count, 2);
    assert_eq!(list_stats.total_allocated, 1500);
    assert_eq!(list_stats.current_bytes, 1500);

    let map_stats = stats_of(stats, categories::MAP).unwrap();
    assert_eq!(map_stats.allocation_count, 1);
    assert_eq!(map_stats.total_allocated, 2000);
}

#[test]
fn test_leak_detection() {
    let mut profiler = MemoryProfiler::new();
    profiler.enable();

    profiler.record_allocation(1000, categories::LIST);
    profiler.record_allocation(2000, categories::MAP);
    profiler.record_deallocation(1000, categories::LIST);

    let leaks = profiler.detect_leaks();
    assert_eq!(leaks.len(), 1);
    assert_eq!(leaks[0].category, categories::MAP);
    assert_eq!(leaks[0].bytes, 2000);
}

#[test]
fn test_no_leaks_when_balanced() {
    let mut profiler = MemoryProfiler::new();
    profiler.enable();

    profiler.record_allocation(1000, categories::LIST);
    profiler.record_deallocation(1000, categories::LIST);

    let leaks = profiler.detect_leaks();
    assert!(leaks.is_empty());
}

#[test]
fn test_profiler_reset() {
    let mut profiler = MemoryProfiler::new();
    profiler.enable();

    profiler.record_allocation(1000, "test");
    assert_eq!(profiler.current_bytes(), 1000);

    profiler.reset();
    assert_eq!(profiler.current_bytes(), 0);
    assert_eq!(profiler.peak_bytes(), 0);
    assert!(profiler.category_stats().is_empty());
}

#[test]
fn test_gc_stats_integration() {
    let mut profiler = MemoryProfiler::new();
    profiler.enable();

    let gc_stats = GcStats { collections: 5, cycles_broken: 10, tracked_objects: 100, allocation_count: 50, threshold: 10000 };
    profiler.set_gc_stats(gc_stats.clone());

    let stored = profiler.gc_stats().unwrap();
    assert_eq!(stored.collections, 5);
    assert_eq!(stored.cycles_broken, 10);
}

#[test]
fn test_summary_contains_gc_stats() {
    let mut profiler = MemoryProfiler::new();
    profiler.enable();

    let gc_stats = GcStats { collections: 3, cycles_broken: 7, tracked_objects: 50, allocation_count: 25, threshold: 10000 };
    profiler.set_gc_stats(gc_stats);

    let summary = profiler.summary();
    assert!(summary.contains("GC Statistics"));
    assert!(summary.contains("Collections:"));
    assert!(summary.contains("Cycles Broken:"));
}

#[test]
fn test_truncate_str() {
    assert_eq!(truncate_str("hello", 10), "hello");
    assert_eq!(truncate_str("hello world", 8), "hello...");
    assert_eq!(truncate_str("hi", 2), "hi");
}

#[test]
fn test_event_limit() {
    let mut profiler = MemoryProfiler::new();
    profiler.set_max_events(100);
    profiler.enable();

    for i in 0..150 {
        profiler.record_allocation(10, &format!("test{i}"));
    }

    assert!(profiler.events().len() <= 100);
}

#[test]
fn small_event_limit_holds() {
    let mut profiler = MemoryProfiler::new();
    profiler.set_max_events(1);
    profiler.enable();
    for i in 0..5 {
        profiler.record_allocation(10, &format!("small{i}"));
        assert_eq!(profiler.events().len(), 1);
    }
    profiler.set_max_events(3);
    for _ in 0..5 {
        profiler.record_deallocation(1, "small0");
        assert!(profiler.events().len() <= 3);
    }
}

#[test]
fn disabled_profiler_records_nothing() {
    let mut profiler = MemoryProfiler::new();
    assert!(!profiler.is_enabled());
    profiler.record_allocation(1000, "x");
    profiler.record_deallocation(10, "x");
    assert_eq!(profiler.current_bytes(), 0);
    assert!(profiler.events().is_empty());
    assert!(profiler.category_stats().is_empty());
    profiler.enable();
    profiler.disable();
    assert!(!profiler.is_enabled());
}

#[test]
fn deallocation_saturates_and_tracks_counts() {
    let mut profiler = MemoryProfiler::new();
    profiler.enable();
    profiler.record_allocation(100, "a");
    profiler.record_deallocation(300, "a");
    assert_eq!(profiler.current_bytes(), 0);
    assert_eq!(profiler.peak_bytes(), 100);
    let s = stats_of(profiler.category_stats(), "a").unwrap();
    assert_eq!(s.deallocation_count, 1);
    assert_eq!(s.total_deallocated, 300);
    assert_eq!(s.current_bytes, 0);
    assert_eq!(s.peak_bytes, 100);
    assert_eq!(profiler.current_allocations().len(), 1);
    assert_eq!(profiler.current_allocations()[0].1, 0);
    assert_eq!(profiler.events().len(), 2);
    assert!(profiler.events()[0].is_allocation);
    assert!(!profiler.events()[1].is_allocation);
}

#[test]
fn leaks_sorted_by_bytes() {
    let mut profiler = MemoryProfiler::new();
    profiler.enable();
    profiler.record_allocation(10, "small");
    profiler.record_allocation(500, "big");
    profiler.record_allocation(20, "big");
    let leaks = profiler.detect_leaks();
    assert_eq!(leaks.len(), 2);
    assert_eq!(leaks[0].category, "big");
    assert_eq!(leaks[0].bytes, 520);
    assert_eq!(leaks[0].unmatched_allocations, 2);
    assert_eq!(leaks[1].category, "small");
}

#[test]
fn summary_with_elapsed_exact_head() {
    let mut profiler = MemoryProfiler::new();
    profiler.enable();
    profiler.record_allocation(2048, "List");
    let s = profiler.summary_with_elapsed(1_500_000_000);
    assert!(s.starts_with("=== Memory Profile Report ===\n\nExecution Time: 1.500s\n"));
    assert!(s.contains("Peak Memory:    2.00 KB\n"));
    assert!(s.contains("Final Memory:   2.00 KB\n"));
    assert!(s.contains("  List: 1 unmatched (2.00 KB bytes)\n"));
    assert!(profiler.can_summarize());
}

// ---------------------------------------------------------------------------
// Errors
// ---------------------------------------------------------------------------

#[test]
fn test_error_display() {
    let err = DataError::ColumnNotFound("age".to_string());
    assert_eq!(err.to_string(), "column not found: age");

    let err = DataError::TypeMismatch { expected: "Int".to_string(), found: "String".to_string() };
    assert_eq!(err.to_string(), "type mismatch: expected Int, found String");
}

#[test]
fn error_messages_of_each_kind() {
    assert_eq!(DataError::Arrow("x".to_string()).to_string(), "Arrow error: x");
    assert_eq!(DataError::InvalidColumnIndex(7).to_string(), "invalid column index: 7");
    assert_eq!(DataError::InvalidOperation("x".to_string()).to_string(), "invalid operation: x");
    assert_eq!(DataError::Io("x".to_string()).to_string(), "I/O error: x");
    assert_eq!(DataError::SchemaMismatch("x".to_string()).to_string(), "schema mismatch: x");
    assert_eq!(DataError::EmptyData.to_string(), "empty DataFrame");
    assert_eq!(DataError::Parquet("x".to_string()).to_string(), "Parquet error: x");
    assert_eq!(DataError::Csv("x".to_string()).to_string(), "CSV error: x");
    assert_eq!(DataError::Json("x".to_string()).to_string(), "JSON error: x");
    assert_eq!(
        DataError::OutOfBounds { index: 10, length: 3 }.to_string(),
        "index 10 out of bounds for length 3"
    );
    assert_eq!(DataError::Sql("x".to_string()).to_string(), "SQL error: x");
    assert_eq!(DataError::Cube("x".to_string()).to_string(), "Cube error: x");
}

// ---------------------------------------------------------------------------
// Join and aggregation specifications
// ---------------------------------------------------------------------------

#[test]
fn join_spec_builders() {
    let s = JoinSpec::on("user_id");
    assert_eq!(s.join_type, JoinType::Inner);
    assert_eq!(s.left_column, "user_id");
    assert_eq!(s.right_column, "user_id");
    let s = JoinSpec::cols("id", "ref_id");
    assert_eq!((s.join_type, s.left_column.as_str(), s.right_column.as_str()), (JoinType::Inner, "id", "ref_id"));
    assert_eq!(JoinSpec::inner("a").join_type, JoinType::Inner);
    assert_eq!(JoinSpec::inner_cols("a", "b").right_column, "b");
    assert_eq!(JoinSpec::left("a").join_type, JoinType::Left);
    assert_eq!(JoinSpec::left_cols("a", "b").join_type, JoinType::Left);
    assert_eq!(JoinSpec::right("a").join_type, JoinType::Right);
    assert_eq!(JoinSpec::right_cols("a", "b").join_type, JoinType::Right);
    assert_eq!(JoinSpec::outer("a").join_type, JoinType::Outer);
    assert_eq!(JoinSpec::outer_cols("a", "b").left_column, "a");
    assert_eq!(JoinType::Inner.name(), "inner");
    assert_eq!(JoinType::Left.name(), "left");
    assert_eq!(JoinType::Right.name(), "right");
    assert_eq!(JoinType::Outer.name(), "outer");
}

#[test]
fn agg_spec_builders() {
    let s = AggSpec::sum("amount", "total");
    assert_eq!(s.op, AggOp::Sum);
    assert_eq!(s.column.as_deref(), Some("amount"));
    assert_eq!(s.output_name, "total");
    let c = AggSpec::count("n");
    assert_eq!(c.op, AggOp::Count);
    assert!(c.column.is_none());
    assert_eq!(AggSpec::mean("a", "b").op, AggOp::Mean);
    assert_eq!(AggSpec::min("a", "b").op, AggOp::Min);
    assert_eq!(AggSpec::max("a", "b").op, AggOp::Max);
    assert_eq!(AggSpec::first("a", "b").op, AggOp::First);
    assert_eq!(AggSpec::last("a", "b").op, AggOp::Last);
    assert_eq!(AggSpec::std_dev("a", "b").op, AggOp::Std);
    assert_eq!(AggSpec::var("a", "b").op, AggOp::Var);
    assert_eq!(AggSpec::median("a", "b").op, AggOp::Median);
    assert_eq!(AggSpec::mode("a", "b").op, AggOp::Mode);
    assert_eq!(AggSpec::count_distinct("a", "b").op, AggOp::CountDistinct);
    let n = AggSpec::new(AggOp::Var, Some("v".to_string()), "out".to_string());
    assert_eq!(n.column.as_deref(), Some("v"));
    assert_eq!(AggOp::CountDistinct.name(), "count_distinct");
    assert_eq!(AggOp::Std.name(), "std");
    assert_eq!(AggOp::Sum.name(), "sum");
}

#[test]
fn group_keys_round_trip() {
    let keys = vec![GroupKey::Null, GroupKey::Bool(true), GroupKey::Int(-4), GroupKey::String("North".to_string())];
    for k in keys {
        let v = k.to_value();
        assert_eq!(value_to_group_key(&v), k);
    }
    assert_eq!(GroupKey::Int(3).to_value(), Value::Int(3));
    assert_eq!(value_to_group_key(&Value::String("x".to_string())), GroupKey::String("x".to_string()));
}

// ---------------------------------------------------------------------------
// Parallel configuration
// ---------------------------------------------------------------------------

#[test]
fn parallel_config_builders() {
    let c = ParallelConfig::new();
    assert_eq!(c.threshold, DEFAULT_PARALLEL_THRESHOLD);
    assert_eq!(c.num_threads, None);
    let c = ParallelConfig::default().with_threshold(5).with_num_threads(3);
    assert_eq!(c.threshold, 5);
    assert_eq!(c.num_threads, Some(3));
    assert_eq!(DEFAULT_PARALLEL_THRESHOLD, 10_000);
}

#[test]
fn threshold_is_strict() {
    assert!(!exceeds_threshold(500, 1000));
    assert!(!exceeds_threshold(1000, 1000));
    assert!(exceeds_threshold(1001, 1000));
    assert!(exceeds_threshold(1, 0));
    assert!(!exceeds_threshold(usize::MAX, usize::MAX));
}

// ---------------------------------------------------------------------------
// Join rows
// ---------------------------------------------------------------------------

fn ints(v: &[i64]) -> Vec<Value> {
    v.iter().map(|x| Value::Int(*x)).collect()
}

#[test]
fn join_rows_inner() {
    let users = ints(&[1, 2, 3, 4]);
    let orders = ints(&[1, 1, 2, 5]);
    let rows = join_rows(JoinType::Inner, &users, &orders);
    assert_eq!(rows, vec![(Some(0), Some(0)), (Some(0), Some(1)), (Some(1), Some(2))]);
}

#[test]
fn join_rows_left() {
    let users = ints(&[1, 2, 3, 4]);
    let orders = ints(&[1, 1, 2, 5]);
    let rows = join_rows(JoinType::Left, &users, &orders);
    assert_eq!(rows.len(), 5);
    assert_eq!(rows[3], (Some(2), None));
    assert_eq!(rows[4], (Some(3), None));
}

#[test]
fn join_rows_right() {
    let users = ints(&[1, 2, 3, 4]);
    let orders = ints(&[1, 1, 2, 5]);
    let rows = join_rows(JoinType::Right, &users, &orders);
    assert_eq!(rows.len(), 4);
    assert_eq!(rows[3], (None, Some(3)));
}

#[test]
fn join_rows_outer() {
    let users = ints(&[1, 2, 3, 4]);
    let orders = ints(&[1, 1, 2, 5]);
    let rows = join_rows(JoinType::Outer, &users, &orders);
    assert_eq!(rows.len(), 6);
    assert_eq!(rows[5], (None, Some(3)));
}

#[test]
fn join_rows_on_strings_and_nulls() {
    let left = vec![Value::String("a".to_string()), Value::Null, Value::Bool(true)];
    let right = vec![Value::Null, Value::String("a".to_string()), Value::Bool(false)];
    let rows = join_rows(JoinType::Inner, &left, &right);
    assert_eq!(rows, vec![(Some(0), Some(1)), (Some(1), Some(0))]);
    assert!(join_rows(JoinType::Outer, &vec![], &vec![]).is_empty());
    assert!(same_value(&Value::Int(1), &Value::Int(1)));
    assert!(!same_value(&Value::Int(1), &Value::Bool(true)));
}

fn strings(xs: &[&str]) -> Vec<Value> {
    xs.iter().map(|s| Value::String(s.to_string())).collect()
}

#[test]
fn group_rows_single_key_first_occurrence_order() {
    let regions = strings(&["North", "South", "North", "South", "North"]);
    let groups = group_rows(&vec![regions], 5);
    assert_eq!(groups.len(), 2);
    assert_eq!(groups[0].0, vec![GroupKey::String("North".to_string())]);
    assert_eq!(groups[0].1, vec![0, 2, 4]);
    assert_eq!(groups[1].0, vec![GroupKey::String("South".to_string())]);
    assert_eq!(groups[1].1, vec![1, 3]);
}

#[test]
fn group_rows_compound_keys() {
    let region = strings(&["N", "N", "S", "N"]);
    let year = vec![Value::Int(2020), Value::Int(2021), Value::Int(2020), Value::Int(2020)];
    let groups = group_rows(&vec![region, year], 4);
    assert_eq!(groups.len(), 3);
    assert_eq!(groups[0].0, vec![GroupKey::String("N".to_string()), GroupKey::Int(2020)]);
    assert_eq!(groups[0].1, vec![0, 3]);
    assert_eq!(groups[1].1, vec![1]);
    assert_eq!(groups[2].0, vec![GroupKey::String("S".to_string()), GroupKey::Int(2020)]);
    assert_eq!(groups[2].1, vec![2]);
}

#[test]
fn group_rows_nulls_form_one_group() {
    let col = vec![Value::Null, Value::Int(1), Value::Null];
    let groups = group_rows(&vec![col], 3);
    assert_eq!(groups.len(), 2);
    assert_eq!(groups[0].0, vec![GroupKey::Null]);
    assert_eq!(groups[0].1, vec![0, 2]);
}

#[test]
fn group_rows_empty_table_and_no_key_columns() {
    assert!(group_rows(&vec![strings(&[])], 0).is_empty());
    let all = group_rows(&vec![], 3);
    assert_eq!(all.len(), 1);
    assert!(all[0].0.is_empty());
    assert_eq!(all[0].1, vec![0, 1, 2]);
}
