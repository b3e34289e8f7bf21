//! Data-layer building blocks: memory profiling, parallel execution settings,
//! join and aggregation specifications, and data errors.

pub mod dataframe;
pub mod error;
pub mod expr;
pub mod frame_join;
pub mod frame_laws;
pub mod frame_ops;
pub mod frame_sort;
pub mod grouped;
pub mod grouped_frame;
pub mod join;
pub mod lazy;
pub mod memory;
pub mod merge;
pub mod parallel;
pub mod plan_laws;
pub mod plan_run;
pub mod predicate;
pub mod predicate_laws;
pub mod reshape;
pub mod series;
pub mod series_ops;
pub mod series_laws;
pub mod value;
pub mod window;
