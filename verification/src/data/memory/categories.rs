//! Standard allocation categories for VM values.

use vstd::prelude::*;

verus! {

pub const LIST: &'static str = "List";

pub const MAP: &'static str = "Map";

pub const SET: &'static str = "Set";

pub const STRUCT: &'static str = "Struct";

pub const CLOSURE: &'static str = "Closure";

pub const STRING: &'static str = "String";

pub const DATAFRAME: &'static str = "DataFrame";

pub const SERIES: &'static str = "Series";

pub const FUTURE: &'static str = "Future";

pub const COROUTINE: &'static str = "Coroutine";

pub const OTHER: &'static str = "Other";

} // verus!
