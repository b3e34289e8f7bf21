//! Lazy evaluation plans for DataFrame operations
//!
//! A `LazyFrame` records a source and the operations to apply to it, in
//! order, before anything is read; running the plan materializes the
//! result. The plan can be optimized: consecutive limits are merged into
//! one.

use vstd::prelude::*;

use super::dataframe::DataFrame;
use super::grouped::AggSpec;
use super::join::JoinSpec;
use super::value::Value;
use crate::text::copy_str;

verus! {

/// A lazy operation that can be applied to a DataFrame
#[derive(Debug)]
pub enum LazyOp {
    /// Select specific columns
    Select(Vec<String>),
    /// Drop columns
    Drop(Vec<String>),
    /// Filter rows based on column predicates
    Filter(FilterPredicate),
    /// Sort by columns
    Sort { columns: Vec<String>, ascending: Vec<bool> },
    /// Limit to first n rows
    Limit(usize),
    /// Skip first n rows
    Offset(usize),
    /// Keep the last n rows
    Tail(usize),
    /// Rename columns
    Rename(Vec<(String, String)>),
    /// Distinct/unique rows
    Distinct,
    /// Distinct by specific columns
    DistinctBy(Vec<String>),
    /// Join with another LazyFrame
    Join { right: Box<LazyFrame>, spec: JoinSpec },
    /// Fill null values
    FillNa(Value),
    /// Drop rows with null values
    DropNa,
    /// Apply window function
    Window(WindowSpec),
    /// Add a computed column
    WithColumn { name: String, expr: ColumnExpr },
    /// Explode a list column into multiple rows
    Explode(String),
}

/// Filter predicate for lazy filtering
#[derive(Debug)]
pub enum FilterPredicate {
    /// Column equals value
    Eq(String, Value),
    /// Column not equals value
    Ne(String, Value),
    /// Column less than value
    Lt(String, Value),
    /// Column less than or equal to value
    Le(String, Value),
    /// Column greater than value
    Gt(String, Value),
    /// Column greater than or equal to value
    Ge(String, Value),
    /// Column is null
    IsNull(String),
    /// Column is not null
    IsNotNull(String),
    /// Column value is in list
    In(String, Vec<Value>),
    /// Column value is not in list
    NotIn(String, Vec<Value>),
    /// Column string contains substring
    Contains(String, String),
    /// Column string starts with prefix
    StartsWith(String, String),
    /// Column string ends with suffix
    EndsWith(String, String),
    /// Column value between two values (inclusive)
    Between(String, Value, Value),
    /// Logical AND of predicates
    And(Box<FilterPredicate>, Box<FilterPredicate>),
    /// Logical OR of predicates
    Or(Box<FilterPredicate>, Box<FilterPredicate>),
    /// Logical NOT of predicate
    Not(Box<FilterPredicate>),
}

/// Window function specification
#[derive(Debug)]
pub struct WindowSpec {
    /// The column to apply the window function to
    pub column: String,
    /// The window function to apply
    pub func: WindowFunc,
    /// Partition by columns (optional)
    pub partition_by: Vec<String>,
    /// Order by columns (optional)
    pub order_by: Vec<String>,
    /// Output column name
    pub output_name: String,
}

/// Window functions
#[derive(Debug, Clone, Copy, PartialEq, Eq, Structural)]
pub enum WindowFunc {
    /// Row number within partition
    RowNumber,
    /// Rank with gaps
    Rank,
    /// Dense rank without gaps
    DenseRank,
    /// Lead (next value)
    Lead(usize),
    /// Lag (previous value)
    Lag(usize),
    /// First value in window
    First,
    /// Last value in window
    Last,
    /// Running sum
    CumSum,
    /// Running mean
    CumMean,
    /// Running min
    CumMin,
    /// Running max
    CumMax,
    /// Running count
    CumCount,
    /// Percent rank
    PercentRank,
    /// N-tile
    Ntile(usize),
}

/// Column expression for computed columns
#[derive(Debug)]
pub enum ColumnExpr {
    /// Reference to an existing column
    Column(String),
    /// Literal value
    Literal(Value),
    /// Add two expressions
    Add(Box<ColumnExpr>, Box<ColumnExpr>),
    /// Subtract two expressions
    Sub(Box<ColumnExpr>, Box<ColumnExpr>),
    /// Multiply two expressions
    Mul(Box<ColumnExpr>, Box<ColumnExpr>),
    /// Divide two expressions
    Div(Box<ColumnExpr>, Box<ColumnExpr>),
    /// Modulo
    Mod(Box<ColumnExpr>, Box<ColumnExpr>),
    /// Negate
    Neg(Box<ColumnExpr>),
    /// Absolute value
    Abs(Box<ColumnExpr>),
    /// String concatenation
    Concat(Vec<ColumnExpr>),
    /// Cast to type
    Cast(Box<ColumnExpr>, DataType),
    /// Coalesce (first non-null)
    Coalesce(Vec<ColumnExpr>),
    /// Case expression
    Case { when_then: Vec<(FilterPredicate, ColumnExpr)>, otherwise: Box<ColumnExpr> },
}

/// Data types for casting
#[derive(Debug, Clone, Copy, PartialEq, Eq, Structural)]
pub enum DataType {
    Int,
    Float,
    String,
    Bool,
}

/// Source of data for a LazyFrame
#[derive(Debug)]
pub enum LazySource {
    /// A table already in memory
    DataFrame(DataFrame),
    /// Read from Parquet file
    Parquet(String),
    /// Read from CSV file
    Csv(String),
    /// Read from JSON file
    Json(String),
}

/// A lazy DataFrame that builds an execution plan
#[derive(Debug)]
pub struct LazyFrame {
    /// Source of the data
    pub source: LazySource,
    /// Operations to apply in order
    pub ops: Vec<LazyOp>,
}

// ---------------------------------------------------------------------------
// The optimizer's passes on plans
// ---------------------------------------------------------------------------

/// The smaller of two limits.
pub open spec fn min_limit(a: usize, b: usize) -> usize {
    if a <= b {
        a
    } else {
        b
    }
}

/// The merged operations so far and the limit still pending after a plan.
pub open spec fn merge_state(ops: Seq<LazyOp>) -> (Seq<LazyOp>, Option<usize>)
    decreases ops.len(),
{
    if ops.len() == 0 {
        (Seq::empty(), None)
    } else {
        let st = merge_state(ops.drop_last());
        match ops.last() {
            LazyOp::Limit(n) => (
                st.0,
                Some(
                    match st.1 {
                        Some(e) => min_limit(e, n),
                        None => n,
                    },
                ),
            ),
            other => (flush(st).push(other), None),
        }
    }
}

/// The merged operations with the pending limit, if any, appended.
pub open spec fn flush(st: (Seq<LazyOp>, Option<usize>)) -> Seq<LazyOp> {
    match st.1 {
        Some(l) => st.0.push(LazyOp::Limit(l)),
        None => st.0,
    }
}

/// Limit merging: each run of consecutive limits becomes one limit, the
/// smallest of the run.
pub open spec fn merged_limits(ops: Seq<LazyOp>) -> Seq<LazyOp> {
    flush(merge_state(ops))
}

/// The optimized plan: each run of consecutive limits merged into one.
/// No operation moves past another, and no projection is dropped: a
/// filter moved in front of a limit, an offset, a join or a computed
/// column, or a projection left out, can change the rows, the columns or
/// the error a plan gives, while merging limits never does (see
/// `lemma_merged_limits_run`).
pub open spec fn optimized(ops: Seq<LazyOp>) -> Seq<LazyOp> {
    merged_limits(ops)
}

/// `ops` with `x` at its end moved to the front of the rest.
proof fn lemma_skip_step(ops: Seq<LazyOp>, i: int)
    requires
        0 <= i < ops.len(),
    ensures
        ops.skip(i).remove(0) == ops.skip(i + 1),
        ops.skip(i)[0] == ops[i],
        ops.take(i + 1) == ops.take(i).push(ops[i]),
        ops.take(i + 1).drop_last() == ops.take(i),
{
    assert(ops.skip(i).remove(0) =~= ops.skip(i + 1));
    assert(ops.take(i + 1) =~= ops.take(i).push(ops[i]));
    assert(ops.take(i + 1).drop_last() =~= ops.take(i));
}

impl LazyFrame {
    /// The source of the plan.
    pub open spec fn source_spec(&self) -> &LazySource {
        &self.source
    }

    /// The operations of the plan, in order.
    pub open spec fn plan(&self) -> Seq<LazyOp> {
        self.ops@
    }

    /// The plan with `op` appended and the same source.
    pub open spec fn extends(&self, old: LazyFrame, op: LazyOp) -> bool {
        self.source_spec() == old.source_spec() && self.plan() == old.plan().push(op)
    }

    /// A plan over a table in memory, with no operations yet
    pub fn new(df: DataFrame) -> (r: Self)
        ensures
            *r.source_spec() == LazySource::DataFrame(df),
            r.plan().len() == 0,
    {
        LazyFrame { source: LazySource::DataFrame(df), ops: Vec::new() }
    }

    /// Scan a Parquet file lazily
    pub fn scan_parquet(path: String) -> (r: Self)
        ensures
            *r.source_spec() == LazySource::Parquet(path),
            r.plan().len() == 0,
    {
        LazyFrame { source: LazySource::Parquet(path), ops: Vec::new() }
    }

    /// Scan a CSV file lazily
    pub fn scan_csv(path: String) -> (r: Self)
        ensures
            *r.source_spec() == LazySource::Csv(path),
            r.plan().len() == 0,
    {
        LazyFrame { source: LazySource::Csv(path), ops: Vec::new() }
    }

    /// Scan a JSON file lazily
    pub fn scan_json(path: String) -> (r: Self)
        ensures
            *r.source_spec() == LazySource::Json(path),
            r.plan().len() == 0,
    {
        LazyFrame { source: LazySource::Json(path), ops: Vec::new() }
    }

    /// Add an operation to the plan
    fn push_op(self, op: LazyOp) -> (r: Self)
        ensures
            r.extends(self, op),
    {
        let mut lf = self;
        lf.ops.push(op);
        lf
    }

    /// Select specific columns
    pub fn select(self, columns: Vec<String>) -> (r: Self)
        ensures
            r.extends(self, LazyOp::Select(columns)),
    {
        self.push_op(LazyOp::Select(columns))
    }

    /// Drop specific columns
    pub fn drop(self, columns: Vec<String>) -> (r: Self)
        ensures
            r.extends(self, LazyOp::Drop(columns)),
    {
        self.push_op(LazyOp::Drop(columns))
    }

    /// Filter rows based on a predicate
    pub fn filter(self, predicate: FilterPredicate) -> (r: Self)
        ensures
            r.extends(self, LazyOp::Filter(predicate)),
    {
        self.push_op(LazyOp::Filter(predicate))
    }

    /// Filter where column equals value
    pub fn filter_eq(self, column: String, value: Value) -> (r: Self)
        ensures
            r.extends(self, LazyOp::Filter(FilterPredicate::Eq(column, value))),
    {
        self.filter(FilterPredicate::Eq(column, value))
    }

    /// Filter where column is greater than value
    pub fn filter_gt(self, column: String, value: Value) -> (r: Self)
        ensures
            r.extends(self, LazyOp::Filter(FilterPredicate::Gt(column, value))),
    {
        self.filter(FilterPredicate::Gt(column, value))
    }

    /// Filter where column is less than value
    pub fn filter_lt(self, column: String, value: Value) -> (r: Self)
        ensures
            r.extends(self, LazyOp::Filter(FilterPredicate::Lt(column, value))),
    {
        self.filter(FilterPredicate::Lt(column, value))
    }

    /// Filter where column is null
    pub fn filter_null(self, column: String) -> (r: Self)
        ensures
            r.extends(self, LazyOp::Filter(FilterPredicate::IsNull(column))),
    {
        self.filter(FilterPredicate::IsNull(column))
    }

    /// Filter where column is not null
    pub fn filter_not_null(self, column: String) -> (r: Self)
        ensures
            r.extends(self, LazyOp::Filter(FilterPredicate::IsNotNull(column))),
    {
        self.filter(FilterPredicate::IsNotNull(column))
    }

    /// Filter where column is in list
    pub fn filter_in(self, column: String, values: Vec<Value>) -> (r: Self)
        ensures
            r.extends(self, LazyOp::Filter(FilterPredicate::In(column, values))),
    {
        self.filter(FilterPredicate::In(column, values))
    }

    /// Filter where column is between two values
    pub fn filter_between(self, column: String, low: Value, high: Value) -> (r: Self)
        ensures
            r.extends(self, LazyOp::Filter(FilterPredicate::Between(column, low, high))),
    {
        self.filter(FilterPredicate::Between(column, low, high))
    }

    /// Sort by columns, all in the same direction
    pub fn sort(self, columns: Vec<String>, ascending: bool) -> (r: Self)
        ensures
            r.source_spec() == self.source_spec(),
            r.plan().drop_last() == self.plan(),
            r.plan().len() == self.plan().len() + 1,
            r.plan().last() matches LazyOp::Sort { columns: c, ascending: a } && c == columns
                && a@ == Seq::new(columns@.len(), |i: int| ascending),
    {
        let n = columns.len();
        let mut asc: Vec<bool> = Vec::new();
        let mut i: usize = 0;
        while i < n
            invariant
                i <= n,
                asc@ == Seq::new(i as nat, |k: int| ascending),
            decreases n - i,
        {
            asc.push(ascending);
            assert(asc@ =~= Seq::new((i + 1) as nat, |k: int| ascending));
            i = i + 1;
        }
        let r = self.push_op(LazyOp::Sort { columns, ascending: asc });
        assert(r.plan().drop_last() =~= self.plan());
        r
    }

    /// Sort by columns with individual directions
    pub fn sort_by(self, columns: Vec<(String, bool)>) -> (r: Self)
        ensures
            r.source_spec() == self.source_spec(),
            r.plan().drop_last() == self.plan(),
            r.plan().len() == self.plan().len() + 1,
            r.plan().last() matches LazyOp::Sort { columns: c, ascending: a } && c@.len()
                == columns@.len() && a@.len() == columns@.len() && forall|i: int|
                0 <= i < columns@.len() ==> #[trigger] c@[i] == columns@[i].0 && a@[i]
                    == columns@[i].1,
    {
        let mut cols: Vec<String> = Vec::new();
        let mut asc: Vec<bool> = Vec::new();
        let mut rest = columns;
        let ghost all = rest@;
        let mut i: usize = 0;
        assert(all.len() == rest.len());
        while rest.len() > 0
            invariant
                i + rest@.len() == all.len(),
                all.len() <= usize::MAX,
                rest@ == all.skip(i as int),
                cols@.len() == i,
                asc@.len() == i,
                forall|k: int| 0 <= k < i ==> #[trigger] cols@[k] == all[k].0 && asc@[k] == all[k].1,
            decreases rest.len(),
        {
            assert(rest@[0] == all[i as int]);
            assert(all.skip(i as int).remove(0) =~= all.skip(i + 1));
            let ghost cur = all[i as int];
            let (c, a) = rest.remove(0);
            assert(c == cur.0 && a == cur.1);
            let ghost cb = cols@;
            let ghost ab = asc@;
            cols.push(c);
            asc.push(a);
            assert forall|k: int| 0 <= k < i + 1 implies #[trigger] cols@[k] == all[k].0 && asc@[k] == all[k].1 by {
                if k < i {
                    assert(cols@[k] == cb[k]);
                    assert(asc@[k] == ab[k]);
                }
            }
            i = i + 1;
        }
        let r = self.push_op(LazyOp::Sort { columns: cols, ascending: asc });
        assert(r.plan().drop_last() =~= self.plan());
        r
    }

    /// Limit to first n rows
    pub fn limit(self, n: usize) -> (r: Self)
        ensures
            r.extends(self, LazyOp::Limit(n)),
    {
        self.push_op(LazyOp::Limit(n))
    }

    /// Alias for limit
    pub fn head(self, n: usize) -> (r: Self)
        ensures
            r.extends(self, LazyOp::Limit(n)),
    {
        self.limit(n)
    }

    /// Skip first n rows
    pub fn offset(self, n: usize) -> (r: Self)
        ensures
            r.extends(self, LazyOp::Offset(n)),
    {
        self.push_op(LazyOp::Offset(n))
    }

    /// Alias for offset
    pub fn skip(self, n: usize) -> (r: Self)
        ensures
            r.extends(self, LazyOp::Offset(n)),
    {
        self.offset(n)
    }

    /// Get last n rows
    pub fn tail(self, n: usize) -> (r: Self)
        ensures
            r.extends(self, LazyOp::Tail(n)),
    {
        self.push_op(LazyOp::Tail(n))
    }

    /// Rename columns
    pub fn rename(self, renames: Vec<(String, String)>) -> (r: Self)
        ensures
            r.extends(self, LazyOp::Rename(renames)),
    {
        self.push_op(LazyOp::Rename(renames))
    }

    /// Get distinct rows
    pub fn distinct(self) -> (r: Self)
        ensures
            r.extends(self, LazyOp::Distinct),
    {
        self.push_op(LazyOp::Distinct)
    }

    /// Alias for distinct
    pub fn unique(self) -> (r: Self)
        ensures
            r.extends(self, LazyOp::Distinct),
    {
        self.distinct()
    }

    /// Get distinct rows by specific columns
    pub fn distinct_by(self, columns: Vec<String>) -> (r: Self)
        ensures
            r.extends(self, LazyOp::DistinctBy(columns)),
    {
        self.push_op(LazyOp::DistinctBy(columns))
    }

    /// Join with another LazyFrame
    pub fn join(self, right: LazyFrame, spec: JoinSpec) -> (r: Self)
        ensures
            r.extends(self, LazyOp::Join { right: Box::new(right), spec }),
    {
        self.push_op(LazyOp::Join { right: Box::new(right), spec })
    }

    /// A join of `right` on the spec `spec`, checked through its parts.
    pub open spec fn joins(&self, old: LazyFrame, right: LazyFrame, spec: super::join::JoinType, left_col: Seq<char>, right_col: Seq<char>) -> bool {
        &&& self.source_spec() == old.source_spec()
        &&& self.plan().drop_last() == old.plan()
        &&& self.plan().len() == old.plan().len() + 1
        &&& self.plan().last() matches LazyOp::Join { right: r, spec: s } && *r == right && s.describes(
            spec,
            left_col,
            right_col,
        )
    }

    /// Inner join on a single column
    pub fn inner_join(self, right: LazyFrame, on: &str) -> (r: Self)
        ensures
            r.joins(self, right, super::join::JoinType::Inner, on@, on@),
    {
        let spec = JoinSpec::inner(on);
        let r = self.join(right, spec);
        assert(r.plan().drop_last() =~= self.plan());
        r
    }

    /// Inner join on different columns
    pub fn inner_join_cols(self, right: LazyFrame, left_on: &str, right_on: &str) -> (r: Self)
        ensures
            r.joins(self, right, super::join::JoinType::Inner, left_on@, right_on@),
    {
        let spec = JoinSpec::inner_cols(left_on, right_on);
        let r = self.join(right, spec);
        assert(r.plan().drop_last() =~= self.plan());
        r
    }

    /// Left join on a single column
    pub fn left_join(self, right: LazyFrame, on: &str) -> (r: Self)
        ensures
            r.joins(self, right, super::join::JoinType::Left, on@, on@),
    {
        let spec = JoinSpec::left(on);
        let r = self.join(right, spec);
        assert(r.plan().drop_last() =~= self.plan());
        r
    }

    /// Left join on different columns
    pub fn left_join_cols(self, right: LazyFrame, left_on: &str, right_on: &str) -> (r: Self)
        ensures
            r.joins(self, right, super::join::JoinType::Left, left_on@, right_on@),
    {
        let spec = JoinSpec::left_cols(left_on, right_on);
        let r = self.join(right, spec);
        assert(r.plan().drop_last() =~= self.plan());
        r
    }

    /// Right join on a single column
    pub fn right_join(self, right: LazyFrame, on: &str) -> (r: Self)
        ensures
            r.joins(self, right, super::join::JoinType::Right, on@, on@),
    {
        let spec = JoinSpec::right(on);
        let r = self.join(right, spec);
        assert(r.plan().drop_last() =~= self.plan());
        r
    }

    /// Outer join on a single column
    pub fn outer_join(self, right: LazyFrame, on: &str) -> (r: Self)
        ensures
            r.joins(self, right, super::join::JoinType::Outer, on@, on@),
    {
        let spec = JoinSpec::outer(on);
        let r = self.join(right, spec);
        assert(r.plan().drop_last() =~= self.plan());
        r
    }

    /// Fill null values
    pub fn fill_null(self, value: Value) -> (r: Self)
        ensures
            r.extends(self, LazyOp::FillNa(value)),
    {
        self.push_op(LazyOp::FillNa(value))
    }

    /// Drop rows with null values
    pub fn drop_nulls(self) -> (r: Self)
        ensures
            r.extends(self, LazyOp::DropNa),
    {
        self.push_op(LazyOp::DropNa)
    }

    /// Add a window function column
    pub fn with_window(self, spec: WindowSpec) -> (r: Self)
        ensures
            r.extends(self, LazyOp::Window(spec)),
    {
        self.push_op(LazyOp::Window(spec))
    }

    /// Add row number column
    pub fn with_row_number(self, name: String) -> (r: Self)
        ensures
            r.source_spec() == self.source_spec(),
            r.plan().drop_last() == self.plan(),
            r.plan().len() == self.plan().len() + 1,
            r.plan().last() matches LazyOp::Window(w) && w.column@.len() == 0 && w.func
                == WindowFunc::RowNumber && w.partition_by@.len() == 0 && w.order_by@.len() == 0
                && w.output_name == name,
    {
        let r = self.with_window(
            WindowSpec {
                column: String::new(),
                func: WindowFunc::RowNumber,
                partition_by: Vec::new(),
                order_by: Vec::new(),
                output_name: name,
            },
        );
        assert(r.plan().drop_last() =~= self.plan());
        r
    }

    /// Add a computed column
    pub fn with_column(self, name: String, expr: ColumnExpr) -> (r: Self)
        ensures
            r.extends(self, LazyOp::WithColumn { name, expr }),
    {
        self.push_op(LazyOp::WithColumn { name, expr })
    }

    /// Explode a list column
    pub fn explode(self, column: String) -> (r: Self)
        ensures
            r.extends(self, LazyOp::Explode(column)),
    {
        self.push_op(LazyOp::Explode(column))
    }

    /// Group by columns for aggregation
    pub fn group_by(self, columns: Vec<String>) -> (r: LazyGroupBy)
        ensures
            r.source_spec() == self,
            r.group_columns_spec() == columns,
            r.aggregations().len() == 0,
    {
        LazyGroupBy { source: self, group_columns: columns, agg_specs: Vec::new() }
    }

    /// Optimize the query plan
    pub fn optimize(self) -> (r: Self)
        ensures
            r.source_spec() == self.source_spec(),
            r.plan() == optimized(self.plan()),
    {
        Self::merge_limits(self)
    }

    /// Merge consecutive limits into the smallest of them
    fn merge_limits(lf: Self) -> (r: Self)
        ensures
            r.source_spec() == lf.source_spec(),
            r.plan() == merged_limits(lf.plan()),
    {
        let LazyFrame { source, ops } = lf;
        let ghost all = ops@;
        let mut rest = ops;
        let mut new_ops: Vec<LazyOp> = Vec::new();
        let mut pending: Option<usize> = None;
        let mut i: usize = 0;
        assert(all.len() == rest.len());
        while rest.len() > 0
            invariant
                i + rest@.len() == all.len(),
                all.len() <= usize::MAX,
                rest@ == all.skip(i as int),
                (new_ops@, pending) == merge_state(all.take(i as int)),
            decreases rest.len(),
        {
            proof {
                lemma_skip_step(all, i as int);
            }
            let op = rest.remove(0);
            match op {
                LazyOp::Limit(n) => {
                    pending = Some(
                        match pending {
                            Some(existing) => if existing <= n {
                                existing
                            } else {
                                n
                            },
                            None => n,
                        },
                    );
                },
                other => {
                    if let Some(l) = pending {
                        new_ops.push(LazyOp::Limit(l));
                    }
                    pending = None;
                    new_ops.push(other);
                },
            }
            i = i + 1;
        }
        assert(all.take(all.len() as int) =~= all);
        if let Some(l) = pending {
            new_ops.push(LazyOp::Limit(l));
        }
        LazyFrame { source, ops: new_ops }
    }

    /// Get the operations in this LazyFrame (for introspection)
    pub fn operations(&self) -> (r: &[LazyOp])
        ensures
            r@ == self.plan(),
    {
        self.ops.as_slice()
    }

    /// The source of this LazyFrame.
    pub fn source(&self) -> (r: &LazySource)
        ensures
            r == self.source_spec(),
    {
        &self.source
    }
}

/// Lazy group-by builder for aggregations
#[derive(Debug)]
pub struct LazyGroupBy {
    pub source: LazyFrame,
    pub group_columns: Vec<String>,
    pub agg_specs: Vec<AggSpec>,
}

impl LazyGroupBy {
    /// The plan that is grouped.
    pub open spec fn source_spec(&self) -> LazyFrame {
        self.source
    }

    /// The grouping columns.
    pub open spec fn group_columns_spec(&self) -> Vec<String> {
        self.group_columns
    }

    /// The aggregations, in order.
    pub open spec fn aggregations(&self) -> Seq<AggSpec> {
        self.agg_specs@
    }

    /// The builder with one more aggregation.
    pub open spec fn adds(&self, old: LazyGroupBy, a: AggSpec) -> bool {
        &&& self.source_spec() == old.source_spec()
        &&& self.group_columns_spec() == old.group_columns_spec()
        &&& self.aggregations() == old.aggregations().push(a)
    }

    /// The builder with an aggregation that satisfies `ok` appended.
    pub open spec fn adds_agg(&self, old: LazyGroupBy, op: super::grouped::AggOp, column: Seq<char>, output: Seq<char>) -> bool {
        &&& self.source_spec() == old.source_spec()
        &&& self.group_columns_spec() == old.group_columns_spec()
        &&& self.aggregations().drop_last() == old.aggregations()
        &&& self.aggregations().len() == old.aggregations().len() + 1
        &&& self.aggregations().last().on_column(op, column, output)
    }

    /// Append an aggregation.
    fn push_agg(self, a: AggSpec) -> (r: Self)
        ensures
            r.adds(self, a),
    {
        let mut g = self;
        g.agg_specs.push(a);
        g
    }

    /// Add a sum aggregation
    pub fn sum(self, column: &str, output_name: &str) -> (r: Self)
        ensures
            r.adds_agg(self, super::grouped::AggOp::Sum, column@, output_name@),
    {
        let r = self.push_agg(AggSpec::sum(column, output_name));
        assert(r.aggregations().drop_last() =~= self.aggregations());
        r
    }

    /// Add a mean aggregation
    pub fn mean(self, column: &str, output_name: &str) -> (r: Self)
        ensures
            r.adds_agg(self, super::grouped::AggOp::Mean, column@, output_name@),
    {
        let r = self.push_agg(AggSpec::mean(column, output_name));
        assert(r.aggregations().drop_last() =~= self.aggregations());
        r
    }

    /// Add a min aggregation
    pub fn min(self, column: &str, output_name: &str) -> (r: Self)
        ensures
            r.adds_agg(self, super::grouped::AggOp::Min, column@, output_name@),
    {
        let r = self.push_agg(AggSpec::min(column, output_name));
        assert(r.aggregations().drop_last() =~= self.aggregations());
        r
    }

    /// Add a max aggregation
    pub fn max(self, column: &str, output_name: &str) -> (r: Self)
        ensures
            r.adds_agg(self, super::grouped::AggOp::Max, column@, output_name@),
    {
        let r = self.push_agg(AggSpec::max(column, output_name));
        assert(r.aggregations().drop_last() =~= self.aggregations());
        r
    }

    /// Add a count aggregation
    pub fn count(self, output_name: &str) -> (r: Self)
        ensures
            r.source_spec() == self.source_spec(),
            r.group_columns_spec() == self.group_columns_spec(),
            r.aggregations().drop_last() == self.aggregations(),
            r.aggregations().len() == self.aggregations().len() + 1,
            r.aggregations().last().op == super::grouped::AggOp::Count,
            r.aggregations().last().column is None,
            r.aggregations().last().output_name@ == output_name@,
    {
        let r = self.push_agg(AggSpec::count(output_name));
        assert(r.aggregations().drop_last() =~= self.aggregations());
        r
    }

    /// Add a first aggregation
    pub fn first(self, column: &str, output_name: &str) -> (r: Self)
        ensures
            r.adds_agg(self, super::grouped::AggOp::First, column@, output_name@),
    {
        let r = self.push_agg(AggSpec::first(column, output_name));
        assert(r.aggregations().drop_last() =~= self.aggregations());
        r
    }

    /// Add a last aggregation
    pub fn last(self, column: &str, output_name: &str) -> (r: Self)
        ensures
            r.adds_agg(self, super::grouped::AggOp::Last, column@, output_name@),
    {
        let r = self.push_agg(AggSpec::last(column, output_name));
        assert(r.aggregations().drop_last() =~= self.aggregations());
        r
    }

    /// Add a standard deviation aggregation
    pub fn std_dev(self, column: &str, output_name: &str) -> (r: Self)
        ensures
            r.adds_agg(self, super::grouped::AggOp::Std, column@, output_name@),
    {
        let r = self.push_agg(AggSpec::std_dev(column, output_name));
        assert(r.aggregations().drop_last() =~= self.aggregations());
        r
    }

    /// Add a var (variance) aggregation
    pub fn var(self, column: &str, output_name: &str) -> (r: Self)
        ensures
            r.adds_agg(self, super::grouped::AggOp::Var, column@, output_name@),
    {
        let r = self.push_agg(AggSpec::var(column, output_name));
        assert(r.aggregations().drop_last() =~= self.aggregations());
        r
    }

    /// Add a median aggregation
    pub fn median(self, column: &str, output_name: &str) -> (r: Self)
        ensures
            r.adds_agg(self, super::grouped::AggOp::Median, column@, output_name@),
    {
        let r = self.push_agg(AggSpec::median(column, output_name));
        assert(r.aggregations().drop_last() =~= self.aggregations());
        r
    }

    /// Add aggregations from specs, in order
    pub fn agg(self, specs: Vec<AggSpec>) -> (r: Self)
        ensures
            r.source_spec() == self.source_spec(),
            r.group_columns_spec() == self.group_columns_spec(),
            r.aggregations() == self.aggregations() + specs@,
    {
        let mut g = self;
        let mut rest = specs;
        let ghost all = rest@;
        let ghost start = g.aggregations();
        let mut i: usize = 0;
        assert(all.len() == rest.len());
        while rest.len() > 0
            invariant
                i + rest@.len() == all.len(),
                all.len() <= usize::MAX,
                rest@ == all.skip(i as int),
                g.source_spec() == self.source_spec(),
                g.group_columns_spec() == self.group_columns_spec(),
                g.aggregations() == start + all.take(i as int),
            decreases rest.len(),
        {
            assert(all.skip(i as int).remove(0) =~= all.skip(i + 1));
            assert(all.take(i + 1) =~= all.take(i as int).push(all[i as int]));
            let a = rest.remove(0);
            g = g.push_agg(a);
            i = i + 1;
        }
        assert(all.take(all.len() as int) =~= all);
        g
    }

    /// The plan that is grouped.
    pub fn source(&self) -> (r: &LazyFrame)
        ensures
            *r == self.source_spec(),
    {
        &self.source
    }

    /// The grouping columns.
    pub fn group_columns(&self) -> (r: &[String])
        ensures
            r@ == self.group_columns_spec()@,
    {
        self.group_columns.as_slice()
    }

    /// The aggregations, in order.
    pub fn agg_specs(&self) -> (r: &[AggSpec])
        ensures
            r@ == self.aggregations(),
    {
        self.agg_specs.as_slice()
    }
}

} // verus!
