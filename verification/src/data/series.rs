//! A named column of values of one type (integers, booleans or strings),
//! any of them missing.

use vstd::prelude::*;

use super::error::DataError;
use super::value::{copy_value, same_value, value_views, Value, ValueModel};
use crate::fmt::push_int;
use crate::text::{
    chars_of, contains_seq, occurs_at, contains_str, copy_str, ends_with, has_prefix, has_suffix, lowercase, push_char, replace_str,
    replaced, starts_with, str_eq, to_lowercase, to_uppercase, trim, trim_end, trim_end_str, trim_start, trim_start_str,
    trim_str, uppercase,
};

verus! {

/// The type of a column's values.
#[derive(Debug, Clone, Copy, PartialEq, Eq, Structural)]
pub enum SeriesType {
    /// 64-bit integers
    Int64,
    /// Booleans
    Boolean,
    /// Strings
    Utf8,
}

/// A value fits a column type: it is missing, or of that type.
pub open spec fn fits(t: SeriesType, v: ValueModel) -> bool {
    match v {
        ValueModel::Null => true,
        ValueModel::Int(_) => t == SeriesType::Int64,
        ValueModel::Bool(_) => t == SeriesType::Boolean,
        ValueModel::Str(_) => t == SeriesType::Utf8,
    }
}

/// The name of a value's type, as type errors report it.
pub open spec fn kind_name(v: ValueModel) -> Seq<char> {
    match v {
        ValueModel::Null => "Null"@,
        ValueModel::Int(_) => "Int"@,
        ValueModel::Bool(_) => "Bool"@,
        ValueModel::Str(_) => "String"@,
    }
}

/// The name of a column type, as type errors report it.
pub open spec fn type_debug(t: SeriesType) -> Seq<char> {
    match t {
        SeriesType::Int64 => "Int64"@,
        SeriesType::Boolean => "Boolean"@,
        SeriesType::Utf8 => "Utf8"@,
    }
}

/// A named column of values of one type.
#[derive(Debug)]
pub struct Series {
    name: String,
    dtype: SeriesType,
    values: Vec<Value>,
}

impl Series {
    /// Every value fits the column's type.
    #[verifier::type_invariant]
    spec fn typed(self) -> bool {
        forall|i: int| 0 <= i < self.values@.len() ==> fits(self.dtype, #[trigger] self.values@[i]@)
    }

    /// The column's name.
    pub closed spec fn name_view(self) -> Seq<char> {
        self.name@
    }

    /// The column's type.
    pub closed spec fn kind(self) -> SeriesType {
        self.dtype
    }

    /// The column's values, null where missing.
    pub closed spec fn cells(self) -> Seq<ValueModel> {
        value_views(self.values@)
    }
}

/// The type of a present value; `None` for a missing one.
pub open spec fn type_of(v: ValueModel) -> Option<SeriesType> {
    match v {
        ValueModel::Null => None,
        ValueModel::Int(_) => Some(SeriesType::Int64),
        ValueModel::Bool(_) => Some(SeriesType::Boolean),
        ValueModel::Str(_) => Some(SeriesType::Utf8),
    }
}

/// The type of the first present value, if any.
pub open spec fn first_type(vals: Seq<ValueModel>) -> Option<SeriesType>
    decreases vals.len(),
{
    if vals.len() == 0 {
        None
    } else {
        match first_type(vals.drop_last()) {
            Some(t) => Some(t),
            None => type_of(vals.last()),
        }
    }
}

/// The type a column of these values takes: that of the first present
/// value, or integers when there is none.
pub open spec fn inferred_type(vals: Seq<ValueModel>) -> SeriesType {
    match first_type(vals) {
        Some(t) => t,
        None => SeriesType::Int64,
    }
}

/// The name type errors give the values a column type expects.
pub open spec fn expected_name(t: SeriesType) -> Seq<char> {
    match t {
        SeriesType::Int64 => "Int"@,
        SeriesType::Boolean => "Bool"@,
        SeriesType::Utf8 => "String"@,
    }
}

/// Position of the first value that does not fit the type, or -1.
pub open spec fn first_misfit(t: SeriesType, vals: Seq<ValueModel>) -> int
    decreases vals.len(),
{
    if vals.len() == 0 {
        -1
    } else if first_misfit(t, vals.drop_last()) >= 0 {
        first_misfit(t, vals.drop_last())
    } else if !fits(t, vals.last()) {
        vals.len() - 1
    } else {
        -1
    }
}

/// How many of the values are missing.
pub open spec fn null_total(vals: Seq<ValueModel>) -> nat
    decreases vals.len(),
{
    if vals.len() == 0 {
        0
    } else {
        null_total(vals.drop_last()) + if vals.last() == ValueModel::Null {
            1nat
        } else {
            0nat
        }
    }
}

/// The type of a value, computed.
fn type_of_exec(v: &Value) -> (r: Option<SeriesType>)
    ensures
        r == type_of(v@),
{
    match v {
        Value::Null => None,
        Value::Int(_) => Some(SeriesType::Int64),
        Value::Bool(_) => Some(SeriesType::Boolean),
        Value::String(_) => Some(SeriesType::Utf8),
    }
}

/// Whether a value fits a type, computed.
fn fits_exec(t: SeriesType, v: &Value) -> (r: bool)
    ensures
        r == fits(t, v@),
{
    match type_of_exec(v) {
        None => true,
        Some(k) => k == t,
    }
}

/// The name of a value's type.
pub(crate) fn kind_name_exec(v: &Value) -> (r: String)
    ensures
        r@ == kind_name(v@),
{
    match v {
        Value::Null => copy_str("Null"),
        Value::Int(_) => copy_str("Int"),
        Value::Bool(_) => copy_str("Bool"),
        Value::String(_) => copy_str("String"),
    }
}

/// The name of the values a type expects.
fn expected_name_exec(t: SeriesType) -> (r: String)
    ensures
        r@ == expected_name(t),
{
    match t {
        SeriesType::Int64 => copy_str("Int"),
        SeriesType::Boolean => copy_str("Bool"),
        SeriesType::Utf8 => copy_str("String"),
    }
}

/// The name of a column type.
pub(crate) fn type_debug_exec(t: SeriesType) -> (r: String)
    ensures
        r@ == type_debug(t),
{
    match t {
        SeriesType::Int64 => copy_str("Int64"),
        SeriesType::Boolean => copy_str("Boolean"),
        SeriesType::Utf8 => copy_str("Utf8"),
    }
}

/// A copy of a list of values.
fn copy_values(vs: &Vec<Value>) -> (r: Vec<Value>)
    ensures
        value_views(r@) == value_views(vs@),
{
    let mut out: Vec<Value> = Vec::new();
    let mut i: usize = 0;
    while i < vs.len()
        invariant
            i <= vs@.len(),
            out@.len() == i,
            forall|m: int| 0 <= m < i ==> (#[trigger] out@[m])@ == vs@[m]@,
        decreases vs.len() - i,
    {
        out.push(copy_value(&vs[i]));
        i = i + 1;
    }
    assert(value_views(out@) =~= value_views(vs@));
    out
}

impl Series {
    /// A column of integers.
    pub fn from_ints(name: &str, values: Vec<i64>) -> (r: Self)
        ensures
            r.name_view() == name@,
            r.kind() == SeriesType::Int64,
            r.cells() == values@.map_values(|x: i64| ValueModel::Int(x)),
    {
        let mut vs: Vec<Value> = Vec::new();
        let mut i: usize = 0;
        while i < values.len()
            invariant
                i <= values@.len(),
                vs@.len() == i,
                forall|m: int| 0 <= m < i ==> (#[trigger] vs@[m])@ == ValueModel::Int(values@[m]),
            decreases values.len() - i,
        {
            vs.push(Value::Int(values[i]));
            i = i + 1;
        }
        assert(value_views(vs@) =~= values@.map_values(|x: i64| ValueModel::Int(x)));
        Series { name: copy_str(name), dtype: SeriesType::Int64, values: vs }
    }

    /// A column of booleans.
    pub fn from_bools(name: &str, values: Vec<bool>) -> (r: Self)
        ensures
            r.name_view() == name@,
            r.kind() == SeriesType::Boolean,
            r.cells() == values@.map_values(|x: bool| ValueModel::Bool(x)),
    {
        let mut vs: Vec<Value> = Vec::new();
        let mut i: usize = 0;
        while i < values.len()
            invariant
                i <= values@.len(),
                vs@.len() == i,
                forall|m: int| 0 <= m < i ==> (#[trigger] vs@[m])@ == ValueModel::Bool(values@[m]),
            decreases values.len() - i,
        {
            vs.push(Value::Bool(values[i]));
            i = i + 1;
        }
        assert(value_views(vs@) =~= values@.map_values(|x: bool| ValueModel::Bool(x)));
        Series { name: copy_str(name), dtype: SeriesType::Boolean, values: vs }
    }

    /// A column of strings.
    pub fn from_strings(name: &str, values: Vec<&str>) -> (r: Self)
        ensures
            r.name_view() == name@,
            r.kind() == SeriesType::Utf8,
            r.cells() == values@.map_values(|x: &str| ValueModel::Str(x@)),
    {
        let mut vs: Vec<Value> = Vec::new();
        let mut i: usize = 0;
        while i < values.len()
            invariant
                i <= values@.len(),
                vs@.len() == i,
                forall|m: int| 0 <= m < i ==> (#[trigger] vs@[m])@ == ValueModel::Str(values@[m]@),
            decreases values.len() - i,
        {
            vs.push(Value::String(copy_str(values[i])));
            i = i + 1;
        }
        assert(value_views(vs@) =~= values@.map_values(|x: &str| ValueModel::Str(x@)));
        Series { name: copy_str(name), dtype: SeriesType::Utf8, values: vs }
    }

    /// A column of integers, any of them missing.
    pub fn from_optional_ints(name: &str, values: Vec<Option<i64>>) -> (r: Self)
        ensures
            r.name_view() == name@,
            r.kind() == SeriesType::Int64,
            r.cells() == values@.map_values(
                |x: Option<i64>|
                    match x {
                        Some(v) => ValueModel::Int(v),
                        None => ValueModel::Null,
                    },
            ),
    {
        let mut vs: Vec<Value> = Vec::new();
        let mut i: usize = 0;
        while i < values.len()
            invariant
                i <= values@.len(),
                vs@.len() == i,
                forall|m: int|
                    0 <= m < i ==> (#[trigger] vs@[m])@ == match values@[m] {
                        Some(v) => ValueModel::Int(v),
                        None => ValueModel::Null,
                    },
            decreases values.len() - i,
        {
            let v = match values[i] {
                Some(x) => Value::Int(x),
                None => Value::Null,
            };
            vs.push(v);
            i = i + 1;
        }
        assert(value_views(vs@) =~= values@.map_values(
            |x: Option<i64>|
                match x {
                    Some(v) => ValueModel::Int(v),
                    None => ValueModel::Null,
                },
        ));
        Series { name: copy_str(name), dtype: SeriesType::Int64, values: vs }
    }

    /// A column from values: its type is that of the first present value
    /// (integers if there is none), and every value must be of that type
    /// or missing; the first that is not gives `TypeMismatch`.
    pub fn from_values(name: &str, values: &[Value]) -> (r: Result<Self, DataError>)
        ensures
            ({
                let vv = value_views(values@);
                let t = inferred_type(vv);
                let k = first_misfit(t, vv);
                if k < 0 {
                    r matches Ok(s) && s.name_view() == name@ && s.kind() == t && s.cells() == vv
                } else {
                    r matches Err(DataError::TypeMismatch { expected, found }) && expected@ == expected_name(t)
                        && found@ == kind_name(vv[k])
                }
            }),
    {
        let ghost vv = value_views(values@);
        let mut first: Option<SeriesType> = None;
        let mut i: usize = 0;
        while i < values.len()
            invariant
                i <= values@.len(),
                vv == value_views(values@),
                first == first_type(vv.take(i as int)),
            decreases values.len() - i,
        {
            assert(vv.take(i + 1).drop_last() =~= vv.take(i as int));
            if first.is_none() {
                first = type_of_exec(&values[i]);
            }
            i = i + 1;
        }
        assert(vv.take(values@.len() as int) =~= vv);
        let t = match first {
            Some(t) => t,
            None => SeriesType::Int64,
        };
        let mut vs: Vec<Value> = Vec::new();
        let mut i: usize = 0;
        while i < values.len()
            invariant
                i <= values@.len(),
                vv == value_views(values@),
                t == inferred_type(vv),
                first_misfit(t, vv.take(i as int)) < 0,
                value_views(vs@) == vv.take(i as int),
            decreases values.len() - i,
        {
            assert(vv.take(i + 1).drop_last() =~= vv.take(i as int));
            if !fits_exec(t, &values[i]) {
                proof {
                    lemma_misfit_prefix(t, vv, i + 1);
                }
                return Err(DataError::TypeMismatch { expected: expected_name_exec(t), found: kind_name_exec(&values[i]) });
            }
            let ghost before = vs@;
            vs.push(copy_value(&values[i]));
            assert(value_views(vs@) =~= value_views(before).push(vv[i as int]));
            assert(vv.take(i + 1) =~= vv.take(i as int).push(vv[i as int]));
            i = i + 1;
        }
        assert(vv.take(values@.len() as int) =~= vv);
        proof {
            lemma_no_misfit(t, vv);
            assert forall|i: int| 0 <= i < vs@.len() implies fits(t, #[trigger] vs@[i]@) by {
                assert(vs@[i]@ == vv[i]);
            }
        }
        Ok(Series { name: copy_str(name), dtype: t, values: vs })
    }

    /// The column's name.
    pub fn name(&self) -> (r: &str)
        ensures
            r@ == self.name_view(),
    {
        self.name.as_str()
    }

    /// The same column under another name.
    pub fn rename(self, name: &str) -> (r: Self)
        ensures
            r.name_view() == name@,
            r.kind() == self.kind(),
            r.cells() == self.cells(),
    {
        proof {
            use_type_invariant(&self);
        }
        Series { name: copy_str(name), dtype: self.dtype, values: self.values }
    }

    /// The number of values.
    pub fn len(&self) -> (r: usize)
        ensures
            r == self.cells().len(),
    {
        self.values.len()
    }

    /// Whether the column has no values.
    pub fn is_empty(&self) -> (r: bool)
        ensures
            r == (self.cells().len() == 0),
    {
        self.values.len() == 0
    }

    /// The column's type.
    pub fn data_type(&self) -> (r: SeriesType)
        ensures
            r == self.kind(),
    {
        self.dtype
    }

    /// The number of missing values.
    pub fn null_count(&self) -> (r: usize)
        ensures
            r == null_total(self.cells()),
    {
        let ghost cv = self.cells();
        let mut n: usize = 0;
        let mut i: usize = 0;
        while i < self.values.len()
            invariant
                i <= self.values@.len(),
                cv == value_views(self.values@),
                n == null_total(cv.take(i as int)),
                n <= i,
            decreases self.values.len() - i,
        {
            assert(cv.take(i + 1).drop_last() =~= cv.take(i as int));
            if same_value(&self.values[i], &Value::Null) {
                n = n + 1;
            }
            i = i + 1;
        }
        assert(cv.take(self.values@.len() as int) =~= cv);
        n
    }

    /// Whether the value at `index` is missing.
    pub fn is_null(&self, index: usize) -> (r: bool)
        requires
            index < self.cells().len(),
        ensures
            r == (self.cells()[index as int] == ValueModel::Null),
    {
        same_value(&self.values[index], &Value::Null)
    }

    /// The value at `index`, null where missing; `InvalidColumnIndex` past
    /// the end.
    pub fn get(&self, index: usize) -> (r: Result<Value, DataError>)
        ensures
            index < self.cells().len() ==> (r matches Ok(v) && v@ == self.cells()[index as int]),
            index >= self.cells().len() ==> (r matches Err(DataError::InvalidColumnIndex(i)) && i == index),
    {
        if index >= self.values.len() {
            return Err(DataError::InvalidColumnIndex(index));
        }
        Ok(copy_value(&self.values[index]))
    }

    /// The number of present values.
    pub fn count(&self) -> (r: usize)
        ensures
            r == self.cells().len() - null_total(self.cells()),
    {
        let n = self.null_count();
        proof {
            lemma_null_total_le(self.cells());
        }
        self.values.len() - n
    }

    /// All the values, null where missing.
    pub fn to_values(&self) -> (r: Result<Vec<Value>, DataError>)
        ensures
            r matches Ok(v) && value_views(v@) == self.cells(),
    {
        Ok(copy_values(&self.values))
    }

    /// Whether the column holds strings.
    pub fn is_string(&self) -> (r: bool)
        ensures
            r == (self.kind() == SeriesType::Utf8),
    {
        self.dtype == SeriesType::Utf8
    }

    /// Whether the column holds booleans.
    pub fn is_boolean(&self) -> (r: bool)
        ensures
            r == (self.kind() == SeriesType::Boolean),
    {
        self.dtype == SeriesType::Boolean
    }

    /// Whether the column holds numbers.
    pub fn is_numeric(&self) -> (r: bool)
        ensures
            r == (self.kind() == SeriesType::Int64),
    {
        self.dtype == SeriesType::Int64
    }
}

/// A misfit among the first `k` values is the first misfit of all.
proof fn lemma_misfit_prefix(t: SeriesType, vals: Seq<ValueModel>, k: int)
    requires
        0 <= k <= vals.len(),
        first_misfit(t, vals.take(k)) >= 0,
    ensures
        first_misfit(t, vals) == first_misfit(t, vals.take(k)),
        0 <= first_misfit(t, vals) < k,
    decreases vals.len() - k,
{
    lemma_misfit_bounds(t, vals.take(k));
    if k < vals.len() {
        assert(vals.take(k + 1).drop_last() =~= vals.take(k));
        lemma_misfit_prefix(t, vals, k + 1);
    } else {
        assert(vals.take(k) =~= vals);
    }
}

/// The first misfit is a position of the values, and does not fit.
proof fn lemma_misfit_bounds(t: SeriesType, vals: Seq<ValueModel>)
    ensures
        -1 <= first_misfit(t, vals) < vals.len(),
        first_misfit(t, vals) >= 0 ==> !fits(t, vals[first_misfit(t, vals)]),
    decreases vals.len(),
{
    if vals.len() > 0 {
        lemma_misfit_bounds(t, vals.drop_last());
    }
}

/// Without a misfit every value fits.
proof fn lemma_no_misfit(t: SeriesType, vals: Seq<ValueModel>)
    requires
        first_misfit(t, vals) < 0,
    ensures
        forall|i: int| 0 <= i < vals.len() ==> fits(t, #[trigger] vals[i]),
    decreases vals.len(),
{
    if vals.len() > 0 {
        lemma_no_misfit(t, vals.drop_last());
        assert forall|i: int| 0 <= i < vals.len() implies fits(t, #[trigger] vals[i]) by {
            if i < vals.len() - 1 {
                assert(vals[i] == vals.drop_last()[i]);
            }
        }
    }
}

/// The missing values are at most all of them.
proof fn lemma_null_total_le(vals: Seq<ValueModel>)
    ensures
        null_total(vals) <= vals.len(),
    decreases vals.len(),
{
    if vals.len() > 0 {
        lemma_null_total_le(vals.drop_last());
    }
}

// ---------------------------------------------------------------------------
// Shifting and running values
// ---------------------------------------------------------------------------

/// The values moved `n` places down (up where `n` is negative), null where
/// nothing moves in.
pub open spec fn shifted(vals: Seq<ValueModel>, n: int) -> Seq<ValueModel> {
    Seq::new(vals.len(), |i: int| if 0 <= i - n < vals.len() {
        vals[i - n]
    } else {
        ValueModel::Null
    })
}

/// Each value minus the value `k` places before it; null for the first `k`
/// and where either is missing.
pub open spec fn differences(vals: Seq<ValueModel>, k: int) -> Seq<ValueModel> {
    Seq::new(
        vals.len(),
        |i: int|
            if i < k {
                ValueModel::Null
            } else {
                match (vals[i], vals[i - k]) {
                    (ValueModel::Int(x), ValueModel::Int(y)) => ValueModel::Int((x - y) as i64),
                    _ => ValueModel::Null,
                }
            },
    )
}

/// Every difference of `differences` fits an `i64`.
pub open spec fn differences_fit(vals: Seq<ValueModel>, k: int) -> bool {
    forall|i: int|
        k <= i < vals.len() ==> match (#[trigger] vals[i], vals[i - k]) {
            (ValueModel::Int(x), ValueModel::Int(y)) => i64::MIN <= x - y <= i64::MAX,
            _ => true,
        }
}

/// The sum of the integers among the values.
pub open spec fn int_total(vals: Seq<ValueModel>) -> int
    decreases vals.len(),
{
    if vals.len() == 0 {
        0
    } else {
        int_total(vals.drop_last()) + match vals.last() {
            ValueModel::Int(x) => x as int,
            _ => 0,
        }
    }
}

/// The product of the integers among the values.
pub open spec fn int_product(vals: Seq<ValueModel>) -> int
    decreases vals.len(),
{
    if vals.len() == 0 {
        1
    } else {
        int_product(vals.drop_last()) * match vals.last() {
            ValueModel::Int(x) => x as int,
            _ => 1,
        }
    }
}

/// The running sums (`product` unset) or products of the integers, null
/// where a value is missing.
pub open spec fn running(vals: Seq<ValueModel>, product: bool) -> Seq<ValueModel> {
    Seq::new(
        vals.len(),
        |i: int|
            match vals[i] {
                ValueModel::Int(_) => ValueModel::Int(
                    (if product {
                        int_product(vals.take(i + 1))
                    } else {
                        int_total(vals.take(i + 1))
                    }) as i64,
                ),
                _ => ValueModel::Null,
            },
    )
}

/// Every running sum or product at a present value fits an `i64`.
pub open spec fn running_fits(vals: Seq<ValueModel>, product: bool) -> bool {
    forall|i: int|
        0 <= i < vals.len() && (#[trigger] vals[i] is Int) ==> {
            let t = if product {
                int_product(vals.take(i + 1))
            } else {
                int_total(vals.take(i + 1))
            };
            i64::MIN <= t <= i64::MAX
        }
}

/// The largest (`smallest` unset) or smallest integer among the values.
pub open spec fn extreme(vals: Seq<ValueModel>, smallest: bool) -> Option<i64>
    decreases vals.len(),
{
    if vals.len() == 0 {
        None
    } else {
        let p = extreme(vals.drop_last(), smallest);
        match vals.last() {
            ValueModel::Int(x) => Some(
                match p {
                    Some(m) => if (smallest && m <= x) || (!smallest && m >= x) {
                        m
                    } else {
                        x
                    },
                    None => x,
                },
            ),
            _ => p,
        }
    }
}

/// The running maxima or minima: at each row the extreme of the integers
/// so far, null before the first.
pub open spec fn running_extremes(vals: Seq<ValueModel>, smallest: bool) -> Seq<ValueModel> {
    Seq::new(
        vals.len(),
        |i: int|
            match extreme(vals.take(i + 1), smallest) {
                Some(m) => ValueModel::Int(m),
                None => ValueModel::Null,
            },
    )
}

/// The present values, in order.
pub open spec fn present(vals: Seq<ValueModel>) -> Seq<ValueModel>
    decreases vals.len(),
{
    if vals.len() == 0 {
        Seq::empty()
    } else if vals.last() != ValueModel::Null {
        present(vals.drop_last()).push(vals.last())
    } else {
        present(vals.drop_last())
    }
}

/// The last present value, or null.
pub open spec fn last_present(vals: Seq<ValueModel>) -> ValueModel
    decreases vals.len(),
{
    if vals.len() == 0 {
        ValueModel::Null
    } else if vals.last() != ValueModel::Null {
        vals.last()
    } else {
        last_present(vals.drop_last())
    }
}

/// The first present value, or null.
pub open spec fn first_present(vals: Seq<ValueModel>) -> ValueModel
    decreases vals.len(),
{
    if vals.len() == 0 {
        ValueModel::Null
    } else if vals[0] != ValueModel::Null {
        vals[0]
    } else {
        first_present(vals.drop_first())
    }
}

/// A column's missing values filled with `v`.
pub open spec fn filled(vals: Seq<ValueModel>, v: ValueModel) -> Seq<ValueModel> {
    Seq::new(vals.len(), |i: int| if vals[i] == ValueModel::Null {
        v
    } else {
        vals[i]
    })
}

impl Clone for Series {
    fn clone(&self) -> (r: Self)
        ensures
            r.name_view() == self.name_view(),
            r.kind() == self.kind(),
            r.cells() == self.cells(),
    {
        self.duplicate()
    }
}

impl Series {
    /// A column of the given parts.
    pub(crate) fn assemble(name: String, dtype: SeriesType, values: Vec<Value>) -> (r: Self)
        requires
            forall|i: int| 0 <= i < values@.len() ==> fits(dtype, #[trigger] values@[i]@),
        ensures
            r.name_view() == name@,
            r.kind() == dtype,
            r.cells() == value_views(values@),
    {
        Series { name, dtype, values }
    }

    /// The column's name with a suffix.
    fn suffixed(&self, suffix: &str) -> (r: String)
        ensures
            r@ == self.name_view() + suffix@,
    {
        let mut s = copy_str(self.name.as_str());
        s.append(suffix);
        s
    }

    /// A copy of the column.
    fn duplicate(&self) -> (r: Self)
        ensures
            r.name_view() == self.name_view(),
            r.kind() == self.kind(),
            r.cells() == self.cells(),
    {
        proof {
            use_type_invariant(self);
        }
        let vs = copy_values(&self.values);
        assert(vs@.len() == value_views(vs@).len() && self.values@.len() == value_views(self.values@).len());
        assert forall|i: int| 0 <= i < vs@.len() implies fits(self.dtype, #[trigger] vs@[i]@) by {
            assert(vs@[i]@ == value_views(vs@)[i]);
            assert(self.values@[i]@ == value_views(self.values@)[i]);
        }
        Series::assemble(copy_str(self.name.as_str()), self.dtype, vs)
    }

    /// The values moved `n` places down (up where `n` is negative), null
    /// where nothing moves in; named with `_shift`. An empty column, or a
    /// shift by zero, comes back as it is.
    pub fn shift(&self, n: i64) -> (r: Result<Self, DataError>)
        ensures
            r matches Ok(s) && s.kind() == self.kind() && s.cells() == shifted(self.cells(), n as int)
                && s.name_view() == if self.cells().len() == 0 || n == 0 {
                self.name_view()
            } else {
                self.name_view() + "_shift"@
            },
    {
        proof {
            use_type_invariant(self);
        }
        if self.values.len() == 0 || n == 0 {
            let r = self.duplicate();
            assert(shifted(self.cells(), n as int) =~= self.cells());
            return Ok(r);
        }
        let len = self.values.len();
        let ghost cv = self.cells();
        let mut out: Vec<Value> = Vec::new();
        let mut i: usize = 0;
        while i < len
            invariant
                i <= len,
                len == self.values@.len(),
                cv == value_views(self.values@),
                forall|m: int| 0 <= m < len ==> fits(self.dtype, #[trigger] self.values@[m]@),
                out@.len() == i,
                forall|m: int| 0 <= m < i ==> (#[trigger] out@[m])@ == shifted(cv, n as int)[m],
                forall|m: int| 0 <= m < i ==> fits(self.dtype, #[trigger] out@[m]@),
            decreases len - i,
        {
            let src: i128 = i as i128 - n as i128;
            let v = if 0 <= src && src < len as i128 {
                copy_value(&self.values[src as usize])
            } else {
                Value::Null
            };
            out.push(v);
            i = i + 1;
        }
        assert(value_views(out@) =~= shifted(cv, n as int));
        Ok(Series::assemble(self.suffixed("_shift"), self.dtype, out))
    }

    /// The values `n` places down: a shift by the size of `n`.
    pub fn lag(&self, n: i64) -> (r: Result<Self, DataError>)
        requires
            n != i64::MIN,
        ensures
            ({
                let k: int = if n < 0 {
                    -n
                } else {
                    n as int
                };
                r matches Ok(s) && s.kind() == self.kind() && s.cells() == shifted(self.cells(), k) && s.name_view()
                    == if self.cells().len() == 0 || n == 0 {
                    self.name_view()
                } else {
                    self.name_view() + "_shift"@
                }
            }),
    {
        self.shift(if n < 0 {
            -n
        } else {
            n
        })
    }

    /// The values `n` places up: a shift by minus the size of `n`.
    pub fn lead(&self, n: i64) -> (r: Result<Self, DataError>)
        requires
            n != i64::MIN,
        ensures
            ({
                let k: int = if n < 0 {
                    n as int
                } else {
                    -n
                };
                r matches Ok(s) && s.kind() == self.kind() && s.cells() == shifted(self.cells(), k) && s.name_view()
                    == if self.cells().len() == 0 || n == 0 {
                    self.name_view()
                } else {
                    self.name_view() + "_shift"@
                }
            }),
    {
        self.shift(if n < 0 {
            n
        } else {
            -n
        })
    }
}

impl Series {
    /// The error for an operation that needs numbers.
    fn numeric_mismatch(&self) -> (r: DataError)
        ensures
            r matches DataError::TypeMismatch { expected, found } && expected@ == "numeric type"@ && found@
                == type_debug(self.kind()),
    {
        DataError::TypeMismatch { expected: copy_str("numeric type"), found: type_debug_exec(self.dtype) }
    }

    /// Each value minus the one `n` places before it (by the size of `n`),
    /// named with `_diff`; see [`differences`]. An empty column, or a
    /// difference over zero places, comes back as it is; a column of other
    /// than integers gives `TypeMismatch`.
    pub fn diff(&self, n: i64) -> (r: Result<Self, DataError>)
        requires
            n != i64::MIN,
            differences_fit(
                self.cells(),
                if n < 0 {
                    -n
                } else {
                    n as int
                },
            ),
        ensures
            ({
                let k: int = if n < 0 {
                    -n
                } else {
                    n as int
                };
                if self.cells().len() == 0 || n == 0 {
                    r matches Ok(s) && s.name_view() == self.name_view() && s.kind() == self.kind() && s.cells()
                        == self.cells()
                } else if self.kind() != SeriesType::Int64 {
                    r matches Err(DataError::TypeMismatch { expected, found }) && expected@ == "numeric type"@
                        && found@ == type_debug(self.kind())
                } else {
                    r matches Ok(s) && s.name_view() == self.name_view() + "_diff"@ && s.kind() == SeriesType::Int64
                        && s.cells() == differences(self.cells(), k)
                }
            }),
    {
        proof {
            use_type_invariant(self);
        }
        if self.values.len() == 0 || n == 0 {
            return Ok(self.duplicate());
        }
        if self.dtype != SeriesType::Int64 {
            return Err(self.numeric_mismatch());
        }
        let k: u64 = if n < 0 {
            (-n) as u64
        } else {
            n as u64
        };
        let ghost cv = self.cells();
        let len = self.values.len();
        let mut out: Vec<Value> = Vec::new();
        let mut i: usize = 0;
        while i < len
            invariant
                i <= len,
                len == self.values@.len(),
                cv == value_views(self.values@),
                k as int == (if n < 0 {
                    -n
                } else {
                    n as int
                }),
                differences_fit(cv, k as int),
                out@.len() == i,
                forall|m: int| 0 <= m < i ==> (#[trigger] out@[m])@ == differences(cv, k as int)[m],
                forall|m: int| 0 <= m < i ==> fits(SeriesType::Int64, #[trigger] out@[m]@),
            decreases len - i,
        {
            let v = if (i as u64) < k {
                Value::Null
            } else {
                let j = i - (k as usize);
                match (&self.values[i], &self.values[j]) {
                    (Value::Int(x), Value::Int(y)) => {
                        assert(cv[i as int] == ValueModel::Int(*x) && cv[j as int] == ValueModel::Int(*y));
                        Value::Int(*x - *y)
                    },
                    _ => Value::Null,
                }
            };
            out.push(v);
            i = i + 1;
        }
        assert(value_views(out@) =~= differences(cv, k as int));
        Ok(Series::assemble(self.suffixed("_diff"), SeriesType::Int64, out))
    }

    /// The running sums (`product` unset) or products of a column of
    /// integers.
    fn running_values(&self, product: bool) -> (r: Vec<Value>)
        requires
            running_fits(self.cells(), product),
        ensures
            value_views(r@) == running(self.cells(), product),
            forall|m: int| 0 <= m < r@.len() ==> fits(SeriesType::Int64, #[trigger] r@[m]@),
    {
        let ghost cv = self.cells();
        let len = self.values.len();
        let mut acc: i64 = if product {
            1
        } else {
            0
        };
        let mut out: Vec<Value> = Vec::new();
        let mut i: usize = 0;
        while i < len
            invariant
                i <= len,
                len == self.values@.len(),
                cv == value_views(self.values@),
                running_fits(cv, product),
                acc as int == if product {
                    int_product(cv.take(i as int))
                } else {
                    int_total(cv.take(i as int))
                },
                out@.len() == i,
                forall|m: int| 0 <= m < i ==> (#[trigger] out@[m])@ == running(cv, product)[m],
                forall|m: int| 0 <= m < i ==> fits(SeriesType::Int64, #[trigger] out@[m]@),
            decreases len - i,
        {
            assert(cv.take(i + 1).drop_last() =~= cv.take(i as int));
            assert(cv.take(i + 1).last() == cv[i as int]);
            let v = match &self.values[i] {
                Value::Int(x) => {
                    assert(cv[i as int] is Int);
                    if product {
                        acc = acc * *x;
                    } else {
                        acc = acc + *x;
                    }
                    Value::Int(acc)
                },
                _ => Value::Null,
            };
            out.push(v);
            i = i + 1;
        }
        assert(value_views(out@) =~= running(cv, product));
        out
    }

    /// The running sums of a column of integers, null where a value is
    /// missing, named with `_cumsum`. An empty column comes back as it is;
    /// a column of other than integers gives `TypeMismatch`.
    pub fn cumsum(&self) -> (r: Result<Self, DataError>)
        requires
            running_fits(self.cells(), false),
        ensures
            if self.cells().len() == 0 {
                r matches Ok(s) && s.name_view() == self.name_view() && s.kind() == self.kind() && s.cells()
                    == self.cells()
            } else if self.kind() != SeriesType::Int64 {
                r matches Err(DataError::TypeMismatch { expected, found }) && expected@ == "numeric type"@ && found@
                    == type_debug(self.kind())
            } else {
                r matches Ok(s) && s.name_view() == self.name_view() + "_cumsum"@ && s.kind() == SeriesType::Int64
                    && s.cells() == running(self.cells(), false)
            },
    {
        if self.values.len() == 0 {
            return Ok(self.duplicate());
        }
        if self.dtype != SeriesType::Int64 {
            return Err(self.numeric_mismatch());
        }
        let out = self.running_values(false);
        Ok(Series::assemble(self.suffixed("_cumsum"), SeriesType::Int64, out))
    }

    /// The running products of a column of integers, null where a value is
    /// missing, named with `_cumprod`. An empty column comes back as it is;
    /// a column of other than integers gives `TypeMismatch`.
    pub fn cumprod(&self) -> (r: Result<Self, DataError>)
        requires
            running_fits(self.cells(), true),
        ensures
            if self.cells().len() == 0 {
                r matches Ok(s) && s.name_view() == self.name_view() && s.kind() == self.kind() && s.cells()
                    == self.cells()
            } else if self.kind() != SeriesType::Int64 {
                r matches Err(DataError::TypeMismatch { expected, found }) && expected@ == "numeric type"@ && found@
                    == type_debug(self.kind())
            } else {
                r matches Ok(s) && s.name_view() == self.name_view() + "_cumprod"@ && s.kind() == SeriesType::Int64
                    && s.cells() == running(self.cells(), true)
            },
    {
        if self.values.len() == 0 {
            return Ok(self.duplicate());
        }
        if self.dtype != SeriesType::Int64 {
            return Err(self.numeric_mismatch());
        }
        let out = self.running_values(true);
        Ok(Series::assemble(self.suffixed("_cumprod"), SeriesType::Int64, out))
    }

    /// The running maxima (`smallest` unset) or minima of a column.
    fn extreme_values(&self, smallest: bool) -> (r: Vec<Value>)
        ensures
            value_views(r@) == running_extremes(self.cells(), smallest),
            forall|m: int| 0 <= m < r@.len() ==> fits(SeriesType::Int64, #[trigger] r@[m]@),
    {
        let ghost cv = self.cells();
        let len = self.values.len();
        let mut acc: Option<i64> = None;
        let mut out: Vec<Value> = Vec::new();
        let mut i: usize = 0;
        while i < len
            invariant
                i <= len,
                len == self.values@.len(),
                cv == value_views(self.values@),
                acc == extreme(cv.take(i as int), smallest),
                out@.len() == i,
                forall|m: int| 0 <= m < i ==> (#[trigger] out@[m])@ == running_extremes(cv, smallest)[m],
                forall|m: int| 0 <= m < i ==> fits(SeriesType::Int64, #[trigger] out@[m]@),
            decreases len - i,
        {
            assert(cv.take(i + 1).drop_last() =~= cv.take(i as int));
            assert(cv.take(i + 1).last() == cv[i as int]);
            if let Value::Int(x) = &self.values[i] {
                acc = Some(
                    match acc {
                        Some(m) => if (smallest && m <= *x) || (!smallest && m >= *x) {
                            m
                        } else {
                            *x
                        },
                        None => *x,
                    },
                );
            }
            let v = match acc {
                Some(m) => Value::Int(m),
                None => Value::Null,
            };
            out.push(v);
            i = i + 1;
        }
        assert(value_views(out@) =~= running_extremes(cv, smallest));
        out
    }

    /// The running maxima of a column of integers, null before the first
    /// present value, named with `_cummax`. An empty column comes back as
    /// it is; a column of other than integers gives `TypeMismatch`.
    pub fn cummax(&self) -> (r: Result<Self, DataError>)
        ensures
            if self.cells().len() == 0 {
                r matches Ok(s) && s.name_view() == self.name_view() && s.kind() == self.kind() && s.cells()
                    == self.cells()
            } else if self.kind() != SeriesType::Int64 {
                r matches Err(DataError::TypeMismatch { expected, found }) && expected@ == "numeric type"@ && found@
                    == type_debug(self.kind())
            } else {
                r matches Ok(s) && s.name_view() == self.name_view() + "_cummax"@ && s.kind() == SeriesType::Int64
                    && s.cells() == running_extremes(self.cells(), false)
            },
    {
        if self.values.len() == 0 {
            return Ok(self.duplicate());
        }
        if self.dtype != SeriesType::Int64 {
            return Err(self.numeric_mismatch());
        }
        let out = self.extreme_values(false);
        Ok(Series::assemble(self.suffixed("_cummax"), SeriesType::Int64, out))
    }

    /// The running minima of a column of integers, null before the first
    /// present value, named with `_cummin`. An empty column comes back as
    /// it is; a column of other than integers gives `TypeMismatch`.
    pub fn cummin(&self) -> (r: Result<Self, DataError>)
        ensures
            if self.cells().len() == 0 {
                r matches Ok(s) && s.name_view() == self.name_view() && s.kind() == self.kind() && s.cells()
                    == self.cells()
            } else if self.kind() != SeriesType::Int64 {
                r matches Err(DataError::TypeMismatch { expected, found }) && expected@ == "numeric type"@ && found@
                    == type_debug(self.kind())
            } else {
                r matches Ok(s) && s.name_view() == self.name_view() + "_cummin"@ && s.kind() == SeriesType::Int64
                    && s.cells() == running_extremes(self.cells(), true)
            },
    {
        if self.values.len() == 0 {
            return Ok(self.duplicate());
        }
        if self.dtype != SeriesType::Int64 {
            return Err(self.numeric_mismatch());
        }
        let out = self.extreme_values(true);
        Ok(Series::assemble(self.suffixed("_cummin"), SeriesType::Int64, out))
    }
}

impl Series {
    /// The present values, in order, under the same name and type.
    pub fn dropna(&self) -> (r: Result<Self, DataError>)
        ensures
            r matches Ok(s) && s.name_view() == self.name_view() && s.kind() == self.kind() && s.cells() == present(
                self.cells(),
            ),
    {
        proof {
            use_type_invariant(self);
        }
        let ghost cv = self.cells();
        let mut out: Vec<Value> = Vec::new();
        let mut i: usize = 0;
        while i < self.values.len()
            invariant
                i <= self.values@.len(),
                cv == value_views(self.values@),
                forall|m: int| 0 <= m < self.values@.len() ==> fits(self.dtype, #[trigger] self.values@[m]@),
                value_views(out@) == present(cv.take(i as int)),
                forall|m: int| 0 <= m < out@.len() ==> fits(self.dtype, #[trigger] out@[m]@),
            decreases self.values.len() - i,
        {
            assert(cv.take(i + 1).drop_last() =~= cv.take(i as int));
            assert(cv.take(i + 1).last() == cv[i as int]);
            if !same_value(&self.values[i], &Value::Null) {
                let ghost before = out@;
                out.push(copy_value(&self.values[i]));
                assert(value_views(out@) =~= value_views(before).push(cv[i as int]));
            }
            i = i + 1;
        }
        assert(cv.take(self.values@.len() as int) =~= cv);
        Ok(Series::assemble(copy_str(self.name.as_str()), self.dtype, out))
    }

    /// The missing values replaced by `fill_value`, under the same name and
    /// type. A column without missing values comes back as it is; a fill
    /// value of another type than the column's gives `TypeMismatch`.
    pub fn fillna(&self, fill_value: &Value) -> (r: Result<Self, DataError>)
        ensures
            if null_total(self.cells()) == 0 {
                r matches Ok(s) && s.name_view() == self.name_view() && s.kind() == self.kind() && s.cells()
                    == self.cells()
            } else if type_of(fill_value@) != Some(self.kind()) {
                r matches Err(DataError::TypeMismatch { expected, found }) && expected@ == expected_name(self.kind())
                    && found@ == kind_name(fill_value@)
            } else {
                r matches Ok(s) && s.name_view() == self.name_view() && s.kind() == self.kind() && s.cells() == filled(
                    self.cells(),
                    fill_value@,
                )
            },
    {
        proof {
            use_type_invariant(self);
        }
        if self.null_count() == 0 {
            return Ok(self.duplicate());
        }
        if type_of_exec(fill_value) != Some(self.dtype) {
            return Err(
                DataError::TypeMismatch { expected: expected_name_exec(self.dtype), found: kind_name_exec(fill_value) },
            );
        }
        let ghost cv = self.cells();
        let mut out: Vec<Value> = Vec::new();
        let mut i: usize = 0;
        while i < self.values.len()
            invariant
                i <= self.values@.len(),
                cv == value_views(self.values@),
                forall|m: int| 0 <= m < self.values@.len() ==> fits(self.dtype, #[trigger] self.values@[m]@),
                fits(self.dtype, fill_value@),
                out@.len() == i,
                forall|m: int| 0 <= m < i ==> (#[trigger] out@[m])@ == filled(cv, fill_value@)[m],
                forall|m: int| 0 <= m < i ==> fits(self.dtype, #[trigger] out@[m]@),
            decreases self.values.len() - i,
        {
            let v = if same_value(&self.values[i], &Value::Null) {
                copy_value(fill_value)
            } else {
                copy_value(&self.values[i])
            };
            out.push(v);
            i = i + 1;
        }
        assert(value_views(out@) =~= filled(cv, fill_value@));
        Ok(Series::assemble(copy_str(self.name.as_str()), self.dtype, out))
    }

    /// Each missing value replaced by the last present value before it;
    /// leading missing values stay missing. Same name and type.
    pub fn fillna_forward(&self) -> (r: Result<Self, DataError>)
        ensures
            r matches Ok(s) && s.name_view() == self.name_view() && s.kind() == self.kind() && s.cells() == Seq::new(
                self.cells().len(),
                |i: int| last_present(self.cells().take(i + 1)),
            ),
    {
        proof {
            use_type_invariant(self);
        }
        let ghost cv = self.cells();
        let ghost expected = Seq::new(cv.len(), |i: int| last_present(cv.take(i + 1)));
        let mut last = Value::Null;
        let mut out: Vec<Value> = Vec::new();
        let mut i: usize = 0;
        while i < self.values.len()
            invariant
                i <= self.values@.len(),
                cv == value_views(self.values@),
                expected == Seq::new(cv.len(), |i: int| last_present(cv.take(i + 1))),
                forall|m: int| 0 <= m < self.values@.len() ==> fits(self.dtype, #[trigger] self.values@[m]@),
                last@ == last_present(cv.take(i as int)),
                fits(self.dtype, last@),
                out@.len() == i,
                forall|m: int| 0 <= m < i ==> (#[trigger] out@[m])@ == expected[m],
                forall|m: int| 0 <= m < i ==> fits(self.dtype, #[trigger] out@[m]@),
            decreases self.values.len() - i,
        {
            assert(cv.take(i + 1).drop_last() =~= cv.take(i as int));
            assert(cv.take(i + 1).last() == cv[i as int]);
            if !same_value(&self.values[i], &Value::Null) {
                last = copy_value(&self.values[i]);
            }
            out.push(copy_value(&last));
            i = i + 1;
        }
        assert(value_views(out@) =~= expected);
        Ok(Series::assemble(copy_str(self.name.as_str()), self.dtype, out))
    }

    /// Each missing value replaced by the first present value after it;
    /// trailing missing values stay missing. Same name and type.
    pub fn fillna_backward(&self) -> (r: Result<Self, DataError>)
        ensures
            r matches Ok(s) && s.name_view() == self.name_view() && s.kind() == self.kind() && s.cells() == Seq::new(
                self.cells().len(),
                |i: int| first_present(self.cells().skip(i)),
            ),
    {
        proof {
            use_type_invariant(self);
        }
        let ghost cv = self.cells();
        let ghost expected = Seq::new(cv.len(), |i: int| first_present(cv.skip(i)));
        let len = self.values.len();
        let mut next = Value::Null;
        let mut out: Vec<Value> = Vec::new();
        let mut k: usize = 0;
        while k < len
            invariant
                k <= len,
                len == self.values@.len(),
                cv == value_views(self.values@),
                expected == Seq::new(cv.len(), |i: int| first_present(cv.skip(i))),
                forall|m: int| 0 <= m < self.values@.len() ==> fits(self.dtype, #[trigger] self.values@[m]@),
                next@ == first_present(cv.skip(len - k)),
                fits(self.dtype, next@),
                out@.len() == k,
                forall|m: int| 0 <= m < k ==> (#[trigger] out@[m])@ == expected[len - 1 - m],
                forall|m: int| 0 <= m < k ==> fits(self.dtype, #[trigger] out@[m]@),
            decreases len - k,
        {
            let i = len - 1 - k;
            assert(cv.skip(i as int).drop_first() =~= cv.skip(i + 1));
            assert(cv.skip(i as int)[0] == cv[i as int]);
            if !same_value(&self.values[i], &Value::Null) {
                next = copy_value(&self.values[i]);
            }
            out.push(copy_value(&next));
            k = k + 1;
        }
        // The values were found from the last to the first.
        let mut rev: Vec<Value> = Vec::new();
        let mut j: usize = 0;
        while j < len
            invariant
                j <= len,
                out@.len() == len,
                len == cv.len(),
                forall|m: int| 0 <= m < len ==> (#[trigger] out@[m])@ == expected[len - 1 - m],
                forall|m: int| 0 <= m < len ==> fits(self.dtype, #[trigger] out@[m]@),
                rev@.len() == j,
                forall|m: int| 0 <= m < j ==> (#[trigger] rev@[m])@ == expected[m],
                forall|m: int| 0 <= m < j ==> fits(self.dtype, #[trigger] rev@[m]@),
            decreases len - j,
        {
            assert(out@[len - 1 - j]@ == expected[j as int]);
            rev.push(copy_value(&out[len - 1 - j]));
            j = j + 1;
        }
        assert(value_views(rev@) =~= expected);
        Ok(Series::assemble(copy_str(self.name.as_str()), self.dtype, rev))
    }
}

// ---------------------------------------------------------------------------
// Strings
// ---------------------------------------------------------------------------

/// A rule applied to each present string of a column, null staying null.
pub open spec fn texts_mapped(vals: Seq<ValueModel>, g: spec_fn(Seq<char>) -> ValueModel) -> Seq<ValueModel> {
    Seq::new(
        vals.len(),
        |i: int|
            match vals[i] {
                ValueModel::Str(t) => g(t),
                _ => ValueModel::Null,
            },
    )
}

/// Whether a string contains `p`.
pub open spec fn contains_rule(p: Seq<char>) -> spec_fn(Seq<char>) -> ValueModel {
    |t: Seq<char>| ValueModel::Bool(contains_seq(t, p))
}

/// Whether a string starts with `p`.
pub open spec fn starts_rule(p: Seq<char>) -> spec_fn(Seq<char>) -> ValueModel {
    |t: Seq<char>| ValueModel::Bool(has_prefix(t, p))
}

/// Whether a string ends with `p`.
pub open spec fn ends_rule(p: Seq<char>) -> spec_fn(Seq<char>) -> ValueModel {
    |t: Seq<char>| ValueModel::Bool(has_suffix(t, p))
}

/// A string in lower case.
pub open spec fn lower_rule() -> spec_fn(Seq<char>) -> ValueModel {
    |t: Seq<char>| ValueModel::Str(lowercase(t))
}

/// A string in upper case.
pub open spec fn upper_rule() -> spec_fn(Seq<char>) -> ValueModel {
    |t: Seq<char>| ValueModel::Str(uppercase(t))
}

/// A string without leading and trailing whitespace.
pub open spec fn trim_rule() -> spec_fn(Seq<char>) -> ValueModel {
    |t: Seq<char>| ValueModel::Str(trim(t))
}

/// A string without leading whitespace.
pub open spec fn trim_start_rule() -> spec_fn(Seq<char>) -> ValueModel {
    |t: Seq<char>| ValueModel::Str(trim_start(t))
}

/// A string without trailing whitespace.
pub open spec fn trim_end_rule() -> spec_fn(Seq<char>) -> ValueModel {
    |t: Seq<char>| ValueModel::Str(trim_end(t))
}

/// A string with every match of `p` replaced by `r`.
pub open spec fn replace_rule(p: Seq<char>, r: Seq<char>) -> spec_fn(Seq<char>) -> ValueModel {
    |t: Seq<char>| ValueModel::Str(replaced(t, p, r))
}

/// `n` copies of `c`.
pub open spec fn repeat_char(c: char, n: nat) -> Seq<char> {
    Seq::new(n, |i: int| c)
}

/// A string padded with `c` to `width` characters: on the left, the right,
/// or both (the extra character on the right); a string that long already,
/// or an unknown side, stays as it is.
pub open spec fn padded(t: Seq<char>, width: nat, side: Seq<char>, c: char) -> Seq<char> {
    if t.len() >= width {
        t
    } else {
        let n = (width - t.len()) as nat;
        if side == "left"@ {
            repeat_char(c, n) + t
        } else if side == "right"@ {
            t + repeat_char(c, n)
        } else if side == "both"@ {
            repeat_char(c, n / 2) + t + repeat_char(c, (n - n / 2) as nat)
        } else {
            t
        }
    }
}

/// Padding each string.
pub open spec fn pad_rule(width: nat, side: Seq<char>, c: char) -> spec_fn(Seq<char>) -> ValueModel {
    |t: Seq<char>| ValueModel::Str(padded(t, width, side, c))
}

/// Where a slice of `len` characters starts: a negative `start` counts
/// from the end, and the position stays within the string.
pub open spec fn slice_start(len: int, start: int) -> int {
    if start < 0 {
        if len + start < 0 {
            0
        } else {
            len + start
        }
    } else if start < len {
        start
    } else {
        len
    }
}

/// Where a slice of `len` characters ends: a negative `end` counts from the
/// end, no `end` is the end, and the position stays within the string.
pub open spec fn slice_end(len: int, end: Option<i64>) -> int {
    match end {
        Some(e) => if e < 0 {
            if len + e < 0 {
                0
            } else {
                len + e
            }
        } else if e < len {
            e as int
        } else {
            len
        },
        None => len,
    }
}

/// The characters of a string from `start` to `end`, empty when they cross.
pub open spec fn sliced(t: Seq<char>, start: i64, end: Option<i64>) -> Seq<char> {
    let a = slice_start(t.len() as int, start as int);
    let b = slice_end(t.len() as int, end);
    if a >= b {
        Seq::empty()
    } else {
        t.subrange(a, b)
    }
}

/// Slicing each string.
pub open spec fn slice_rule(start: i64, end: Option<i64>) -> spec_fn(Seq<char>) -> ValueModel {
    |t: Seq<char>| ValueModel::Str(sliced(t, start, end))
}

/// The message of two columns of different lengths.
pub open spec fn length_mismatch_message(a: nat, b: nat) -> Seq<char> {
    "Series length mismatch: "@ + crate::fmt::dec(a) + " vs "@ + crate::fmt::dec(b)
}

/// `n` copies of `c` appended.
fn push_repeat(out: &mut String, c: char, n: usize)
    ensures
        final(out)@ == old(out)@ + repeat_char(c, n as nat),
{
    let mut i: usize = 0;
    while i < n
        invariant
            i <= n,
            out@ == old(out)@ + repeat_char(c, i as nat),
        decreases n - i,
    {
        push_char(out, c);
        assert(old(out)@ + repeat_char(c, (i + 1) as nat) =~= old(out)@ + repeat_char(c, i as nat) + seq![c]);
        i = i + 1;
    }
}

impl Series {
    /// The error for an operation that needs strings.
    fn string_mismatch(&self) -> (r: DataError)
        ensures
            r matches DataError::TypeMismatch { expected, found } && expected@ == "String"@ && found@ == type_debug(
                self.kind(),
            ),
    {
        DataError::TypeMismatch { expected: copy_str("String"), found: type_debug_exec(self.dtype) }
    }

    /// A column of strings with `f` applied to each present string.
    fn map_text<F: Fn(&str) -> Value>(
        &self,
        f: F,
        Ghost(g): Ghost<spec_fn(Seq<char>) -> ValueModel>,
        suffix: &str,
        out_type: SeriesType,
    ) -> (r: Result<Self, DataError>)
        requires
            forall|t: &str| #[trigger] f.requires((t,)),
            forall|t: &str, v: Value| f.ensures((t,), v) ==> v@ == g(t@),
            forall|t: Seq<char>| fits(out_type, #[trigger] g(t)),
        ensures
            if self.kind() != SeriesType::Utf8 {
                r matches Err(DataError::TypeMismatch { expected, found }) && expected@ == "String"@ && found@
                    == type_debug(self.kind())
            } else {
                r matches Ok(s) && s.name_view() == self.name_view() + suffix@ && s.kind() == out_type && s.cells()
                    == texts_mapped(self.cells(), g)
            },
    {
        if self.dtype != SeriesType::Utf8 {
            return Err(self.string_mismatch());
        }
        let ghost cv = self.cells();
        let mut out: Vec<Value> = Vec::new();
        let mut i: usize = 0;
        while i < self.values.len()
            invariant
                i <= self.values@.len(),
                cv == value_views(self.values@),
                forall|t: &str| #[trigger] f.requires((t,)),
                forall|t: &str, v: Value| f.ensures((t,), v) ==> v@ == g(t@),
                forall|t: Seq<char>| fits(out_type, #[trigger] g(t)),
                out@.len() == i,
                forall|m: int| 0 <= m < i ==> (#[trigger] out@[m])@ == texts_mapped(cv, g)[m],
                forall|m: int| 0 <= m < i ==> fits(out_type, #[trigger] out@[m]@),
            decreases self.values.len() - i,
        {
            let v = match &self.values[i] {
                Value::String(t) => {
                    let x = f(t.as_str());
                    assert(fits(out_type, g(t@)));
                    x
                },
                _ => Value::Null,
            };
            out.push(v);
            i = i + 1;
        }
        assert(value_views(out@) =~= texts_mapped(cv, g));
        Ok(Series::assemble(self.suffixed(suffix), out_type, out))
    }

    /// Whether each string contains `pattern`, as booleans named with
    /// `_contains`; a column of other than strings gives `TypeMismatch`.
    pub fn str_contains(&self, pattern: &str) -> (r: Result<Self, DataError>)
        ensures
            if self.kind() != SeriesType::Utf8 {
                r matches Err(DataError::TypeMismatch { expected, found }) && expected@ == "String"@ && found@
                    == type_debug(self.kind())
            } else {
                r matches Ok(s) && s.name_view() == self.name_view() + "_contains"@ && s.kind() == SeriesType::Boolean
                    && s.cells() == texts_mapped(self.cells(), contains_rule(pattern@))
            },
    {
        self.map_text(
            (|t: &str| -> (v: Value)
                ensures
                    v@ == ValueModel::Bool(contains_seq(t@, pattern@)),
                {
                    let tc = chars_of(t);
                    Value::Bool(contains_str(&tc, pattern))
                }),
            Ghost(contains_rule(pattern@)),
            "_contains",
            SeriesType::Boolean,
        )
    }
}

/// A string padded to `width` characters.
fn pad_text(t: &str, width: usize, side: &str, c: char) -> (r: String)
    ensures
        r@ == padded(t@, width as nat, side@, c),
{
    let tc = chars_of(t);
    if tc.len() >= width {
        return copy_str(t);
    }
    let n = width - tc.len();
    let mut out = String::new();
    if str_eq(side, "left") {
        push_repeat(&mut out, c, n);
        out.append(t);
    } else if str_eq(side, "right") {
        out.append(t);
        push_repeat(&mut out, c, n);
    } else if str_eq(side, "both") {
        push_repeat(&mut out, c, n / 2);
        out.append(t);
        push_repeat(&mut out, c, n - n / 2);
    } else {
        out.append(t);
    }
    assert(out@ =~= padded(t@, width as nat, side@, c));
    out
}

/// The characters of a string from `start` to `end`.
fn slice_text(t: &str, start: i64, end: Option<i64>) -> (r: String)
    ensures
        r@ == sliced(t@, start, end),
{
    let tc = chars_of(t);
    let len = tc.len();
    let a: usize = if start < 0 {
        let x: i128 = len as i128 + start as i128;
        if x < 0 {
            0
        } else {
            x as usize
        }
    } else if (start as u64 as u128) < len as u128 {
        start as usize
    } else {
        len
    };
    let b: usize = match end {
        Some(e) => if e < 0 {
            let x: i128 = len as i128 + e as i128;
            if x < 0 {
                0
            } else {
                x as usize
            }
        } else if (e as u64 as u128) < len as u128 {
            e as usize
        } else {
            len
        },
        None => len,
    };
    if a >= b {
        String::new()
    } else {
        crate::text::substring(&tc, a, b)
    }
}

impl Series {
    /// Whether each string starts with `prefix`, as booleans named with
    /// `_starts_with`; a column of other than strings gives `TypeMismatch`.
    pub fn str_starts_with(&self, prefix: &str) -> (r: Result<Self, DataError>)
        ensures
            if self.kind() != SeriesType::Utf8 {
                r matches Err(DataError::TypeMismatch { expected, found }) && expected@ == "String"@ && found@
                    == type_debug(self.kind())
            } else {
                r matches Ok(s) && s.name_view() == self.name_view() + "_starts_with"@ && s.kind() == SeriesType::Boolean
                    && s.cells() == texts_mapped(self.cells(), starts_rule(prefix@))
            },
    {
        self.map_text(
            (|t: &str| -> (v: Value)
                ensures
                    v@ == ValueModel::Bool(has_prefix(t@, prefix@)),
                {
                    let tc = chars_of(t);
                    Value::Bool(starts_with(&tc, prefix))
                }),
            Ghost(starts_rule(prefix@)),
            "_starts_with",
            SeriesType::Boolean,
        )
    }

    /// Whether each string ends with `suffix`, as booleans named with
    /// `_ends_with`; a column of other than strings gives `TypeMismatch`.
    pub fn str_ends_with(&self, suffix: &str) -> (r: Result<Self, DataError>)
        ensures
            if self.kind() != SeriesType::Utf8 {
                r matches Err(DataError::TypeMismatch { expected, found }) && expected@ == "String"@ && found@
                    == type_debug(self.kind())
            } else {
                r matches Ok(s) && s.name_view() == self.name_view() + "_ends_with"@ && s.kind() == SeriesType::Boolean
                    && s.cells() == texts_mapped(self.cells(), ends_rule(suffix@))
            },
    {
        self.map_text(
            (|t: &str| -> (v: Value)
                ensures
                    v@ == ValueModel::Bool(has_suffix(t@, suffix@)),
                {
                    let tc = chars_of(t);
                    Value::Bool(ends_with(&tc, suffix))
                }),
            Ghost(ends_rule(suffix@)),
            "_ends_with",
            SeriesType::Boolean,
        )
    }

    /// Each string in lower case, named with `_lower`; a column of other
    /// than strings gives `TypeMismatch`.
    pub fn str_to_lowercase(&self) -> (r: Result<Self, DataError>)
        ensures
            if self.kind() != SeriesType::Utf8 {
                r matches Err(DataError::TypeMismatch { expected, found }) && expected@ == "String"@ && found@
                    == type_debug(self.kind())
            } else {
                r matches Ok(s) && s.name_view() == self.name_view() + "_lower"@ && s.kind() == SeriesType::Utf8
                    && s.cells() == texts_mapped(self.cells(), lower_rule())
            },
    {
        self.map_text(
            (|t: &str| -> (v: Value)
                ensures
                    v@ == ValueModel::Str(lowercase(t@)),
                {
                    Value::String(to_lowercase(t))
                }),
            Ghost(lower_rule()),
            "_lower",
            SeriesType::Utf8,
        )
    }

    /// Each string in upper case, named with `_upper`; a column of other
    /// than strings gives `TypeMismatch`.
    pub fn str_to_uppercase(&self) -> (r: Result<Self, DataError>)
        ensures
            if self.kind() != SeriesType::Utf8 {
                r matches Err(DataError::TypeMismatch { expected, found }) && expected@ == "String"@ && found@
                    == type_debug(self.kind())
            } else {
                r matches Ok(s) && s.name_view() == self.name_view() + "_upper"@ && s.kind() == SeriesType::Utf8
                    && s.cells() == texts_mapped(self.cells(), upper_rule())
            },
    {
        self.map_text(
            (|t: &str| -> (v: Value)
                ensures
                    v@ == ValueModel::Str(uppercase(t@)),
                {
                    Value::String(to_uppercase(t))
                }),
            Ghost(upper_rule()),
            "_upper",
            SeriesType::Utf8,
        )
    }

    /// Each string without leading and trailing whitespace, named with
    /// `_trim`; a column of other than strings gives `TypeMismatch`.
    pub fn str_trim(&self) -> (r: Result<Self, DataError>)
        ensures
            if self.kind() != SeriesType::Utf8 {
                r matches Err(DataError::TypeMismatch { expected, found }) && expected@ == "String"@ && found@
                    == type_debug(self.kind())
            } else {
                r matches Ok(s) && s.name_view() == self.name_view() + "_trim"@ && s.kind() == SeriesType::Utf8
                    && s.cells() == texts_mapped(self.cells(), trim_rule())
            },
    {
        self.map_text(
            (|t: &str| -> (v: Value)
                ensures
                    v@ == ValueModel::Str(trim(t@)),
                {
                    let tc = trim_str(t);
                    Value::String(crate::text::string_of(&tc))
                }),
            Ghost(trim_rule()),
            "_trim",
            SeriesType::Utf8,
        )
    }

    /// Each string without leading whitespace, named with `_trim_start`; a
    /// column of other than strings gives `TypeMismatch`.
    pub fn str_trim_start(&self) -> (r: Result<Self, DataError>)
        ensures
            if self.kind() != SeriesType::Utf8 {
                r matches Err(DataError::TypeMismatch { expected, found }) && expected@ == "String"@ && found@
                    == type_debug(self.kind())
            } else {
                r matches Ok(s) && s.name_view() == self.name_view() + "_trim_start"@ && s.kind() == SeriesType::Utf8
                    && s.cells() == texts_mapped(self.cells(), trim_start_rule())
            },
    {
        self.map_text(
            (|t: &str| -> (v: Value)
                ensures
                    v@ == ValueModel::Str(trim_start(t@)),
                {
                    Value::String(trim_start_str(t))
                }),
            Ghost(trim_start_rule()),
            "_trim_start",
            SeriesType::Utf8,
        )
    }

    /// Each string without trailing whitespace, named with `_trim_end`; a
    /// column of other than strings gives `TypeMismatch`.
    pub fn str_trim_end(&self) -> (r: Result<Self, DataError>)
        ensures
            if self.kind() != SeriesType::Utf8 {
                r matches Err(DataError::TypeMismatch { expected, found }) && expected@ == "String"@ && found@
                    == type_debug(self.kind())
            } else {
                r matches Ok(s) && s.name_view() == self.name_view() + "_trim_end"@ && s.kind() == SeriesType::Utf8
                    && s.cells() == texts_mapped(self.cells(), trim_end_rule())
            },
    {
        self.map_text(
            (|t: &str| -> (v: Value)
                ensures
                    v@ == ValueModel::Str(trim_end(t@)),
                {
                    Value::String(trim_end_str(t))
                }),
            Ghost(trim_end_rule()),
            "_trim_end",
            SeriesType::Utf8,
        )
    }

    /// Each string with every match of `pattern` replaced by `replacement`
    /// (see [`replaced`]), named with `_replace`; a column of other than
    /// strings gives `TypeMismatch`.
    pub fn str_replace(&self, pattern: &str, replacement: &str) -> (r: Result<Self, DataError>)
        ensures
            if self.kind() != SeriesType::Utf8 {
                r matches Err(DataError::TypeMismatch { expected, found }) && expected@ == "String"@ && found@
                    == type_debug(self.kind())
            } else {
                r matches Ok(s) && s.name_view() == self.name_view() + "_replace"@ && s.kind() == SeriesType::Utf8
                    && s.cells() == texts_mapped(self.cells(), replace_rule(pattern@, replacement@))
            },
    {
        self.map_text(
            (|t: &str| -> (v: Value)
                ensures
                    v@ == ValueModel::Str(replaced(t@, pattern@, replacement@)),
                {
                    Value::String(replace_str(t, pattern, replacement))
                }),
            Ghost(replace_rule(pattern@, replacement@)),
            "_replace",
            SeriesType::Utf8,
        )
    }

    /// Each string padded with `pad_char` to `width` characters on the
    /// given side (see [`padded`]), named with `_pad`; a column of other
    /// than strings gives `TypeMismatch`.
    pub fn str_pad(&self, width: usize, side: &str, pad_char: char) -> (r: Result<Self, DataError>)
        ensures
            if self.kind() != SeriesType::Utf8 {
                r matches Err(DataError::TypeMismatch { expected, found }) && expected@ == "String"@ && found@
                    == type_debug(self.kind())
            } else {
                r matches Ok(s) && s.name_view() == self.name_view() + "_pad"@ && s.kind() == SeriesType::Utf8
                    && s.cells() == texts_mapped(self.cells(), pad_rule(width as nat, side@, pad_char))
            },
    {
        self.map_text(
            (|t: &str| -> (v: Value)
                ensures
                    v@ == ValueModel::Str(padded(t@, width as nat, side@, pad_char)),
                {
                    Value::String(pad_text(t, width, side, pad_char))
                }),
            Ghost(pad_rule(width as nat, side@, pad_char)),
            "_pad",
            SeriesType::Utf8,
        )
    }

    /// The characters of each string from `start` to `end` (see
    /// [`sliced`]), named with `_slice`; a column of other than strings
    /// gives `TypeMismatch`.
    pub fn str_slice(&self, start: i64, end: Option<i64>) -> (r: Result<Self, DataError>)
        ensures
            if self.kind() != SeriesType::Utf8 {
                r matches Err(DataError::TypeMismatch { expected, found }) && expected@ == "String"@ && found@
                    == type_debug(self.kind())
            } else {
                r matches Ok(s) && s.name_view() == self.name_view() + "_slice"@ && s.kind() == SeriesType::Utf8
                    && s.cells() == texts_mapped(self.cells(), slice_rule(start, end))
            },
    {
        self.map_text(
            (|t: &str| -> (v: Value)
                ensures
                    v@ == ValueModel::Str(sliced(t@, start, end)),
                {
                    Value::String(slice_text(t, start, end))
                }),
            Ghost(slice_rule(start, end)),
            "_slice",
            SeriesType::Utf8,
        )
    }

    /// Each string of this column, `sep` and the string of `other` in the
    /// same row, named with `_cat`; null where either is missing. Both
    /// columns must hold strings (`TypeMismatch`, this one first) and be as
    /// long (`SchemaMismatch`).
    pub fn str_cat(&self, other: &Series, sep: &str) -> (r: Result<Self, DataError>)
        ensures
            if self.kind() != SeriesType::Utf8 {
                r matches Err(DataError::TypeMismatch { expected, found }) && expected@ == "String"@ && found@
                    == type_debug(self.kind())
            } else if other.kind() != SeriesType::Utf8 {
                r matches Err(DataError::TypeMismatch { expected, found }) && expected@ == "String"@ && found@
                    == type_debug(other.kind())
            } else if self.cells().len() != other.cells().len() {
                r matches Err(DataError::SchemaMismatch(m)) && m@ == length_mismatch_message(
                    self.cells().len(),
                    other.cells().len(),
                )
            } else {
                r matches Ok(s) && s.name_view() == self.name_view() + "_cat"@ && s.kind() == SeriesType::Utf8
                    && s.cells() == Seq::new(
                    self.cells().len(),
                    |i: int|
                        match (self.cells()[i], other.cells()[i]) {
                            (ValueModel::Str(a), ValueModel::Str(b)) => ValueModel::Str(a + sep@ + b),
                            _ => ValueModel::Null,
                        },
                )
            },
    {
        if self.dtype != SeriesType::Utf8 {
            return Err(self.string_mismatch());
        }
        if other.dtype != SeriesType::Utf8 {
            return Err(other.string_mismatch());
        }
        if self.values.len() != other.values.len() {
            let mut m = copy_str("Series length mismatch: ");
            crate::fmt::push_dec(&mut m, self.values.len() as u128);
            m.append(" vs ");
            crate::fmt::push_dec(&mut m, other.values.len() as u128);
            assert(m@ =~= length_mismatch_message(self.cells().len(), other.cells().len()));
            return Err(DataError::SchemaMismatch(m));
        }
        let ghost (a, b) = (self.cells(), other.cells());
        let ghost expected = Seq::new(
            a.len(),
            |i: int|
                match (a[i], b[i]) {
                    (ValueModel::Str(x), ValueModel::Str(y)) => ValueModel::Str(x + sep@ + y),
                    _ => ValueModel::Null,
                },
        );
        let mut out: Vec<Value> = Vec::new();
        let mut i: usize = 0;
        while i < self.values.len()
            invariant
                i <= self.values@.len(),
                self.values@.len() == other.values@.len(),
                a == value_views(self.values@),
                b == value_views(other.values@),
                expected == Seq::new(
                    a.len(),
                    |i: int|
                        match (a[i], b[i]) {
                            (ValueModel::Str(x), ValueModel::Str(y)) => ValueModel::Str(x + sep@ + y),
                            _ => ValueModel::Null,
                        },
                ),
                out@.len() == i,
                forall|m: int| 0 <= m < i ==> (#[trigger] out@[m])@ == expected[m],
                forall|m: int| 0 <= m < i ==> fits(SeriesType::Utf8, #[trigger] out@[m]@),
            decreases self.values.len() - i,
        {
            let v = match (&self.values[i], &other.values[i]) {
                (Value::String(x), Value::String(y)) => {
                    let mut t = copy_str(x.as_str());
                    t.append(sep);
                    t.append(y.as_str());
                    Value::String(t)
                },
                _ => Value::Null,
            };
            out.push(v);
            i = i + 1;
        }
        assert(value_views(out@) =~= expected);
        Ok(Series::assemble(self.suffixed("_cat"), SeriesType::Utf8, out))
    }
}

/// The number of characters of a string.
pub open spec fn length_rule() -> spec_fn(Seq<char>) -> ValueModel {
    |t: Seq<char>| ValueModel::Int(t.len() as i64)
}

/// Position of the first occurrence of `d` in `s` at or after `from`, or -1.
pub open spec fn occurrence_from(s: Seq<char>, d: Seq<char>, from: int) -> int
    decreases s.len() - from,
{
    if from < 0 || from >= s.len() {
        -1
    } else if occurs_at(s, d, from) {
        from
    } else {
        occurrence_from(s, d, from + 1)
    }
}

/// The pieces of `s` between the matches of `d`, found from the left; an
/// empty `d` separates every character, and the start and the end
/// (`str::split`).
pub open spec fn split_pieces(s: Seq<char>, d: Seq<char>) -> Seq<Seq<char>>
    decreases s.len(),
{
    if d.len() == 0 {
        seq![Seq::<char>::empty()] + Seq::new(s.len(), |i: int| seq![s[i]]) + seq![Seq::<char>::empty()]
    } else {
        let k = occurrence_from(s, d, 0);
        if k < 0 || k + d.len() > s.len() {
            seq![s]
        } else {
            seq![s.take(k)] + split_pieces(s.skip(k + d.len()), d)
        }
    }
}

/// The first occurrence at or after `x` is `y` when none lies between and
/// one is at `y`; there is none when none lies from `x` on.
proof fn lemma_occurrence_first(s: Seq<char>, d: Seq<char>, x: int, y: int)
    requires
        0 <= x <= y <= s.len(),
        forall|j: int| x <= j < y ==> !occurs_at(s, d, j),
        y == s.len() || occurs_at(s, d, y),
    ensures
        occurrence_from(s, d, x) == if y == s.len() {
            -1
        } else {
            y
        },
    decreases y - x,
{
    if x < y {
        lemma_occurrence_first(s, d, x + 1, y);
    }
}

/// The piece at `index` of each string split by `d`, null where there is
/// no such piece.
pub open spec fn split_rule(d: Seq<char>, index: nat) -> spec_fn(Seq<char>) -> ValueModel {
    |t: Seq<char>|
        if index < split_pieces(t, d).len() {
            ValueModel::Str(split_pieces(t, d)[index as int])
        } else {
            ValueModel::Null
        }
}

/// The first occurrence of `d` in `v` from `from` on.
fn find_from(v: &Vec<char>, d: &Vec<char>, from: usize) -> (r: Option<usize>)
    requires
        from <= v@.len(),
        d@.len() > 0,
    ensures
        ({
            let k = occurrence_from(v@.skip(from as int), d@, 0);
            match r {
                Some(p) => k >= 0 && p == from + k && p + d@.len() <= v@.len(),
                None => k < 0,
            }
        }),
{
    let ghost rest = v@.skip(from as int);
    let mut at: usize = from;
    while at < v.len()
        invariant
            from <= at <= v@.len(),
            d@.len() > 0,
            rest == v@.skip(from as int),
            forall|j: int| 0 <= j < at - from ==> !occurs_at(rest, d@, j),
        decreases v.len() - at,
    {
        let m = crate::text::matches_at(v, d, at);
        assert(occurs_at(rest, d@, at - from) == occurs_at(v@, d@, at as int)) by {
            if at + d@.len() <= v@.len() {
                assert(rest.subrange(at - from, at - from + d@.len()) =~= v@.subrange(at as int, at + d@.len()));
            }
        }
        if m {
            proof {
                lemma_occurrence_first(rest, d@, 0, at - from);
            }
            return Some(at);
        }
        at = at + 1;
    }
    proof {
        lemma_occurrence_first(rest, d@, 0, rest.len() as int);
    }
    None
}

/// The piece at `index` of `t` split by `d`.
fn split_piece(t: &str, d: &str, index: usize) -> (r: Value)
    ensures
        r@ == (split_rule(d@, index as nat))(t@),
{
    let v = chars_of(t);
    let dc = chars_of(d);
    if dc.len() == 0 {
        let ghost pieces = split_pieces(t@, d@);
        assert(pieces.len() == v@.len() + 2);
        if index == 0 {
            assert(pieces[0] =~= Seq::<char>::empty());
            return Value::String(String::new());
        } else if index - 1 == v.len() {
            assert(pieces[index as int] =~= Seq::<char>::empty());
            return Value::String(String::new());
        } else if index <= v.len() {
            let mut out = String::new();
            push_char(&mut out, v[index - 1]);
            assert(pieces[index as int] =~= seq![v@[index - 1]]);
            assert(out@ =~= seq![v@[index - 1]]);
            return Value::String(out);
        } else {
            return Value::Null;
        }
    }
    let mut start: usize = 0;
    let mut k: usize = 0;
    let dl = dc.len();
    let vl = v.len();
    assert(v@.skip(0) =~= v@);
    while k < index
        invariant
            dl == dc@.len(),
            vl == v@.len(),
            v@ == t@,
            dc@ == d@,
            dc@.len() > 0,
            start <= v@.len(),
            k <= index,
            split_pieces(t@, d@).len() > k,
            split_pieces(v@.skip(start as int), d@) =~= split_pieces(t@, d@).skip(k as int),
        decreases index - k,
    {
        let ghost rest = v@.skip(start as int);
        match find_from(&v, &dc, start) {
            None => {
                assert(split_pieces(rest, d@) =~= seq![rest]);
                assert(split_pieces(t@, d@).len() == k + 1);
                return Value::Null;
            },
            Some(p) => {
                assert(p + dl <= vl);
                let ghost q = p - start;
                assert(rest.skip(q + d@.len()) =~= v@.skip(p + dc@.len()));
                assert(split_pieces(rest, d@) == seq![rest.take(q)] + split_pieces(rest.skip(q + d@.len()), d@));
                assert(split_pieces(t@, d@).skip(k + 1) =~= split_pieces(t@, d@).skip(k as int).drop_first());
                start = p + dl;
                k = k + 1;
            },
        }
    }
    let ghost rest = v@.skip(start as int);
    match find_from(&v, &dc, start) {
        None => {
            assert(split_pieces(rest, d@) =~= seq![rest]);
            assert(split_pieces(t@, d@)[index as int] == split_pieces(t@, d@).skip(k as int)[0]);
            assert(rest =~= v@.subrange(start as int, v@.len() as int));
            Value::String(crate::text::substring(&v, start, v.len()))
        },
        Some(p) => {
            let ghost q = p - start;
            assert(split_pieces(rest, d@) == seq![rest.take(q)] + split_pieces(rest.skip(q + d@.len()), d@));
            assert(split_pieces(t@, d@)[index as int] == split_pieces(t@, d@).skip(k as int)[0]);
            assert(rest.take(q) =~= v@.subrange(start as int, p as int));
            Value::String(crate::text::substring(&v, start, p))
        },
    }
}

impl Series {
    /// The number of characters of each string, as integers named with
    /// `_len`; a column of other than strings gives `TypeMismatch`.
    pub fn str_len(&self) -> (r: Result<Self, DataError>)
        ensures
            if self.kind() != SeriesType::Utf8 {
                r matches Err(DataError::TypeMismatch { expected, found }) && expected@ == "String"@ && found@
                    == type_debug(self.kind())
            } else {
                r matches Ok(s) && s.name_view() == self.name_view() + "_len"@ && s.kind() == SeriesType::Int64
                    && s.cells() == texts_mapped(self.cells(), length_rule())
            },
    {
        self.map_text(
            (|t: &str| -> (v: Value)
                ensures
                    v@ == ValueModel::Int(t@.len() as i64),
                {
                    let tc = chars_of(t);
                    Value::Int(tc.len() as i64)
                }),
            Ghost(length_rule()),
            "_len",
            SeriesType::Int64,
        )
    }

    /// The piece at `index` of each string split by `delimiter` (see
    /// [`split_pieces`]), null where there is none, named with `_split`; a
    /// column of other than strings gives `TypeMismatch`.
    pub fn str_split_get(&self, delimiter: &str, index: usize) -> (r: Result<Self, DataError>)
        ensures
            if self.kind() != SeriesType::Utf8 {
                r matches Err(DataError::TypeMismatch { expected, found }) && expected@ == "String"@ && found@
                    == type_debug(self.kind())
            } else {
                r matches Ok(s) && s.name_view() == self.name_view() + "_split"@ && s.kind() == SeriesType::Utf8
                    && s.cells() == texts_mapped(self.cells(), split_rule(delimiter@, index as nat))
            },
    {
        self.map_text(
            (|t: &str| -> (v: Value)
                ensures
                    v@ == (if (index as nat) < split_pieces(t@, delimiter@).len() {
                        ValueModel::Str(split_pieces(t@, delimiter@)[index as int])
                    } else {
                        ValueModel::Null
                    }),
                { split_piece(t, delimiter, index) }),
            Ghost(split_rule(delimiter@, index as nat)),
            "_split",
            SeriesType::Utf8,
        )
    }
}

impl Series {
    /// The sum of the present integers, zero when there are none; a column
    /// of other than integers gives `TypeMismatch`.
    pub fn sum(&self) -> (r: Result<Value, DataError>)
        requires
            i64::MIN <= int_total(self.cells()) <= i64::MAX,
        ensures
            if self.kind() != SeriesType::Int64 {
                r matches Err(DataError::TypeMismatch { expected, found }) && expected@ == "numeric type"@ && found@
                    == type_debug(self.kind())
            } else {
                r matches Ok(v) && v@ == ValueModel::Int(int_total(self.cells()) as i64)
            },
    {
        if self.dtype != SeriesType::Int64 {
            return Err(self.numeric_mismatch());
        }
        let ghost cv = self.cells();
        let mut acc: i128 = 0;
        let mut i: usize = 0;
        while i < self.values.len()
            invariant
                i <= self.values@.len(),
                cv == value_views(self.values@),
                acc as int == int_total(cv.take(i as int)),
                -0x8000_0000_0000_0000 * i <= acc <= 0x7fff_ffff_ffff_ffff * i,
            decreases self.values.len() - i,
        {
            assert(cv.take(i + 1).drop_last() =~= cv.take(i as int));
            assert(cv.take(i + 1).last() == cv[i as int]);
            if let Value::Int(x) = &self.values[i] {
                acc = acc + *x as i128;
            }
            i = i + 1;
        }
        assert(cv.take(self.values@.len() as int) =~= cv);
        Ok(Value::Int(acc as i64))
    }

    /// The smallest present integer (`smallest`) or the largest.
    fn extreme_of(&self, smallest: bool) -> (r: Value)
        ensures
            r@ == match extreme(self.cells(), smallest) {
                Some(m) => ValueModel::Int(m),
                None => ValueModel::Null,
            },
    {
        let ghost cv = self.cells();
        let mut acc: Option<i64> = None;
        let mut i: usize = 0;
        while i < self.values.len()
            invariant
                i <= self.values@.len(),
                cv == value_views(self.values@),
                acc == extreme(cv.take(i as int), smallest),
            decreases self.values.len() - i,
        {
            assert(cv.take(i + 1).drop_last() =~= cv.take(i as int));
            assert(cv.take(i + 1).last() == cv[i as int]);
            if let Value::Int(x) = &self.values[i] {
                acc = Some(
                    match acc {
                        Some(m) => if (smallest && m <= *x) || (!smallest && m >= *x) {
                            m
                        } else {
                            *x
                        },
                        None => *x,
                    },
                );
            }
            i = i + 1;
        }
        assert(cv.take(self.values@.len() as int) =~= cv);
        match acc {
            Some(m) => Value::Int(m),
            None => Value::Null,
        }
    }

    /// The smallest present integer, null when there is none; an empty
    /// column gives null, a column of other than integers `TypeMismatch`.
    pub fn min(&self) -> (r: Result<Value, DataError>)
        ensures
            if self.cells().len() == 0 {
                r matches Ok(v) && v@ == ValueModel::Null
            } else if self.kind() != SeriesType::Int64 {
                r matches Err(DataError::TypeMismatch { expected, found }) && expected@ == "numeric type"@ && found@
                    == type_debug(self.kind())
            } else {
                r matches Ok(v) && v@ == match extreme(self.cells(), true) {
                    Some(m) => ValueModel::Int(m),
                    None => ValueModel::Null,
                }
            },
    {
        if self.values.len() == 0 {
            return Ok(Value::Null);
        }
        if self.dtype != SeriesType::Int64 {
            return Err(self.numeric_mismatch());
        }
        Ok(self.extreme_of(true))
    }

    /// The largest present integer, null when there is none; an empty
    /// column gives null, a column of other than integers `TypeMismatch`.
    pub fn max(&self) -> (r: Result<Value, DataError>)
        ensures
            if self.cells().len() == 0 {
                r matches Ok(v) && v@ == ValueModel::Null
            } else if self.kind() != SeriesType::Int64 {
                r matches Err(DataError::TypeMismatch { expected, found }) && expected@ == "numeric type"@ && found@
                    == type_debug(self.kind())
            } else {
                r matches Ok(v) && v@ == match extreme(self.cells(), false) {
                    Some(m) => ValueModel::Int(m),
                    None => ValueModel::Null,
                }
            },
    {
        if self.values.len() == 0 {
            return Ok(Value::Null);
        }
        if self.dtype != SeriesType::Int64 {
            return Err(self.numeric_mismatch());
        }
        Ok(self.extreme_of(false))
    }
}

impl Series {
    /// The column's values.
    pub(crate) fn values_ref(&self) -> (r: &Vec<Value>)
        ensures
            value_views(r@) == self.cells(),
            r@.len() == self.cells().len(),
            forall|i: int| 0 <= i < r@.len() ==> fits(self.kind(), #[trigger] r@[i]@),
    {
        proof {
            use_type_invariant(self);
        }
        &self.values
    }

    /// A copy of the column's name.
    pub(crate) fn name_string(&self) -> (r: String)
        ensures
            r@ == self.name_view(),
    {
        copy_str(self.name.as_str())
    }
}

/// Values that all fit one type build a column without a type error, of
/// that type unless none is present.
pub proof fn lemma_fitting_values(t: SeriesType, vals: Seq<ValueModel>)
    requires
        forall|i: int| 0 <= i < vals.len() ==> fits(t, #[trigger] vals[i]),
    ensures
        first_misfit(inferred_type(vals), vals) < 0,
        first_type(vals) is Some ==> inferred_type(vals) == t,
{
    lemma_first_type_is(t, vals);
    if first_type(vals) is None {
        lemma_no_type_all_null(vals);
    }
    lemma_all_fit(inferred_type(vals), vals);
}

/// The type of the first present value among values that fit a type is
/// that type.
proof fn lemma_first_type_is(t: SeriesType, vals: Seq<ValueModel>)
    requires
        forall|i: int| 0 <= i < vals.len() ==> fits(t, #[trigger] vals[i]),
    ensures
        first_type(vals) is Some ==> first_type(vals) == Some(t),
    decreases vals.len(),
{
    if vals.len() > 0 {
        let d = vals.drop_last();
        assert forall|i: int| 0 <= i < d.len() implies fits(t, #[trigger] d[i]) by {
            assert(d[i] == vals[i]);
        }
        lemma_first_type_is(t, d);
        assert(fits(t, vals[vals.len() - 1]));
    }
}

/// Without a present value, every value is missing.
proof fn lemma_no_type_all_null(vals: Seq<ValueModel>)
    requires
        first_type(vals) is None,
    ensures
        forall|i: int| 0 <= i < vals.len() ==> #[trigger] vals[i] == ValueModel::Null,
    decreases vals.len(),
{
    if vals.len() > 0 {
        lemma_no_type_all_null(vals.drop_last());
        assert forall|i: int| 0 <= i < vals.len() implies #[trigger] vals[i] == ValueModel::Null by {
            if i < vals.len() - 1 {
                assert(vals[i] == vals.drop_last()[i]);
            }
        }
    }
}

/// Values that all fit a type have no misfit for it.
proof fn lemma_all_fit(t: SeriesType, vals: Seq<ValueModel>)
    requires
        forall|i: int| 0 <= i < vals.len() ==> fits(t, #[trigger] vals[i]),
    ensures
        first_misfit(t, vals) < 0,
    decreases vals.len(),
{
    if vals.len() > 0 {
        let d = vals.drop_last();
        assert forall|i: int| 0 <= i < d.len() implies fits(t, #[trigger] d[i]) by {
            assert(d[i] == vals[i]);
        }
        lemma_all_fit(t, d);
        assert(fits(t, vals[vals.len() - 1]));
    }
}

/// The values at the given positions, in their order.
pub open spec fn pick(vals: Seq<ValueModel>, idx: Seq<usize>) -> Seq<ValueModel> {
    Seq::new(idx.len(), |p: int| vals[idx[p] as int])
}

impl Series {
    /// The values from `from` to `to`, under the same name and type.
    pub(crate) fn slice_rows(&self, from: usize, to: usize) -> (r: Self)
        requires
            from <= to <= self.cells().len(),
        ensures
            r.name_view() == self.name_view(),
            r.kind() == self.kind(),
            r.cells() == self.cells().subrange(from as int, to as int),
    {
        proof {
            use_type_invariant(self);
        }
        let mut out: Vec<Value> = Vec::new();
        let mut i: usize = from;
        while i < to
            invariant
                from <= i <= to <= self.values@.len(),
                out@.len() == i - from,
                forall|m: int| 0 <= m < out@.len() ==> (#[trigger] out@[m])@ == self.values@[from + m]@,
                forall|m: int| 0 <= m < self.values@.len() ==> fits(self.dtype, #[trigger] self.values@[m]@),
            decreases to - i,
        {
            out.push(copy_value(&self.values[i]));
            i = i + 1;
        }
        assert forall|m: int| 0 <= m < out@.len() implies fits(self.dtype, #[trigger] out@[m]@) by {
            assert(out@[m]@ == self.values@[from + m]@);
        }
        assert(value_views(out@) =~= self.cells().subrange(from as int, to as int));
        Series::assemble(self.name_string(), self.dtype, out)
    }

    /// The values at the given positions, rebuilt as a column of the same
    /// name whose type is inferred from them.
    pub(crate) fn pick_rows(&self, idx: &[usize]) -> (r: Self)
        requires
            forall|p: int| 0 <= p < idx@.len() ==> (#[trigger] idx@[p] as int) < self.cells().len(),
        ensures
            r.name_view() == self.name_view(),
            r.kind() == inferred_type(pick(self.cells(), idx@)),
            r.cells() == pick(self.cells(), idx@),
    {
        proof {
            use_type_invariant(self);
        }
        let ghost cv = self.cells();
        let mut out: Vec<Value> = Vec::new();
        let mut p: usize = 0;
        while p < idx.len()
            invariant
                p <= idx@.len(),
                cv == value_views(self.values@),
                forall|q: int| 0 <= q < idx@.len() ==> (#[trigger] idx@[q] as int) < self.values@.len(),
                out@.len() == p,
                forall|m: int| 0 <= m < p ==> (#[trigger] out@[m])@ == cv[idx@[m] as int],
            decreases idx.len() - p,
        {
            out.push(copy_value(&self.values[idx[p]]));
            p = p + 1;
        }
        let ghost picked = pick(cv, idx@);
        assert(value_views(out@) =~= picked);
        proof {
            assert forall|m: int| 0 <= m < picked.len() implies fits(self.dtype, #[trigger] picked[m]) by {
                assert(picked[m] == self.values@[idx@[m] as int]@);
            }
            lemma_fitting_values(self.dtype, picked);
        }
        match Series::from_values(self.name.as_str(), out.as_slice()) {
            Ok(s) => s,
            Err(_) => vstd::pervasive::unreached(),
        }
    }

    /// The values at the given positions, under the same name and type.
    pub(crate) fn reorder(&self, idx: &[usize]) -> (r: Self)
        requires
            forall|p: int| 0 <= p < idx@.len() ==> (#[trigger] idx@[p] as int) < self.cells().len(),
        ensures
            r.name_view() == self.name_view(),
            r.kind() == self.kind(),
            r.cells() == pick(self.cells(), idx@),
    {
        proof {
            use_type_invariant(self);
        }
        let ghost cv = self.cells();
        let mut out: Vec<Value> = Vec::new();
        let mut p: usize = 0;
        while p < idx.len()
            invariant
                p <= idx@.len(),
                cv == value_views(self.values@),
                forall|q: int| 0 <= q < idx@.len() ==> (#[trigger] idx@[q] as int) < self.values@.len(),
                forall|m: int| 0 <= m < self.values@.len() ==> fits(self.dtype, #[trigger] self.values@[m]@),
                out@.len() == p,
                forall|m: int| 0 <= m < p ==> (#[trigger] out@[m])@ == cv[idx@[m] as int],
                forall|m: int| 0 <= m < p ==> fits(self.dtype, #[trigger] out@[m]@),
            decreases idx.len() - p,
        {
            out.push(copy_value(&self.values[idx[p]]));
            p = p + 1;
        }
        assert(value_views(out@) =~= pick(cv, idx@));
        Series::assemble(copy_str(self.name.as_str()), self.dtype, out)
    }
}

} // verus!
