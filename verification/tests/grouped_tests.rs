use stratum_core::data::dataframe::DataFrame;
use stratum_core::data::error::DataError;
use stratum_core::data::grouped::AggSpec;
use stratum_core::data::grouped_frame::GroupedDataFrame;
use stratum_core::data::series::Series;
use stratum_core::data::value::Value;

fn sample_sales_data() -> DataFrame {
    let regions = Series::from_strings("region", vec!["North", "South", "North", "South", "North"]);
    let amounts = Series::from_ints("amount", vec![100, 200, 150, 250, 175]);
    let quantities = Series::from_ints("quantity", vec![10, 20, 15, 25, 18]);
    DataFrame::from_series(vec![regions, amounts, quantities]).unwrap()
}

fn region_of(v: &Value) -> &str {
    match v {
        Value::String(r) => r.as_str(),
        _ => panic!("unexpected region: {:?}", v),
    }
}

#[test]
fn test_group_by_creation() {
    let df = sample_sales_data();
    let grouped = GroupedDataFrame::new(df, vec!["region".to_string()]).unwrap();

    assert_eq!(grouped.num_groups(), 2); // North and South
    assert_eq!(grouped.group_columns(), &["region"]);
}

#[test]
fn test_group_by_sum() {
    let df = sample_sales_data();
    let grouped = GroupedDataFrame::new(df, vec!["region".to_string()]).unwrap();

    let result = grouped.sum("amount", Some("total")).unwrap();

    assert_eq!(result.num_rows(), 2);
    assert_eq!(result.num_columns(), 2); // region + total

    let region_col = result.column("region").unwrap();
    let total_col = result.column("total").unwrap();

    for i in 0..result.num_rows() {
        let region = region_col.get(i).unwrap();
        let total = total_col.get(i).unwrap();
        match region_of(&region) {
            "North" => assert_eq!(total, Value::Int(425)), // 100 + 150 + 175
            "South" => assert_eq!(total, Value::Int(450)), // 200 + 250
            other => panic!("unexpected region: {:?}", other),
        }
    }
}

#[test]
fn test_group_by_count() {
    let df = sample_sales_data();
    let grouped = GroupedDataFrame::new(df, vec!["region".to_string()]).unwrap();

    let result = grouped.count(Some("n")).unwrap();

    assert_eq!(result.num_rows(), 2);

    let region_col = result.column("region").unwrap();
    let count_col = result.column("n").unwrap();

    for i in 0..result.num_rows() {
        let region = region_col.get(i).unwrap();
        let count = count_col.get(i).unwrap();
        match region_of(&region) {
            "North" => assert_eq!(count, Value::Int(3)),
            "South" => assert_eq!(count, Value::Int(2)),
            other => panic!("unexpected region: {:?}", other),
        }
    }
}

#[test]
fn grouped_keys_come_out_ascending() {
    let grouped = GroupedDataFrame::new(sample_sales_data(), vec!["region".to_string()]).unwrap();
    let result = grouped.max("quantity", None).unwrap();
    let regions = result.column("region").unwrap();
    assert_eq!(regions.get(0).unwrap(), Value::String("North".to_string()));
    assert_eq!(regions.get(1).unwrap(), Value::String("South".to_string()));
    let q = result.column("quantity").unwrap();
    assert_eq!(q.get(0).unwrap(), Value::Int(18));
    assert_eq!(q.get(1).unwrap(), Value::Int(25));
}

#[test]
fn grouped_min_first_last_distinct() {
    let grouped = GroupedDataFrame::new(sample_sales_data(), vec!["region".to_string()]).unwrap();
    let mins = grouped.min("amount", Some("low")).unwrap();
    assert_eq!(mins.column("low").unwrap().get(0).unwrap(), Value::Int(100));
    assert_eq!(mins.column("low").unwrap().get(1).unwrap(), Value::Int(200));
    let firsts = grouped.first("quantity", None).unwrap();
    assert_eq!(firsts.column("quantity").unwrap().get(0).unwrap(), Value::Int(10));
    let lasts = grouped.last("quantity", None).unwrap();
    assert_eq!(lasts.column("quantity").unwrap().get(0).unwrap(), Value::Int(18));
    assert_eq!(lasts.column("quantity").unwrap().get(1).unwrap(), Value::Int(25));
    let distinct = grouped.count_distinct("region", Some("d")).unwrap();
    assert_eq!(distinct.column("d").unwrap().get(0).unwrap(), Value::Int(1));
}

#[test]
fn grouped_count_default_name_and_multiple_specs() {
    let grouped = GroupedDataFrame::new(sample_sales_data(), vec!["region".to_string()]).unwrap();
    let counted = grouped.count(None).unwrap();
    assert!(counted.column("count").is_ok());
    let specs = vec![AggSpec::sum("amount", "total"), AggSpec::count("n")];
    let result = grouped.aggregate(&specs).unwrap();
    assert_eq!(result.num_columns(), 3);
    assert_eq!(result.column("total").unwrap().get(1).unwrap(), Value::Int(450));
    assert_eq!(result.column("n").unwrap().get(1).unwrap(), Value::Int(2));
}

#[test]
fn grouped_errors() {
    match GroupedDataFrame::new(sample_sales_data(), vec!["nope".to_string()]) {
        Err(DataError::ColumnNotFound(c)) => assert_eq!(c, "nope"),
        _ => panic!("expected a missing column"),
    }
    let grouped = GroupedDataFrame::new(sample_sales_data(), vec!["region".to_string()]).unwrap();
    match grouped.sum("missing", None) {
        Err(DataError::ColumnNotFound(c)) => assert_eq!(c, "missing"),
        _ => panic!("expected a missing column"),
    }
    assert!(matches!(grouped.sum("region", None), Err(DataError::InvalidOperation(_))));
}
