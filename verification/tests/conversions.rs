//! Which columns are read as which types, and what is reported of the others.

use schema_adapter::adapter::{SparkPhysicalExprAdapter, SparkPhysicalExprAdapterFactory};
use schema_adapter::casts::{decide_cast, CastVerdict};
use schema_adapter::errors::{
    bracketed, parquet_primitive_name, parquet_schema_convert_err, reject_on_non_empty,
    spark_catalog_name, SparkError,
};
use schema_adapter::expr::{casts_within, Column, Expr, RewriteError};
use schema_adapter::options::{EvalMode, SparkParquetOptions};
use schema_adapter::schema::{
    fields_equal, types_equal, DataType, Field, IntervalUnit, Schema, TimeUnit, UnionMode,
};
use schema_adapter::string_map::StringMap;
use std::sync::Arc;

fn options() -> SparkParquetOptions {
    SparkParquetOptions {
        eval_mode: EvalMode::Legacy,
        timezone: "UTC".to_string(),
        allow_incompat: false,
        allow_cast_unsigned_ints: true,
        case_sensitive: false,
        use_field_id: false,
        ignore_missing_field_id: false,
        jvm_case_tables: None,
        allow_type_promotion: true,
        allow_timestamp_ltz_to_ntz: true,
    }
}

fn utc(unit: TimeUnit) -> DataType {
    DataType::Timestamp(unit, Some("UTC".to_string()))
}

fn message(e: &SparkError) -> String {
    match e {
        SparkError::ParquetSchemaConvert { file_path, column, physical_type, spark_type } => {
            assert_eq!(file_path, "");
            format!("Column: [{column}], Expected: {spark_type}, Found: {physical_type}")
        }
        other => panic!("{other:?}"),
    }
}

fn adapter(
    file_field: Field,
    read_type: DataType,
    options: SparkParquetOptions,
) -> SparkPhysicalExprAdapter {
    let logical = Schema::new(vec![Field::new(&file_field.name, read_type, false)]);
    let physical = Schema::new(vec![file_field]);
    SparkPhysicalExprAdapterFactory::new(options, None)
        .create(Arc::new(logical), Arc::new(physical))
        .unwrap()
}

/// Adapts the only column of a file to the requested type, with a plain cast in between.
fn adapted(adapter: &SparkPhysicalExprAdapter) -> Result<Expr, RewriteError> {
    let target_field = Arc::clone(&adapter.logical_file_schema.fields[0]);
    let name = target_field.name.clone();
    let begun = adapter.begin_rewrite(Expr::Column(Column { name: name.clone(), index: 0 }))?;
    let cast = Expr::Cast {
        node: 0,
        child: Box::new(Expr::Column(Column { name, index: 0 })),
        child_type: None,
        target_field,
    };
    assert!(casts_within(&cast, 1));
    adapter.finish_rewrite(begun, Some(cast))
}

/// The message about a column that cannot be read, from planning or from its rows.
fn rejected(file_field: Field, read_type: DataType) -> String {
    match adapted(&adapter(file_field, read_type, options())) {
        Ok(Expr::Reject { rejection, .. }) => message(&rejection.evaluate(2).unwrap_err()),
        Ok(other) => panic!("{other:?}"),
        Err(RewriteError::Spark(e)) => message(&e),
        Err(other) => panic!("{other:?}"),
    }
}

fn file_column(data_type: DataType) -> Field {
    Field::new("a", data_type, false)
}

#[test]
fn parquet_int_read_as_string_errors() {
    let msg = rejected(file_column(DataType::Int32), DataType::Utf8);
    assert!(msg.contains("Column: [[a]]"));
    assert!(msg.contains("Expected: string"));
    assert!(msg.contains("Found: INT32"));
}

#[test]
fn parquet_string_read_as_int_errors() {
    let msg = rejected(file_column(DataType::Utf8), DataType::Int32);
    assert!(msg.contains("Column: [[a]]"));
    assert!(msg.contains("Expected: int"));
    assert!(msg.contains("Found: BINARY"));
}

#[test]
fn parquet_binary_read_as_decimal_errors() {
    let msg = rejected(file_column(DataType::Binary), DataType::Decimal128(37, 1));
    assert!(msg.contains("Column: [[a]]"));
    assert!(msg.contains("Expected: decimal(37,1)"));
    assert!(msg.contains("Found: BINARY"));
}

#[test]
fn parquet_int32_read_as_narrow_decimal_errors() {
    let msg = rejected(file_column(DataType::Int32), DataType::Decimal128(9, 0));
    assert!(msg.contains("Column: [[a]]"));
    assert!(msg.contains("Expected: decimal"));
    assert!(msg.contains("Found: INT32"));
}

#[test]
fn parquet_int32_read_as_wide_decimal_succeeds() {
    let a = adapter(file_column(DataType::Int32), DataType::Decimal128(10, 0), options());
    assert!(matches!(adapted(&a), Ok(Expr::SparkCast { .. })));
}

#[test]
fn parquet_int64_read_as_narrow_decimal_errors() {
    let msg = rejected(file_column(DataType::Int64), DataType::Decimal128(19, 0));
    assert!(msg.contains("Column: [[a]]"));
    assert!(msg.contains("Expected: decimal"));
    assert!(msg.contains("Found: INT64"));
}

#[test]
fn parquet_int32_read_as_decimal_with_scale_errors() {
    let msg = rejected(file_column(DataType::Int32), DataType::Decimal128(10, 1));
    assert!(msg.contains("Column: [[a]]"));
    assert!(msg.contains("Expected: decimal"));
    assert!(msg.contains("Found: INT32"));
}

#[test]
fn parquet_decimal_precision_narrowing_errors() {
    let msg = rejected(file_column(DataType::Decimal128(10, 2)), DataType::Decimal128(5, 2));
    assert!(msg.contains("Column: [[a]]"));
    assert!(msg.contains("Expected: decimal(5,2)"));
}

#[test]
fn parquet_decimal_int_precision_narrowing_errors() {
    let msg = rejected(file_column(DataType::Decimal128(10, 4)), DataType::Decimal128(5, 2));
    assert!(msg.contains("Column: [[a]]"));
}

#[test]
fn parquet_decimal_scale_widening_without_precision_errors() {
    let msg = rejected(file_column(DataType::Decimal128(5, 2)), DataType::Decimal128(5, 3));
    assert!(msg.contains("Column: [[a]]"));
}

#[test]
fn parquet_decimal_widening_succeeds() {
    let a =
        adapter(file_column(DataType::Decimal128(5, 2)), DataType::Decimal128(7, 4), options());
    assert!(matches!(adapted(&a), Ok(Expr::SparkCast { .. })));
}

#[test]
fn parquet_long_read_as_int_errors() {
    let msg = rejected(file_column(DataType::Int64), DataType::Int32);
    assert!(msg.contains("Found: INT64"));
    assert!(msg.contains("Expected: int"));
}

#[test]
fn parquet_long_read_as_double_errors() {
    let msg = rejected(file_column(DataType::Int64), DataType::Float64);
    assert!(msg.contains("Found: INT64"));
    assert!(msg.contains("Expected: double"));
}

#[test]
fn parquet_double_read_as_float_errors() {
    let msg = rejected(file_column(DataType::Float64), DataType::Float32);
    assert!(msg.contains("Found: DOUBLE"));
    assert!(msg.contains("Expected: float"));
}

#[test]
fn parquet_float_read_as_long_errors() {
    let msg = rejected(file_column(DataType::Float32), DataType::Int64);
    assert!(msg.contains("Found: FLOAT"));
    assert!(msg.contains("Expected: bigint"));
}

#[test]
fn parquet_double_read_as_long_errors() {
    let msg = rejected(file_column(DataType::Float64), DataType::Int64);
    assert!(msg.contains("Found: DOUBLE"));
    assert!(msg.contains("Expected: bigint"));
}

#[test]
fn parquet_int_read_as_float_errors() {
    let msg = rejected(file_column(DataType::Int32), DataType::Float32);
    assert!(msg.contains("Found: INT32"));
    assert!(msg.contains("Expected: float"));
}

#[test]
fn parquet_int_read_as_timestamp_ntz_errors() {
    let msg = rejected(
        file_column(DataType::Int32),
        DataType::Timestamp(TimeUnit::Microsecond, None),
    );
    assert!(msg.contains("Found: INT32"));
    assert!(msg.contains("Expected: timestamp"));
}

#[test]
fn parquet_long_read_as_date_errors() {
    let msg = rejected(file_column(DataType::Int64), DataType::Date32);
    assert!(msg.contains("Found: INT64"));
    assert!(msg.contains("Expected: date"));
}

#[test]
fn parquet_date_read_as_ltz_timestamp_errors() {
    let msg = rejected(file_column(DataType::Date32), utc(TimeUnit::Microsecond));
    assert!(msg.contains("Found: INT32"));
    assert!(msg.contains("Expected: timestamp"));
}

#[test]
fn parquet_timestamp_read_as_date_errors() {
    let msg = rejected(
        file_column(DataType::Timestamp(TimeUnit::Microsecond, None)),
        DataType::Date32,
    );
    assert!(msg.contains("Expected: date"));
}

fn widened() -> Expr {
    let mut strict = options();
    strict.allow_type_promotion = false;
    let a = adapter(Field::new("col", DataType::Int32, false), DataType::Int64, strict);
    adapted(&a).unwrap()
}

#[test]
fn parquet_empty_file_disallowed_widening() {
    match widened() {
        Expr::Reject { rejection, .. } => assert!(rejection.evaluate(0).is_ok()),
        other => panic!("{other:?}"),
    }
}

#[test]
fn parquet_non_empty_file_disallowed_widening_errors() {
    match widened() {
        Expr::Reject { rejection, .. } => {
            let msg = message(&rejection.evaluate(3).unwrap_err());
            assert!(msg.contains("Column: [[col]]"));
            assert!(msg.contains("Expected: bigint"));
            assert!(msg.contains("Found: INT32"));
            assert_eq!(rejection.describe(), "REJECT_PARQUET_TYPE_PROMOTION([col] AS bigint)");
        }
        other => panic!("{other:?}"),
    }
}

#[test]
fn parquet_roundtrip_unsigned_int() {
    let a = adapter(Field::new("id", DataType::UInt32, false), DataType::Int32, options());
    match adapted(&a) {
        Ok(Expr::SparkCast { child, target_type, cast_options }) => {
            assert!(matches!(*child, Expr::Column(Column { index: 0, .. })));
            assert!(types_equal(&target_type, &DataType::Int32));
            assert_eq!(cast_options.eval_mode, EvalMode::Legacy);
            assert_eq!(cast_options.timezone, "UTC");
            assert!(!cast_options.allow_incompat);
            assert!(cast_options.allow_cast_unsigned_ints);
            assert!(cast_options.is_adapting_schema);
        }
        other => panic!("{other:?}"),
    }
}

#[test]
fn each_rule_for_conversions_decides() {
    let item = || Arc::new(Field::new("item", DataType::Int32, true));
    let ntz = || DataType::Timestamp(TimeUnit::Microsecond, None);
    let verdict = |p: DataType, t: DataType| decide_cast(&p, &t, true, true);
    assert_eq!(verdict(DataType::Int32, DataType::Int32), CastVerdict::Identity);
    assert_eq!(verdict(DataType::Utf8, DataType::LargeUtf8), CastVerdict::SparkCast);
    assert_eq!(verdict(DataType::LargeBinary, DataType::Boolean), CastVerdict::Refused);
    assert_eq!(verdict(DataType::Boolean, DataType::Binary), CastVerdict::RefusedOnRows);
    assert_eq!(verdict(DataType::UInt32, DataType::Utf8), CastVerdict::SparkCast);
    assert_eq!(
        verdict(DataType::Decimal128(7, 3), DataType::Decimal128(9, 2)),
        CastVerdict::Refused
    );
    assert_eq!(
        verdict(DataType::Decimal128(7, 2), DataType::Decimal256(3, 0)),
        CastVerdict::SparkCast
    );
    assert_eq!(verdict(DataType::Int8, DataType::Decimal256(12, 3)), CastVerdict::Refused);
    assert_eq!(verdict(DataType::Int64, DataType::Decimal256(20, 0)), CastVerdict::SparkCast);
    assert_eq!(verdict(DataType::Int32, DataType::Decimal128(8, -2)), CastVerdict::SparkCast);
    assert_eq!(verdict(DataType::Int32, DataType::Int64), CastVerdict::SparkCast);
    assert_eq!(verdict(DataType::Int16, ntz()), CastVerdict::RefusedOnRows);
    assert_eq!(verdict(DataType::Int64, ntz()), CastVerdict::RefusedOnRows);
    assert_eq!(verdict(DataType::Date32, ntz()), CastVerdict::SparkCast);
    assert_eq!(verdict(utc(TimeUnit::Nanosecond), ntz()), CastVerdict::ParquetConvert);
    assert_eq!(verdict(ntz(), DataType::Int64), CastVerdict::ParquetConvert);
    assert_eq!(verdict(ntz(), DataType::List(item())), CastVerdict::Refused);
    assert_eq!(
        verdict(DataType::Struct(vec![item()]), DataType::Struct(vec![])),
        CastVerdict::ParquetConvert
    );
    assert_eq!(
        verdict(DataType::Struct(vec![item()]), DataType::List(item())),
        CastVerdict::SparkCast
    );
    assert_eq!(
        verdict(DataType::Mapping(item(), false), DataType::Mapping(item(), true)),
        CastVerdict::ParquetConvert
    );
}

#[test]
fn options_lift_refusals() {
    let ntz = DataType::Timestamp(TimeUnit::Microsecond, None);
    for (p, t) in [
        (DataType::Int32, DataType::Int64),
        (DataType::Float32, DataType::Float64),
        (DataType::Int32, DataType::Float64),
    ] {
        assert_eq!(decide_cast(&p, &t, false, true), CastVerdict::RefusedOnRows);
        assert_eq!(decide_cast(&p, &t, true, false), CastVerdict::SparkCast);
    }
    assert_eq!(
        decide_cast(&utc(TimeUnit::Second), &ntz, true, false),
        CastVerdict::RefusedOnRows
    );
    assert_eq!(
        decide_cast(&utc(TimeUnit::Second), &ntz, false, true),
        CastVerdict::ParquetConvert
    );
    assert_eq!(
        decide_cast(&ntz, &utc(TimeUnit::Second), true, false),
        CastVerdict::ParquetConvert
    );
}

#[test]
fn types_have_catalog_and_primitive_names() {
    let ntz = DataType::Timestamp(TimeUnit::Second, None);
    for (t, spark, parquet) in [
        (DataType::Boolean, "boolean", "BOOLEAN"),
        (DataType::Int8, "tinyint", "INT32"),
        (DataType::Int16, "smallint", "INT32"),
        (DataType::Int32, "int", "INT32"),
        (DataType::Int64, "bigint", "INT64"),
        (DataType::Float32, "float", "FLOAT"),
        (DataType::Float64, "double", "DOUBLE"),
        (DataType::Utf8, "string", "BINARY"),
        (DataType::LargeUtf8, "string", "BINARY"),
        (DataType::Binary, "binary", "BINARY"),
        (DataType::LargeBinary, "binary", "BINARY"),
        (DataType::Date32, "date", "INT32"),
        (utc(TimeUnit::Second), "timestamp", "INT64"),
        (ntz, "timestamp_ntz", "INT64"),
        (DataType::Decimal128(9, 0), "decimal(9,0)", "INT32"),
        (DataType::Decimal128(10, 2), "decimal(10,2)", "INT64"),
        (DataType::Decimal128(18, -3), "decimal(18,-3)", "INT64"),
        (DataType::Decimal256(38, 10), "decimal(38,10)", "FIXED_LEN_BYTE_ARRAY"),
        (DataType::Null, "unknown", "UNKNOWN"),
        (DataType::Date64, "unknown", "UNKNOWN"),
    ] {
        assert_eq!(spark_catalog_name(&t), spark);
        assert_eq!(parquet_primitive_name(&t), parquet);
    }
    assert_eq!(bracketed("x, y"), "[x, y]");
    let e = parquet_schema_convert_err("c", &DataType::Date32, &DataType::Int8);
    assert_eq!(message(&e), "Column: [[c]], Expected: tinyint, Found: INT32");
}

#[test]
fn rejections_compare_by_what_they_refuse() {
    let target = Arc::new(Field::new("c", DataType::Int32, true));
    let other = Arc::new(Field::new("c", DataType::Int32, false));
    let a = reject_on_non_empty(&target, "c", &DataType::Int64);
    assert!(a.same_rejection(&reject_on_non_empty(&target, "c", &DataType::Int64)));
    assert!(!a.same_rejection(&reject_on_non_empty(&other, "c", &DataType::Int64)));
    assert!(!a.same_rejection(&reject_on_non_empty(&target, "d", &DataType::Int64)));
    assert!(!a.same_rejection(&reject_on_non_empty(&target, "c", &DataType::Float32)));
}

#[test]
fn nested_types_are_compared_to_the_last_field() {
    let field = |name: &str, t: DataType| Arc::new(Field::new(name, t, true));
    let deep = |t: DataType| {
        DataType::Struct(vec![
            field("k", DataType::Interval(IntervalUnit::DayTime)),
            field("v", DataType::List(field("item", t))),
        ])
    };
    assert!(types_equal(&deep(DataType::Int8), &deep(DataType::Int8)));
    assert!(!types_equal(&deep(DataType::Int8), &deep(DataType::Int16)));
    let union =
        |id: i8| DataType::Union(vec![(id, field("u", DataType::Utf8))], UnionMode::Dense);
    assert!(types_equal(&union(1), &union(1)));
    assert!(!types_equal(&union(1), &union(2)));
    let dictionary =
        |v: DataType| DataType::Dictionary(Box::new(DataType::Int32), Box::new(v));
    assert!(types_equal(&dictionary(DataType::Utf8), &dictionary(DataType::Utf8)));
    assert!(!types_equal(&dictionary(DataType::Utf8), &dictionary(DataType::LargeUtf8)));
    assert!(!types_equal(
        &DataType::Timestamp(TimeUnit::Second, None),
        &utc(TimeUnit::Second)
    ));
    assert!(!types_equal(
        &DataType::Timestamp(TimeUnit::Second, Some("+01:00".to_string())),
        &utc(TimeUnit::Second)
    ));
    let mut metadata = StringMap::new();
    metadata.insert("a".to_string(), "b".to_string());
    let plain = Field::new("f", DataType::Null, true);
    let tagged = Field::new("f", DataType::Null, true).with_metadata(metadata);
    assert!(!fields_equal(&plain, &tagged));
    assert!(!fields_equal(&plain, &Field::new("f", DataType::Null, false)));
    assert!(!fields_equal(&plain, &Field::new("g", DataType::Null, true)));
    assert!(fields_equal(&plain, &Field::new("f", DataType::Null, true)));
}
