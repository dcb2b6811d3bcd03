//! Rewriting expressions for a file.

use parquet::arrow::PARQUET_FIELD_ID_META_KEY;
use schema_adapter::adapter::{
    DefaultValue, SparkPhysicalExprAdapter, SparkPhysicalExprAdapterFactory,
};
use schema_adapter::errors::SparkError;
use schema_adapter::expr::{casts_within, Column, Expr, RewriteError};
use schema_adapter::options::{EvalMode, SparkParquetOptions};
use schema_adapter::rewrite::check_column_duplicate;
use schema_adapter::schema::{types_equal, DataType, Field, Schema};
use schema_adapter::string_map::StringMap;
use std::sync::Arc;

fn options(case_sensitive: bool, use_field_id: bool) -> SparkParquetOptions {
    SparkParquetOptions {
        eval_mode: EvalMode::Legacy,
        timezone: "UTC".to_string(),
        allow_incompat: false,
        allow_cast_unsigned_ints: false,
        case_sensitive,
        use_field_id,
        ignore_missing_field_id: false,
        jvm_case_tables: None,
        allow_type_promotion: true,
        allow_timestamp_ltz_to_ntz: true,
    }
}

fn int_field(name: &str) -> Field {
    Field::new(name, DataType::Int32, false)
}

fn field_with_id(name: &str, id: i32) -> Field {
    let mut metadata = StringMap::new();
    metadata.insert(PARQUET_FIELD_ID_META_KEY.to_string(), id.to_string());
    Field::new(name, DataType::Int64, true).with_metadata(metadata)
}

fn adapter(
    options: SparkParquetOptions,
    defaults: Option<Vec<DefaultValue>>,
    logical: Vec<Field>,
    physical: Vec<Field>,
) -> SparkPhysicalExprAdapter {
    SparkPhysicalExprAdapterFactory::new(options, defaults)
        .create(Arc::new(Schema::new(logical)), Arc::new(Schema::new(physical)))
        .unwrap()
}

fn column(name: &str, index: usize) -> Expr {
    Expr::Column(Column { name: name.to_string(), index })
}

fn call(children: Vec<Expr>) -> Expr {
    Expr::Other { node: 7, children }
}

fn default_value(name: &str, index: usize, data_type: DataType) -> DefaultValue {
    DefaultValue {
        column: Column { name: name.to_string(), index },
        data_type: Arc::new(data_type),
    }
}

/// A short rendering of an expression.
fn show(e: &Expr) -> String {
    match e {
        Expr::Column(c) => format!("{}@{}", c.name, c.index),
        Expr::DefaultValue { position, convert_to } => match convert_to {
            Some(t) => format!("default {position} as {t:?}"),
            None => format!("default {position}"),
        },
        Expr::Cast { child, target_field, .. } => {
            format!("cast({} as {:?})", show(child), target_field.data_type)
        }
        Expr::Other { node, children } => {
            let shown: Vec<String> = children.iter().map(show).collect();
            format!("{node}({})", shown.join(", "))
        }
        Expr::Reject { child, rejection } => {
            format!("reject({}: {})", show(child), rejection.describe())
        }
        Expr::ParquetCast { child, input_field, target_field, .. } => format!(
            "parquet({}: {} {:?} as {} {:?})",
            show(child),
            input_field.name,
            input_field.data_type,
            target_field.name,
            target_field.data_type
        ),
        Expr::SparkCast { child, target_type, .. } => {
            format!("spark({} as {target_type:?})", show(child))
        }
    }
}

fn shown(r: Result<Expr, RewriteError>) -> String {
    match r {
        Ok(e) => show(&e),
        Err(e) => panic!("{e:?}"),
    }
}

#[test]
fn parquet_duplicate_fields_case_insensitive() {
    let a = adapter(
        options(false, false),
        None,
        vec![int_field("b")],
        vec![int_field("A"), int_field("B"), int_field("b")],
    );
    match a.begin_rewrite(column("b", 0)) {
        Err(RewriteError::Spark(SparkError::DuplicateFieldCaseInsensitive {
            required_field_name,
            matched_fields,
        })) => {
            assert_eq!(required_field_name, "b");
            assert_eq!(matched_fields, "[B, b]");
        }
        other => panic!("{other:?}"),
    }
}

#[test]
fn parquet_field_id_miss_null_fills_but_exact_name_sibling_still_reads() {
    let a = adapter(
        options(true, true),
        None,
        vec![field_with_id("\u{39A}", 1), Field::new("\u{3BA}", DataType::Int64, true)],
        vec![field_with_id("\u{3BA}", 2)],
    );
    let names: Vec<&str> =
        a.physical_file_schema.fields.iter().map(|f| f.name.as_str()).collect();
    assert_eq!(names, vec!["\u{3BA}"]);
    assert!(a.original_physical_schema.is_none());
    assert!(a.logical_to_physical_names.is_none());
    let begun = a.begin_rewrite(column("\u{3BA}", 1)).unwrap();
    assert_eq!(show(&begun), "\u{3BA}@1");
    assert_eq!(shown(a.finish_rewrite(begun, Some(column("\u{3BA}", 0)))), "\u{3BA}@0");
}

#[test]
fn copies_of_a_factory_make_the_same_adapters() {
    let factory = SparkPhysicalExprAdapterFactory::new(
        options(false, false),
        Some(vec![default_value("m", 1, DataType::Int32)]),
    );
    let copy = factory.clone();
    for f in [factory, copy] {
        let a = f
            .create(
                Arc::new(Schema::new(vec![int_field("a"), int_field("m")])),
                Arc::new(Schema::new(vec![int_field("A")])),
            )
            .unwrap();
        assert_eq!(
            shown(a.begin_rewrite(call(vec![column("a", 0), column("m", 1)]))),
            "7(a@0, default 0)"
        );
        assert_eq!(shown(a.restore_names(column("a", 0))), "A@0");
    }
}

#[test]
fn parquet_field_id_miss_case_insensitive_sibling_still_reads() {
    let a = adapter(
        options(false, true),
        None,
        vec![field_with_id("\u{39A}", 1), Field::new("\u{3BA}", DataType::Int64, true)],
        vec![field_with_id("\u{3BA}", 2)],
    );
    let names: Vec<&str> =
        a.physical_file_schema.fields.iter().map(|f| f.name.as_str()).collect();
    assert_eq!(names, vec!["\u{3BA}"]);
    assert_eq!(shown(a.begin_rewrite(column("\u{3BA}", 1))), "\u{3BA}@1");
    assert_eq!(shown(a.begin_rewrite(column("\u{39A}", 0))), "\u{39A}@0");
}

#[test]
fn parquet_field_id_match_beats_stray_column_with_requested_name() {
    let a = adapter(
        options(false, true),
        None,
        vec![field_with_id("A", 1)],
        vec![Field::new("A", DataType::Int64, true), field_with_id("a", 1)],
    );
    let names: Vec<&str> =
        a.physical_file_schema.fields.iter().map(|f| f.name.as_str()).collect();
    assert_eq!(names, vec!["__comet_unmatched_field_id_1", "A"]);
    let begun = a.begin_rewrite(column("A", 0)).unwrap();
    assert_eq!(shown(a.finish_rewrite(begun, Some(column("A", 1)))), "a@1");
}

#[test]
fn the_last_duplicate_is_reported() {
    let a = adapter(
        options(false, false),
        None,
        vec![int_field("a"), int_field("b"), int_field("c")],
        vec![int_field("A"), int_field("B"), int_field("a"), int_field("b"), int_field("c")],
    );
    let e = call(vec![column("a", 0), call(vec![column("b", 1)]), column("c", 2)]);
    match a.begin_rewrite(e) {
        Err(RewriteError::Spark(SparkError::DuplicateFieldCaseInsensitive {
            required_field_name,
            matched_fields,
        })) => {
            assert_eq!(required_field_name, "b");
            assert_eq!(matched_fields, "[B, b]");
        }
        other => panic!("{other:?}"),
    }
    assert_eq!(shown(a.begin_rewrite(call(vec![column("c", 2)]))), "7(c@2)");
}

#[test]
fn duplicates_up_to_case_are_found_by_name() {
    let schema = Schema::new(vec![int_field("x"), int_field("X"), int_field("y")]);
    assert_eq!(
        check_column_duplicate("X", &schema, None),
        Some(("X".to_string(), "[x, X]".to_string()))
    );
    assert_eq!(check_column_duplicate("y", &schema, None), None);
    assert_eq!(check_column_duplicate("z", &schema, None), None);
}

#[test]
fn case_sensitive_scans_know_no_duplicates() {
    let a = adapter(
        options(true, false),
        None,
        vec![int_field("b")],
        vec![int_field("B"), int_field("b")],
    );
    assert_eq!(shown(a.begin_rewrite(column("b", 0))), "b@0");
}

#[test]
fn factories_report_problems_with_identifiers() {
    let factory = SparkPhysicalExprAdapterFactory::new(options(true, true), None);
    let logical = || Arc::new(Schema::new(vec![field_with_id("a", 1)]));
    let missing = factory.create(logical(), Arc::new(Schema::new(vec![int_field("a")])));
    assert!(matches!(missing, Err(SparkError::ParquetMissingFieldIds)));
    let twice = factory.create(
        logical(),
        Arc::new(Schema::new(vec![field_with_id("p", 1), field_with_id("q", 1)])),
    );
    assert!(matches!(
        twice,
        Err(SparkError::DuplicateFieldByFieldId { required_id: 1, .. })
    ));
}

#[test]
fn exact_names_are_left_alone() {
    let a = adapter(
        options(true, false),
        None,
        vec![int_field("a"), int_field("B")],
        vec![int_field("b"), int_field("a")],
    );
    let names: Vec<&str> =
        a.physical_file_schema.fields.iter().map(|f| f.name.as_str()).collect();
    assert_eq!(names, vec!["b", "a"]);
    assert!(a.logical_to_physical_names.is_none());
    let e = || call(vec![column("a", 0)]);
    let begun = a.begin_rewrite(e()).unwrap();
    assert_eq!(shown(a.finish_rewrite(begun, Some(e()))), "7(a@0)");
}

#[test]
fn missing_columns_get_the_last_default_of_their_name() {
    let defaults = vec![
        default_value("m", 1, DataType::Int32),
        default_value("a", 0, DataType::Int32),
        default_value("m", 2, DataType::Int64),
        default_value("n", 3, DataType::Utf8),
        default_value("o", 4, DataType::Utf8),
    ];
    let a = adapter(
        options(false, false),
        Some(defaults),
        vec![int_field("a"), int_field("m"), Field::new("n", DataType::Utf8, true)],
        vec![int_field("A")],
    );
    let e = call(vec![
        column("a", 0),
        column("m", 1),
        column("n", 2),
        column("o", 3),
        column("p", 4),
        column("M", 5),
    ]);
    assert_eq!(
        shown(a.begin_rewrite(e)),
        "7(a@0, default 2 as Int32, default 3, default 4, p@4, M@5)"
    );
}

#[test]
fn without_defaults_columns_stay() {
    for defaults in [None, Some(vec![])] {
        let a = adapter(options(true, false), defaults, vec![int_field("m")], vec![int_field("a")]);
        assert_eq!(shown(a.replace_missing_with_defaults(column("m", 0))), "m@0");
    }
}

#[test]
fn casts_are_replaced_from_the_inside() {
    let a = adapter(
        options(false, false),
        None,
        vec![Field::new("t", DataType::Utf8, true)],
        vec![Field::new("T", DataType::LargeUtf8, true)],
    );
    let target = |t: DataType| Arc::new(Field::new("t", t, true));
    let cast = |child: Expr, from: Option<DataType>, to: DataType| Expr::Cast {
        node: 1,
        child: Box::new(child),
        child_type: from.map(Arc::new),
        target_field: target(to),
    };
    // The inner cast changes nothing and goes away; the outer one then sees the column.
    let inner = cast(column("t", 0), None, DataType::LargeUtf8);
    let outer = cast(inner, Some(DataType::LargeUtf8), DataType::Utf8);
    assert!(casts_within(&outer, 1));
    let out = a.replace_casts(outer).unwrap();
    assert_eq!(show(&out), "spark(t@0 as Utf8)");
    assert_eq!(shown(a.restore_names(out)), "spark(T@0 as Utf8)");
    // Another operand is known by its type alone, under the name of the target.
    let other = cast(call(vec![]), Some(DataType::Int64), DataType::Int32);
    assert_eq!(
        shown(a.replace_casts(other)),
        "reject(7(): REJECT_PARQUET_TYPE_PROMOTION([t] AS int))"
    );
    match a.replace_casts(cast(call(vec![]), None, DataType::Int32)) {
        Err(RewriteError::UntypedOperand(1)) => {}
        other => panic!("{other:?}"),
    }
}

#[test]
fn replacing_casts_twice_changes_nothing() {
    let a = adapter(
        options(true, false),
        None,
        vec![Field::new("x", DataType::Int64, true)],
        vec![Field::new("x", DataType::Int32, true)],
    );
    let cast = Expr::Cast {
        node: 2,
        child: Box::new(column("x", 0)),
        child_type: None,
        target_field: Arc::clone(&a.logical_file_schema.fields[0]),
    };
    let once = a.replace_casts(call(vec![cast, column("x", 0)])).unwrap();
    let text = show(&once);
    assert_eq!(text, "7(spark(x@0 as Int64), x@0)");
    assert_eq!(shown(a.replace_casts(once)), text);
}

#[test]
fn columns_that_trade_names_get_their_own_back() {
    let a = adapter(
        options(true, true),
        None,
        vec![field_with_id("p", 1), field_with_id("q", 2)],
        vec![field_with_id("q", 1), field_with_id("p", 2)],
    );
    let names: Vec<&str> =
        a.physical_file_schema.fields.iter().map(|f| f.name.as_str()).collect();
    assert_eq!(names, vec!["p", "q"]);
    assert_eq!(
        shown(a.restore_names(call(vec![column("p", 0), column("q", 1)]))),
        "7(q@0, p@1)"
    );
}

#[test]
fn nested_columns_are_converted_by_the_reader() {
    let file = DataType::Struct(vec![Arc::new(int_field("x"))]);
    let query = DataType::Struct(vec![Arc::new(int_field("x")), Arc::new(int_field("y"))]);
    let a = adapter(
        options(true, false),
        None,
        vec![Field::new("s", query, true)],
        vec![Field::new("s", file, true)],
    );
    let cast = Expr::Cast {
        node: 3,
        child: Box::new(column("s", 0)),
        child_type: None,
        target_field: Arc::clone(&a.logical_file_schema.fields[0]),
    };
    match a.replace_casts(cast) {
        Ok(Expr::ParquetCast { input_field, target_field, options, .. }) => {
            assert!(types_equal(
                &input_field.data_type,
                &a.physical_file_schema.fields[0].data_type
            ));
            assert!(types_equal(
                &target_field.data_type,
                &a.logical_file_schema.fields[0].data_type
            ));
            assert!(options.case_sensitive);
        }
        other => panic!("{other:?}"),
    }
}

#[test]
fn columns_are_cast_one_by_one_where_the_general_adaptation_fails() {
    let a = adapter(
        options(false, false),
        None,
        vec![
            int_field("a"),
            Field::new("b", DataType::Int64, true),
            Field::new("c", DataType::Int32, true),
            int_field("d"),
        ],
        vec![
            Field::new("B", DataType::Int32, true),
            int_field("A"),
            Field::new("C", DataType::Utf8, true),
        ],
    );
    let e = || call(vec![column("a", 0), column("b", 1), column("d", 3), column("e", 9)]);
    assert_eq!(
        shown(a.wrap_all_type_mismatches(e())),
        "7(a@1, parquet(b@0: b Int32 as b Int64), d@3, e@9)"
    );
    assert_eq!(
        shown(a.finish_rewrite(e(), None)),
        "7(A@1, parquet(B@0: b Int32 as b Int64), d@3, e@9)"
    );
    match a.finish_rewrite(call(vec![column("a", 0), column("c", 2)]), None) {
        Err(RewriteError::Spark(SparkError::ParquetSchemaConvert {
            column,
            physical_type,
            spark_type,
            ..
        })) => {
            assert_eq!(column, "[c]");
            assert_eq!(physical_type, "BINARY");
            assert_eq!(spark_type, "int");
        }
        other => panic!("{other:?}"),
    }
}

#[test]
fn the_first_failure_ends_a_pass() {
    let a = adapter(
        options(true, false),
        None,
        vec![Field::new("a", DataType::Int32, true), Field::new("b", DataType::Int64, true)],
        vec![Field::new("a", DataType::Utf8, true), Field::new("b", DataType::Binary, true)],
    );
    match a.wrap_all_type_mismatches(call(vec![column("b", 0), column("a", 1)])) {
        Err(RewriteError::Spark(SparkError::ParquetSchemaConvert { column, .. })) => {
            assert_eq!(column, "[b]");
        }
        other => panic!("{other:?}"),
    }
}

#[test]
fn casts_of_columns_beyond_the_file_are_noticed() {
    let cast = |index: usize| Expr::Cast {
        node: 0,
        child: Box::new(column("a", index)),
        child_type: None,
        target_field: Arc::new(int_field("a")),
    };
    assert!(casts_within(&call(vec![cast(0), column("z", 8)]), 1));
    assert!(!casts_within(&call(vec![cast(0), call(vec![cast(1)])]), 1));
}
