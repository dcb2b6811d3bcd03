//! What is reported when a column cannot be read, and the names by which it is reported.

use crate::schema::{fields_equal, same_field, DataType, FieldRef, FieldView};
use crate::text::{decimal, push_decimal, push_signed_decimal, signed_decimal};
use std::sync::Arc;
use vstd::prelude::*;
use vstd::string::*;

verus! {

/// The errors of schema adaptation, as Spark reports them.
#[derive(Debug)]
pub enum SparkError {
    /// Fields are to be matched by identifier, but the file carries none.
    ParquetMissingFieldIds,
    /// More than one column of the file carries a requested identifier.
    DuplicateFieldByFieldId { required_id: i32, matched_fields: String },
    /// More than one column of the file has a requested name up to case.
    DuplicateFieldCaseInsensitive { required_field_name: String, matched_fields: String },
    /// A column of the file cannot be read as the requested type.
    ParquetSchemaConvert {
        file_path: String,
        column: String,
        physical_type: String,
        spark_type: String,
    },
}

/// An error, with its texts as sequences of characters.
pub enum Problem {
    MissingFieldIds,
    DuplicateId { required_id: i32, matched_fields: Seq<char> },
    DuplicateName { required_field_name: Seq<char>, matched_fields: Seq<char> },
    SchemaConvert {
        file_path: Seq<char>,
        column: Seq<char>,
        physical_type: Seq<char>,
        spark_type: Seq<char>,
    },
}

impl View for SparkError {
    type V = Problem;

    open spec fn view(&self) -> Problem {
        match *self {
            SparkError::ParquetMissingFieldIds => Problem::MissingFieldIds,
            SparkError::DuplicateFieldByFieldId { required_id, matched_fields } =>
                Problem::DuplicateId { required_id, matched_fields: matched_fields@ },
            SparkError::DuplicateFieldCaseInsensitive { required_field_name, matched_fields } =>
                Problem::DuplicateName {
                    required_field_name: required_field_name@,
                    matched_fields: matched_fields@,
                },
            SparkError::ParquetSchemaConvert { file_path, column, physical_type, spark_type } =>
                Problem::SchemaConvert {
                    file_path: file_path@,
                    column: column@,
                    physical_type: physical_type@,
                    spark_type: spark_type@,
                },
        }
    }
}

// ---------------------------------------------------------------------------------------------
// Names of types
// ---------------------------------------------------------------------------------------------

/// `decimal(p,s)`.
pub open spec fn decimal_name(p: u8, s: i8) -> Seq<char> {
    "decimal("@ + decimal(p as nat) + ","@ + signed_decimal(s as int) + ")"@
}

/// Spark's catalog string of a type.
pub open spec fn catalog_name(dt: DataType) -> Seq<char> {
    match dt {
        DataType::Boolean => "boolean"@,
        DataType::Int8 => "tinyint"@,
        DataType::Int16 => "smallint"@,
        DataType::Int32 => "int"@,
        DataType::Int64 => "bigint"@,
        DataType::Float32 => "float"@,
        DataType::Float64 => "double"@,
        DataType::Utf8 | DataType::LargeUtf8 => "string"@,
        DataType::Binary | DataType::LargeBinary => "binary"@,
        DataType::Date32 => "date"@,
        DataType::Timestamp(_, Some(_)) => "timestamp"@,
        DataType::Timestamp(_, None) => "timestamp_ntz"@,
        DataType::Decimal128(p, s) | DataType::Decimal256(p, s) => decimal_name(p, s),
        _ => "unknown"@,
    }
}

/// The Parquet primitive type that stores a type. Decimals of precision 1 to 9 are stored as
/// `INT32`, of precision 10 to 18 as `INT64`, and wider ones as byte arrays.
pub open spec fn primitive_name(dt: DataType) -> Seq<char> {
    match dt {
        DataType::Boolean => "BOOLEAN"@,
        DataType::Int8 | DataType::Int16 | DataType::Int32 | DataType::Date32 => "INT32"@,
        DataType::Int64 | DataType::Timestamp(_, _) => "INT64"@,
        DataType::Float32 => "FLOAT"@,
        DataType::Float64 => "DOUBLE"@,
        DataType::Utf8 | DataType::LargeUtf8 | DataType::Binary | DataType::LargeBinary =>
            "BINARY"@,
        DataType::Decimal128(p, _) | DataType::Decimal256(p, _) => if p <= 9 {
            "INT32"@
        } else if p <= 18 {
            "INT64"@
        } else {
            "FIXED_LEN_BYTE_ARRAY"@
        },
        _ => "UNKNOWN"@,
    }
}

fn spark_decimal_name(p: u8, s: i8) -> (r: String)
    ensures
        r@ == decimal_name(p, s),
{
    let mut out = "decimal(".to_owned();
    push_decimal(&mut out, p as u128);
    out.append(",");
    push_signed_decimal(&mut out, s as i32);
    out.append(")");
    out
}

/// Formats a type as Spark's catalog string, so that messages match those of Spark's
/// vectorized reader.
pub fn spark_catalog_name(dt: &DataType) -> (r: String)
    ensures
        r@ == catalog_name(*dt),
{
    match dt {
        DataType::Boolean => "boolean".to_owned(),
        DataType::Int8 => "tinyint".to_owned(),
        DataType::Int16 => "smallint".to_owned(),
        DataType::Int32 => "int".to_owned(),
        DataType::Int64 => "bigint".to_owned(),
        DataType::Float32 => "float".to_owned(),
        DataType::Float64 => "double".to_owned(),
        DataType::Utf8 | DataType::LargeUtf8 => "string".to_owned(),
        DataType::Binary | DataType::LargeBinary => "binary".to_owned(),
        DataType::Date32 => "date".to_owned(),
        DataType::Timestamp(_, Some(_)) => "timestamp".to_owned(),
        DataType::Timestamp(_, None) => "timestamp_ntz".to_owned(),
        DataType::Decimal128(p, s) => spark_decimal_name(*p, *s),
        DataType::Decimal256(p, s) => spark_decimal_name(*p, *s),
        _ => "unknown".to_owned(),
    }
}

/// The name of the Parquet primitive type that stores a type.
pub fn parquet_primitive_name(dt: &DataType) -> (r: &'static str)
    ensures
        r@ == primitive_name(*dt),
{
    match dt {
        DataType::Boolean => "BOOLEAN",
        DataType::Int8 | DataType::Int16 | DataType::Int32 | DataType::Date32 => "INT32",
        DataType::Int64 | DataType::Timestamp(_, _) => "INT64",
        DataType::Float32 => "FLOAT",
        DataType::Float64 => "DOUBLE",
        DataType::Utf8 | DataType::LargeUtf8 | DataType::Binary | DataType::LargeBinary => "BINARY",
        DataType::Decimal128(p, _) | DataType::Decimal256(p, _) => if *p <= 9 {
            "INT32"
        } else if *p <= 18 {
            "INT64"
        } else {
            "FIXED_LEN_BYTE_ARRAY"
        },
        _ => "UNKNOWN",
    }
}

// ---------------------------------------------------------------------------------------------
// Refused conversions
// ---------------------------------------------------------------------------------------------

/// `s` in square brackets.
pub open spec fn in_brackets(s: Seq<char>) -> Seq<char> {
    "["@ + s + "]"@
}

/// Puts `s` in square brackets.
pub fn bracketed(s: &str) -> (r: String)
    ensures
        r@ == in_brackets(s@),
{
    let mut out = "[".to_owned();
    out.append(s);
    out.append("]");
    out
}

/// The problem that the column `name`, stored as `physical`, cannot be read as `target`. The
/// column stands in brackets, as Spark prints a column path.
pub open spec fn conversion_problem(
    name: Seq<char>,
    physical: DataType,
    target: DataType,
) -> Problem {
    Problem::SchemaConvert {
        file_path: Seq::empty(),
        column: in_brackets(name),
        physical_type: primitive_name(physical),
        spark_type: catalog_name(target),
    }
}

/// The error for a column `field_name`, stored as `physical_type`, that cannot be read as
/// `target_type`.
pub fn parquet_schema_convert_err(
    field_name: &str,
    physical_type: &DataType,
    target_type: &DataType,
) -> (r: SparkError)
    ensures
        r@ == conversion_problem(field_name@, *physical_type, *target_type),
{
    SparkError::ParquetSchemaConvert {
        file_path: String::new(),
        column: bracketed(field_name),
        physical_type: parquet_primitive_name(physical_type).to_owned(),
        spark_type: spark_catalog_name(target_type),
    }
}

/// A conversion that is refused once there are rows to convert.
///
/// Spark's vectorized reader looks for a conversion only while it decodes a row group, so a
/// file without row groups is readable whatever its types are.
#[derive(Debug)]
pub struct RejectOnNonEmpty {
    pub target_field: FieldRef,
    pub column: String,
    pub physical_type: String,
    pub spark_type: String,
}

/// A refused conversion, with its texts as sequences of characters.
pub struct Rejection {
    pub target_field: FieldView,
    pub column: Seq<char>,
    pub physical_type: Seq<char>,
    pub spark_type: Seq<char>,
}

impl View for RejectOnNonEmpty {
    type V = Rejection;

    open spec fn view(&self) -> Rejection {
        Rejection {
            target_field: self.target_field@,
            column: self.column@,
            physical_type: self.physical_type@,
            spark_type: self.spark_type@,
        }
    }
}

/// The refusal to read the column `name`, stored as `physical`, as `target_field`.
pub open spec fn rejection(
    target_field: FieldView,
    name: Seq<char>,
    physical: DataType,
) -> Rejection {
    Rejection {
        target_field,
        column: in_brackets(name),
        physical_type: primitive_name(physical),
        spark_type: catalog_name(target_field.data_type),
    }
}

impl RejectOnNonEmpty {
    /// The outcome on a batch of `num_rows` rows: nothing to report on an empty one, and the
    /// refused conversion on any other.
    pub fn evaluate(&self, num_rows: usize) -> (r: Result<(), SparkError>)
        ensures
            r is Ok <==> num_rows == 0,
            r matches Err(e) ==> e@ == (Problem::SchemaConvert {
                file_path: Seq::empty(),
                column: self@.column,
                physical_type: self@.physical_type,
                spark_type: self@.spark_type,
            }),
    {
        if num_rows == 0 {
            return Ok(());
        }
        Err(
            SparkError::ParquetSchemaConvert {
                file_path: String::new(),
                column: self.column.clone(),
                physical_type: self.physical_type.clone(),
                spark_type: self.spark_type.clone(),
            },
        )
    }

    /// How the refused conversion is shown in a plan.
    pub fn describe(&self) -> (r: String)
        ensures
            r@ == "REJECT_PARQUET_TYPE_PROMOTION("@ + self@.column + " AS "@ + self@.spark_type
                + ")"@,
    {
        let mut out = "REJECT_PARQUET_TYPE_PROMOTION(".to_owned();
        out.append(self.column.as_str());
        out.append(" AS ");
        out.append(self.spark_type.as_str());
        out.append(")");
        out
    }

    /// Whether two refusals are the same.
    pub fn same_rejection(&self, other: &Self) -> (r: bool)
        ensures
            r == (same_field(*self.target_field, *other.target_field) && self.column@
                == other.column@ && self.physical_type@ == other.physical_type@
                && self.spark_type@ == other.spark_type@),
    {
        fields_equal(&self.target_field, &other.target_field) && self.column == other.column
            && self.physical_type == other.physical_type && self.spark_type == other.spark_type
    }
}

/// The refusal, on rows, to read the column `field_name`, stored as `physical_type`, as
/// `target_field`.
pub fn reject_on_non_empty(
    target_field: &FieldRef,
    field_name: &str,
    physical_type: &DataType,
) -> (r: RejectOnNonEmpty)
    ensures
        r@ == rejection(target_field@, field_name@, *physical_type),
{
    RejectOnNonEmpty {
        target_field: Arc::clone(target_field),
        column: bracketed(field_name),
        physical_type: parquet_primitive_name(physical_type).to_owned(),
        spark_type: spark_catalog_name(&target_field.data_type),
    }
}

} // verus!
