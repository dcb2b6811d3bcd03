//! What holds of reports about columns that cannot be read.

use crate::errors::{
    catalog_name, parquet_primitive_name, parquet_schema_convert_err, primitive_name,
    reject_on_non_empty, spark_catalog_name, RejectOnNonEmpty, SparkError,
};
use crate::schema::{same_field, DataType, FieldRef};
use crate::text::{decimal, signed_decimal};
use vstd::arithmetic::power::{lemma_pow_adds, lemma_pow_increases, pow};
use vstd::prelude::*;

verus! {

// ---------------------------------------------------------------------------------------------
// Names of types
// ---------------------------------------------------------------------------------------------

/// The catalog string of every type: integers by width, text and bytes whatever the width of their
/// offsets, timestamps by whether they have a time zone, and decimals by precision and scale.
pub proof fn types_are_shown_by_their_catalog_strings(dt: DataType)
    ensures
        ({
            let name = catalog_name(dt);
            &&& dt is Boolean ==> name == "boolean"@
            &&& dt is Int8 ==> name == "tinyint"@
            &&& dt is Int16 ==> name == "smallint"@
            &&& dt is Int32 ==> name == "int"@
            &&& dt is Int64 ==> name == "bigint"@
            &&& dt is Float32 ==> name == "float"@
            &&& dt is Float64 ==> name == "double"@
            &&& dt is Utf8 || dt is LargeUtf8 ==> name == "string"@
            &&& dt is Binary || dt is LargeBinary ==> name == "binary"@
            &&& dt is Date32 ==> name == "date"@
            &&& dt matches DataType::Timestamp(_, zone) ==> name == (if zone is Some {
                "timestamp"@
            } else {
                "timestamp_ntz"@
            })
            &&& dt matches DataType::Decimal128(p, s) ==> name == "decimal("@ + decimal(p as nat)
                + ","@ + signed_decimal(s as int) + ")"@
            &&& dt matches DataType::Decimal256(p, s) ==> name == "decimal("@ + decimal(p as nat)
                + ","@ + signed_decimal(s as int) + ")"@
            &&& !(dt is Boolean || dt is Int8 || dt is Int16 || dt is Int32 || dt is Int64 || dt
                is Float32 || dt is Float64 || dt is Utf8 || dt is LargeUtf8 || dt is Binary || dt
                is LargeBinary || dt is Date32 || dt is Timestamp || dt is Decimal128 || dt
                is Decimal256) ==> name == "unknown"@
        }),
{
}

/// The primitive type that stores every type but decimals.
pub proof fn types_are_stored_as_primitives(dt: DataType)
    ensures
        ({
            let name = primitive_name(dt);
            &&& dt is Boolean ==> name == "BOOLEAN"@
            &&& dt is Int8 || dt is Int16 || dt is Int32 || dt is Date32 ==> name == "INT32"@
            &&& dt is Int64 || dt is Timestamp ==> name == "INT64"@
            &&& dt is Float32 ==> name == "FLOAT"@
            &&& dt is Float64 ==> name == "DOUBLE"@
            &&& dt is Utf8 || dt is LargeUtf8 || dt is Binary || dt is LargeBinary ==> name
                == "BINARY"@
            &&& !(dt is Boolean || dt is Int8 || dt is Int16 || dt is Int32 || dt is Date32 || dt
                is Int64 || dt is Timestamp || dt is Float32 || dt is Float64 || dt is Utf8 || dt
                is LargeUtf8 || dt is Binary || dt is LargeBinary || dt is Decimal128 || dt
                is Decimal256) ==> name == "UNKNOWN"@
        }),
{
}

/// A decimal is stored in the smallest of a 32-bit integer, a 64-bit integer and a byte array that
/// holds all numbers of its digits.
pub proof fn decimals_are_stored_in_the_smallest_primitive(dt: DataType, p: u8, s: i8)
    requires
        dt == DataType::Decimal128(p, s) || dt == DataType::Decimal256(p, s),
    ensures
        primitive_name(dt) == if pow(10, p as nat) - 1 <= i32::MAX {
            "INT32"@
        } else if pow(10, p as nat) - 1 <= i64::MAX {
            "INT64"@
        } else {
            "FIXED_LEN_BYTE_ARRAY"@
        },
{
    assert(pow(10, 9) == 1_000_000_000) by {
        reveal_with_fuel(pow, 10);
    }
    assert(pow(10, 10) == 10_000_000_000) by {
        reveal_with_fuel(pow, 11);
    }
    assert(pow(10, 18) == 1_000_000_000_000_000_000) by {
        lemma_pow_adds(10, 9, 9);
    }
    assert(pow(10, 19) == 10_000_000_000_000_000_000) by {
        lemma_pow_adds(10, 9, 10);
    }
    if p <= 9 {
        lemma_pow_increases(10, p as nat, 9);
    } else if p <= 18 {
        lemma_pow_increases(10, 10, p as nat);
        lemma_pow_increases(10, p as nat, 18);
    } else {
        lemma_pow_increases(10, 10, p as nat);
        lemma_pow_increases(10, 19, p as nat);
    }
}

// ---------------------------------------------------------------------------------------------
// Refused conversions
// ---------------------------------------------------------------------------------------------

/// A refused conversion is reported with the column's name in square brackets, the primitive type
/// of what is stored, and the catalog string of what was asked for; the file is left open.
pub proof fn refused_conversions_are_reported(
    name: &str,
    physical: &DataType,
    target: &DataType,
    e: SparkError,
)
    requires
        call_ensures(parquet_schema_convert_err, (name, physical, target), e),
    ensures
        e matches SparkError::ParquetSchemaConvert { file_path, column, physical_type, spark_type }
            && {
            &&& file_path@.len() == 0
            &&& column@.len() == name@.len() + 2
            &&& column@[0] == '['
            &&& column@[column@.len() - 1] == ']'
            &&& column@.subrange(1, column@.len() - 1) == name@
            &&& physical_type@ == primitive_name(*physical)
            &&& spark_type@ == catalog_name(*target)
        },
{
    reveal_strlit("[");
    reveal_strlit("]");
    if let SparkError::ParquetSchemaConvert { column, .. } = e {
        assert(column@.subrange(1, column@.len() - 1) =~= name@);
    }
}

/// A conversion that is refused on rows passes where there are none, and is reported like one that
/// is refused at once where there are.
pub proof fn refusals_on_rows_wait_for_rows(
    target_field: &FieldRef,
    name: &str,
    physical: &DataType,
    num_rows: usize,
    rejection: RejectOnNonEmpty,
    result: Result<(), SparkError>,
    at_once: SparkError,
)
    requires
        call_ensures(reject_on_non_empty, (target_field, name, physical), rejection),
        call_ensures(RejectOnNonEmpty::evaluate, (&rejection, num_rows), result),
        call_ensures(
            parquet_schema_convert_err,
            (name, physical, &*target_field.data_type),
            at_once,
        ),
    ensures
        rejection.target_field@ == target_field@,
        at_once matches SparkError::ParquetSchemaConvert { column, physical_type, spark_type, .. }
            && rejection.column@ == column@ && rejection.physical_type@ == physical_type@
            && rejection.spark_type@ == spark_type@,
        result is Ok <==> num_rows == 0,
        result matches Err(e) ==> e@ == at_once@,
{
}

/// A refusal is shown in a plan with its column and the type that was asked for.
pub proof fn refusals_are_shown(rejection: &RejectOnNonEmpty, text: String)
    requires
        call_ensures(RejectOnNonEmpty::describe, (rejection,), text),
    ensures
        text@ == "REJECT_PARQUET_TYPE_PROMOTION("@ + rejection.column@ + " AS "@
            + rejection.spark_type@ + ")"@,
{
}

/// Two refusals are the same if and only if they agree in the field, the column and both types.
pub proof fn refusals_agree_in_every_part(a: &RejectOnNonEmpty, b: &RejectOnNonEmpty, r: bool)
    requires
        call_ensures(RejectOnNonEmpty::same_rejection, (a, b), r),
    ensures
        r <==> same_field(*a.target_field, *b.target_field) && a.column@ == b.column@
            && a.physical_type@ == b.physical_type@ && a.spark_type@ == b.spark_type@,
{
}

/// Types are shown and stored under the names that they have.
pub proof fn names_of_types_are_given(dt: &DataType, shown: String, stored: &'static str)
    requires
        call_ensures(spark_catalog_name, (dt,), shown),
        call_ensures(parquet_primitive_name, (dt,), stored),
    ensures
        shown@ == catalog_name(*dt),
        stored@ == primitive_name(*dt),
{
}

} // verus!
