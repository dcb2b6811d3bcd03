//! Which conversions of a Parquet column Spark's vectorized reader makes, and how.

use crate::schema::{same_type, types_equal, DataType};
use vstd::prelude::*;

verus! {

/// What is to become of the cast of a column to the requested type.
#[derive(PartialEq, Eq, Structural, Clone, Copy, Debug)]
pub enum CastVerdict {
    /// Nothing is to be converted: the cast goes away.
    Identity,
    /// The column cannot be read as this type.
    Refused,
    /// The column cannot be read as this type once it has rows.
    RefusedOnRows,
    /// Nested fields, time zones or raw values are converted the way the Parquet reader does.
    ParquetConvert,
    /// Values are cast the way Spark casts them.
    SparkCast,
}

// ---------------------------------------------------------------------------------------------
// Kinds of types
// ---------------------------------------------------------------------------------------------

/// Strings and byte arrays.
pub open spec fn holds_text(dt: DataType) -> bool {
    dt is Utf8 || dt is LargeUtf8 || dt is Binary || dt is LargeBinary
}

/// Integers of at most 32 bits, which Parquet stores as `INT32`.
pub open spec fn holds_int32(dt: DataType) -> bool {
    dt is Int8 || dt is Int16 || dt is Int32
}

/// Signed integers.
pub open spec fn holds_int(dt: DataType) -> bool {
    holds_int32(dt) || dt is Int64
}

/// Single and double precision numbers.
pub open spec fn holds_float(dt: DataType) -> bool {
    dt is Float32 || dt is Float64
}

/// Types that nest others.
pub open spec fn is_complex(dt: DataType) -> bool {
    dt is Struct || dt is List || dt is Mapping
}

/// Timestamps with a time zone.
pub open spec fn has_zone(dt: DataType) -> bool {
    dt matches DataType::Timestamp(_, zone) && zone is Some
}

/// The digits before the point that a decimal of this precision and scale has room for.
pub open spec fn int_digits(p: u8, s: i8) -> int {
    p - s
}

/// Precision and scale of the two widest decimal types.
pub open spec fn wide_decimal(dt: DataType) -> Option<(u8, i8)> {
    match dt {
        DataType::Decimal128(p, s) => Some((p, s)),
        DataType::Decimal256(p, s) => Some((p, s)),
        _ => None,
    }
}

// ---------------------------------------------------------------------------------------------
// The rules
// ---------------------------------------------------------------------------------------------

/// A decimal that would lose digits on either side of the point.
pub open spec fn narrows_decimal(physical: DataType, target: DataType) -> bool {
    match (physical, target) {
        (DataType::Decimal128(src_p, src_s), DataType::Decimal128(dst_p, dst_s)) => dst_s < src_s
            || int_digits(dst_p, dst_s) < int_digits(src_p, src_s),
        _ => false,
    }
}

/// The digits before the point that a decimal needs to hold any integer of this type.
pub open spec fn digits_needed(dt: DataType) -> Option<int> {
    if holds_int32(dt) {
        Some(10)
    } else if dt is Int64 {
        Some(20)
    } else {
        None
    }
}

/// An integer read as a decimal that has not room for every integer of its type.
pub open spec fn overflows_decimal(physical: DataType, target: DataType) -> bool {
    match (digits_needed(physical), wide_decimal(target)) {
        (Some(needed), Some((p, s))) => int_digits(p, s) < needed,
        _ => false,
    }
}

/// The widenings that only newer Spark versions make.
pub open spec fn is_promotion(physical: DataType, target: DataType) -> bool {
    ||| physical is Int32 && target is Int64
    ||| physical is Float32 && target is Float64
    ||| physical is Int32 && target is Float64
}

/// The conversions that no Spark version makes.
pub open spec fn never_converts(physical: DataType, target: DataType) -> bool {
    // Long to narrower integers, floating point, date and timestamp.
    ||| physical is Int64 && (holds_int32(target) || holds_float(target) || target is Date32
        || target is Timestamp)
    // Integer to float and timestamp.
    ||| holds_int32(physical) && (target is Float32 || target is Timestamp)
    // Floating point to integers.
    ||| holds_float(physical) && holds_int(target)
    // Double to float.
    ||| physical is Float64 && target is Float32
    // Date to timestamp with a zone, and timestamp to date.
    ||| physical is Date32 && has_zone(target)
    ||| physical is Timestamp && target is Date32
}

/// A timestamp with a time zone read as one without.
pub open spec fn drops_zone(physical: DataType, target: DataType) -> bool {
    has_zone(physical) && target is Timestamp && !has_zone(target)
}

/// The conversions that the Parquet reader makes itself: between types of the same nested
/// shape, between timestamps, and from a timestamp to its raw value.
pub open spec fn converts_in_reader(physical: DataType, target: DataType) -> bool {
    ||| physical is Struct && target is Struct
    ||| physical is List && target is List
    ||| physical is Mapping && target is Mapping
    ||| physical is Timestamp && (target is Timestamp || target is Int64)
}

/// What is to become of the cast of a column stored as `physical` to `target`. The first rule
/// that applies decides.
pub open spec fn cast_verdict(
    physical: DataType,
    target: DataType,
    allow_type_promotion: bool,
    allow_timestamp_ltz_to_ntz: bool,
) -> CastVerdict {
    if same_type(physical, target) {
        CastVerdict::Identity
    } else if holds_text(physical) && !holds_text(target) {
        CastVerdict::Refused
    } else if (physical is Boolean || holds_int(physical) || holds_float(physical)) && holds_text(
        target,
    ) {
        CastVerdict::RefusedOnRows
    } else if narrows_decimal(physical, target) || overflows_decimal(physical, target) {
        CastVerdict::Refused
    } else if is_promotion(physical, target) && !allow_type_promotion {
        CastVerdict::RefusedOnRows
    } else if never_converts(physical, target) {
        CastVerdict::RefusedOnRows
    } else if drops_zone(physical, target) && !allow_timestamp_ltz_to_ntz {
        CastVerdict::RefusedOnRows
    } else if is_complex(physical) != is_complex(target) {
        CastVerdict::Refused
    } else if converts_in_reader(physical, target) {
        CastVerdict::ParquetConvert
    } else {
        CastVerdict::SparkCast
    }
}

// ---------------------------------------------------------------------------------------------
// Applying the rules
// ---------------------------------------------------------------------------------------------

/// Whether a type holds strings or byte arrays.
pub fn is_string_or_binary(dt: &DataType) -> (r: bool)
    ensures
        r == holds_text(*dt),
{
    matches!(
        dt,
        DataType::Utf8 | DataType::LargeUtf8 | DataType::Binary | DataType::LargeBinary
    )
}

fn is_int32(dt: &DataType) -> (r: bool)
    ensures
        r == holds_int32(*dt),
{
    matches!(dt, DataType::Int8 | DataType::Int16 | DataType::Int32)
}

fn is_primitive_numeric(dt: &DataType) -> (r: bool)
    ensures
        r == (*dt is Boolean || holds_int(*dt) || holds_float(*dt)),
{
    is_int32(dt) || matches!(
        dt,
        DataType::Boolean | DataType::Int64 | DataType::Float32 | DataType::Float64
    )
}

fn is_nested(dt: &DataType) -> (r: bool)
    ensures
        r == is_complex(*dt),
{
    matches!(dt, DataType::Struct(_) | DataType::List(_) | DataType::Mapping(_, _))
}

fn narrows(physical: &DataType, target: &DataType) -> (r: bool)
    ensures
        r == narrows_decimal(*physical, *target),
{
    match (physical, target) {
        (DataType::Decimal128(src_p, src_s), DataType::Decimal128(dst_p, dst_s)) => {
            let src_int: i32 = *src_p as i32 - *src_s as i32;
            let dst_int: i32 = *dst_p as i32 - *dst_s as i32;
            *dst_s < *src_s || dst_int < src_int
        },
        _ => false,
    }
}

fn overflows(physical: &DataType, target: &DataType) -> (r: bool)
    ensures
        r == overflows_decimal(*physical, *target),
{
    let needed: i32 = if is_int32(physical) {
        10
    } else if matches!(physical, DataType::Int64) {
        20
    } else {
        return false;
    };
    match target {
        DataType::Decimal128(p, s) => (*p as i32 - *s as i32) < needed,
        DataType::Decimal256(p, s) => (*p as i32 - *s as i32) < needed,
        _ => false,
    }
}

fn promotes(physical: &DataType, target: &DataType) -> (r: bool)
    ensures
        r == is_promotion(*physical, *target),
{
    matches!(
        (physical, target),
        (DataType::Int32, DataType::Int64)
            | (DataType::Float32, DataType::Float64)
            | (DataType::Int32, DataType::Float64)
    )
}

fn is_always_rejected(physical: &DataType, target: &DataType) -> (r: bool)
    ensures
        r == never_converts(*physical, *target),
{
    match physical {
        DataType::Int64 => is_int32(target) || matches!(
            target,
            DataType::Float32 | DataType::Float64 | DataType::Date32 | DataType::Timestamp(_, _)
        ),
        DataType::Int8 | DataType::Int16 | DataType::Int32 => matches!(
            target,
            DataType::Float32 | DataType::Timestamp(_, _)
        ),
        DataType::Float32 => is_int32(target) || matches!(target, DataType::Int64),
        DataType::Float64 => is_int32(target) || matches!(
            target,
            DataType::Int64 | DataType::Float32
        ),
        DataType::Date32 => matches!(target, DataType::Timestamp(_, Some(_))),
        DataType::Timestamp(_, _) => matches!(target, DataType::Date32),
        _ => false,
    }
}

fn loses_zone(physical: &DataType, target: &DataType) -> (r: bool)
    ensures
        r == drops_zone(*physical, *target),
{
    matches!(
        (physical, target),
        (DataType::Timestamp(_, Some(_)), DataType::Timestamp(_, None))
    )
}

fn is_reader_conversion(physical: &DataType, target: &DataType) -> (r: bool)
    ensures
        r == converts_in_reader(*physical, *target),
{
    matches!(
        (physical, target),
        (DataType::Struct(_), DataType::Struct(_))
            | (DataType::List(_), DataType::List(_))
            | (DataType::Mapping(_, _), DataType::Mapping(_, _))
            | (DataType::Timestamp(_, _), DataType::Timestamp(_, _))
            | (DataType::Timestamp(_, _), DataType::Int64)
    )
}

/// What is to become of the cast of a column stored as `physical` to `target`.
pub fn decide_cast(
    physical: &DataType,
    target: &DataType,
    allow_type_promotion: bool,
    allow_timestamp_ltz_to_ntz: bool,
) -> (r: CastVerdict)
    ensures
        r == cast_verdict(*physical, *target, allow_type_promotion, allow_timestamp_ltz_to_ntz),
{
    if types_equal(physical, target) {
        return CastVerdict::Identity;
    }
    if is_string_or_binary(physical) && !is_string_or_binary(target) {
        return CastVerdict::Refused;
    }
    if is_primitive_numeric(physical) && is_string_or_binary(target) {
        return CastVerdict::RefusedOnRows;
    }
    if narrows(physical, target) || overflows(physical, target) {
        return CastVerdict::Refused;
    }
    if !allow_type_promotion && promotes(physical, target) {
        return CastVerdict::RefusedOnRows;
    }
    if is_always_rejected(physical, target) {
        return CastVerdict::RefusedOnRows;
    }
    if !allow_timestamp_ltz_to_ntz && loses_zone(physical, target) {
        return CastVerdict::RefusedOnRows;
    }
    if is_nested(physical) != is_nested(target) {
        return CastVerdict::Refused;
    }
    if is_reader_conversion(physical, target) {
        return CastVerdict::ParquetConvert;
    }
    CastVerdict::SparkCast
}

} // verus!
