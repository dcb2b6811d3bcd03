//! The options under which Parquet columns are read.

use crate::case_tables::JvmCaseTables;
use std::sync::Arc;
use vstd::prelude::*;

verus! {

/// What a cast does with a value that the target type does not hold.
#[derive(PartialEq, Eq, Structural, Clone, Copy, Debug)]
pub enum EvalMode {
    Legacy,
    Ansi,
    Try,
}

/// The options of a Parquet scan.
#[derive(Debug)]
pub struct SparkParquetOptions {
    /// What casts do with values that the target type does not hold.
    pub eval_mode: EvalMode,
    /// The session's time zone.
    pub timezone: String,
    /// Whether casts that are not fully compatible with Spark are allowed.
    pub allow_incompat: bool,
    /// Whether unsigned integers may be cast.
    pub allow_cast_unsigned_ints: bool,
    /// Whether column names must agree exactly.
    pub case_sensitive: bool,
    /// Whether requested fields that carry an identifier are matched by it.
    pub use_field_id: bool,
    /// Whether a file without identifiers is read all the same.
    pub ignore_missing_field_id: bool,
    /// The case data of the JVM that planned the query.
    pub jvm_case_tables: Option<Arc<JvmCaseTables>>,
    /// Whether integers and floats may be read as wider types.
    pub allow_type_promotion: bool,
    /// Whether a timestamp with a time zone may be read as one without.
    pub allow_timestamp_ltz_to_ntz: bool,
}

/// The options of a cast.
#[derive(Debug)]
pub struct SparkCastOptions {
    /// What the cast does with values that the target type does not hold.
    pub eval_mode: EvalMode,
    /// The session's time zone.
    pub timezone: String,
    /// Whether a cast that is not fully compatible with Spark is allowed.
    pub allow_incompat: bool,
    /// Whether unsigned integers may be cast.
    pub allow_cast_unsigned_ints: bool,
    /// Whether the cast adapts a file's schema to a query's.
    pub is_adapting_schema: bool,
}

impl SparkParquetOptions {
    /// The case data of the JVM that planned the query.
    pub fn case_tables(&self) -> (r: Option<&JvmCaseTables>)
        ensures
            r == self.tables(),
    {
        match &self.jvm_case_tables {
            Some(t) => Some(&**t),
            None => None,
        }
    }

    /// The case data of the JVM that planned the query.
    pub open spec fn tables(&self) -> Option<&JvmCaseTables> {
        match self.jvm_case_tables {
            Some(t) => Some(&*t),
            None => None,
        }
    }

    /// The options of the casts that adapt a file's schema under these options.
    pub open spec fn adapting_cast(&self) -> SparkCastOptions {
        SparkCastOptions {
            eval_mode: self.eval_mode,
            timezone: self.timezone,
            allow_incompat: self.allow_incompat,
            allow_cast_unsigned_ints: self.allow_cast_unsigned_ints,
            is_adapting_schema: true,
        }
    }

    /// The options of the casts that adapt a file's schema under these options.
    pub fn cast_options(&self) -> (r: SparkCastOptions)
        ensures
            r == self.adapting_cast(),
    {
        SparkCastOptions {
            eval_mode: self.eval_mode,
            timezone: self.timezone.clone(),
            allow_incompat: self.allow_incompat,
            allow_cast_unsigned_ints: self.allow_cast_unsigned_ints,
            is_adapting_schema: true,
        }
    }
}

} // verus!
