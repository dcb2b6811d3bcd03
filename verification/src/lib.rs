//! Schema adaptation for Parquet scans: which column of a file a query's field is, how its values
//! are converted, and how an expression over the query's fields becomes one over the file's
//! columns, as Spark's vectorized reader has it.
//!
//! - Names: [`case_tables`] holds the case data of the JVM that planned the query, [`sigma`] the
//!   one contextual mapping, and [`lowercase`] the name equality that follows from them.
//! - Columns: [`schema`] holds types, fields and field identifiers, and [`remap`] renames the
//!   columns of a file to the names that a query asks for.
//! - Conversions: [`casts`] holds the rules, and [`errors`] what is reported of a conversion that
//!   is refused.
//! - Expressions: [`expr`] holds expressions, [`adapter`] the adapter of one query to one file, and
//!   [`rewrite`] the rewriting of expressions.
//!
//! What holds of all this beyond the contracts of single functions stands in modules of its own:
//! [`text_laws`], [`wire_laws`], [`name_laws`], [`sigma_laws`] and [`scan_laws`] for names;
//! [`schema_laws`], [`remap_laws`] and [`renaming_laws`] for columns; [`cast_laws`] and
//! [`report_laws`] for conversions; and [`traversal_laws`], [`rewrite_laws`] and [`adapting_laws`]
//! for expressions.

pub mod adapter;
pub mod adapting_laws;
pub mod case_tables;
pub mod cast_laws;
pub mod casts;
pub mod errors;
pub mod expr;
pub mod lowercase;
pub mod name_laws;
pub mod options;
pub mod remap;
pub mod remap_laws;
pub mod renaming_laws;
pub mod report_laws;
pub mod rewrite;
pub mod rewrite_laws;
pub mod scan_laws;
pub mod schema;
pub mod schema_laws;
pub mod search;
pub mod sigma;
pub mod sigma_laws;
pub mod string_map;
pub mod text;
pub mod text_laws;
pub mod traversal_laws;
pub mod wire_laws;
