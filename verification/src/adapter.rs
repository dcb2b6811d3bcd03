//! Adapting expressions over a query's schema to the schema of a file.

use crate::errors::SparkError;
use crate::expr::Column;
use crate::lowercase::data_of;
use crate::options::SparkParquetOptions;
use crate::remap::{
    id_problem, is_renaming, lemma_exact_names_stay, matches_by_id, name_map,
    remap_physical_schema, MatchRules,
};
use crate::schema::{schema_has_field_ids, DataType, SchemaRef};
use crate::string_map::StringMap;
use std::sync::Arc;
use vstd::prelude::*;

verus! {

/// A default value for a column that a file may lack. The value itself is known by its position
/// among the default values.
#[derive(Debug)]
pub struct DefaultValue {
    pub column: Column,
    pub data_type: Arc<DataType>,
}

/// Makes adapters that inject Spark-compatible casts where they are needed.
#[derive(Clone, Debug)]
pub struct SparkPhysicalExprAdapterFactory {
    /// Options for conversions.
    pub parquet_options: Arc<SparkParquetOptions>,
    /// Default values for columns that a file may lack; the last one of a name counts.
    pub default_values: Option<Arc<Vec<DefaultValue>>>,
}

/// Adapts expressions over one query's schema to the schema of one file.
#[derive(Debug)]
pub struct SparkPhysicalExprAdapter {
    /// The schema that the query asks for.
    pub logical_file_schema: SchemaRef,
    /// The schema of the file, under the names that the query asks for.
    pub physical_file_schema: SchemaRef,
    /// Options for conversions.
    pub parquet_options: Arc<SparkParquetOptions>,
    /// Default values for columns that a file may lack.
    pub default_values: Option<Arc<Vec<DefaultValue>>>,
    /// From the names that columns were given to the names that they have in the file.
    pub logical_to_physical_names: Option<StringMap>,
    /// The schema of the file as it is, for finding duplicates up to case.
    pub original_physical_schema: Option<SchemaRef>,
}

impl SparkPhysicalExprAdapter {
    /// How requested fields are matched with columns of a file.
    pub open spec fn rules(&self) -> MatchRules {
        MatchRules {
            case_sensitive: self.parquet_options.case_sensitive,
            tables: data_of(self.parquet_options.tables()),
            by_id: matches_by_id(
                self.logical_file_schema.fields@,
                self.parquet_options.use_field_id,
            ),
        }
    }

    /// Whether this is an adapter to a file of this schema: its columns stand under the names
    /// that the query asks for, and the way back to their own names is known. The schema itself
    /// is kept where names are matched up to case.
    pub open spec fn is_for(&self, file_schema: SchemaRef) -> bool {
        let logical = self.logical_file_schema.fields@;
        let physical = file_schema.fields@;
        let rules = self.rules();
        let names = name_map(logical, physical, rules, physical.len() as int);
        &&& rules.by_id ==> id_problem(
            logical,
            physical,
            self.parquet_options.ignore_missing_field_id,
        ) is None
        &&& if rules.case_sensitive && !rules.by_id {
            self.physical_file_schema == file_schema
        } else {
            is_renaming(logical, physical, rules, self.physical_file_schema.fields@)
        }
        &&& match self.logical_to_physical_names {
            Some(m) => m@ == names && names != Map::<Seq<char>, Seq<char>>::empty(),
            None => names == Map::<Seq<char>, Seq<char>>::empty(),
        }
        &&& self.original_physical_schema == if rules.case_sensitive {
            None
        } else {
            Some(file_schema)
        }
    }
}

impl SparkPhysicalExprAdapterFactory {
    /// A factory with these options and default values.
    pub fn new(
        parquet_options: SparkParquetOptions,
        default_values: Option<Vec<DefaultValue>>,
    ) -> (r: Self)
        ensures
            *r.parquet_options == parquet_options,
            match (r.default_values, default_values) {
                (Some(a), Some(b)) => *a == b,
                (None, None) => true,
                _ => false,
            },
    {
        SparkPhysicalExprAdapterFactory {
            parquet_options: Arc::new(parquet_options),
            default_values: match default_values {
                Some(d) => Some(Arc::new(d)),
                None => None,
            },
        }
    }

    /// The adapter from the schema of a query to the schema of a file.
    pub fn create(&self, logical_file_schema: SchemaRef, physical_file_schema: SchemaRef) -> (r:
        Result<SparkPhysicalExprAdapter, SparkError>)
        ensures
            match r {
                Err(e) => matches_by_id(
                    logical_file_schema.fields@,
                    self.parquet_options.use_field_id,
                ) && id_problem(
                    logical_file_schema.fields@,
                    physical_file_schema.fields@,
                    self.parquet_options.ignore_missing_field_id,
                ) == Some(e@),
                Ok(a) => {
                    &&& a.logical_file_schema == logical_file_schema
                    &&& a.parquet_options == self.parquet_options
                    &&& a.default_values == self.default_values
                    &&& a.is_for(physical_file_schema)
                },
            },
    {
        let options = &self.parquet_options;
        let needs_remap: bool = !options.case_sensitive || (options.use_field_id
            && schema_has_field_ids(&logical_file_schema));
        if !needs_remap {
            proof {
                lemma_exact_names_stay(
                    logical_file_schema.fields@,
                    physical_file_schema.fields@,
                    MatchRules {
                        case_sensitive: true,
                        tables: data_of(options.tables()),
                        by_id: false,
                    },
                    physical_file_schema.fields@.len() as int,
                );
            }
            return Ok(
                SparkPhysicalExprAdapter {
                    logical_file_schema,
                    physical_file_schema,
                    parquet_options: Arc::clone(&self.parquet_options),
                    default_values: self.shared_defaults(),
                    logical_to_physical_names: None,
                    original_physical_schema: None,
                },
            );
        }
        let (remapped, names) = match remap_physical_schema(
            &logical_file_schema,
            &physical_file_schema,
            options.case_sensitive,
            options.case_tables(),
            options.use_field_id,
            options.ignore_missing_field_id,
        ) {
            Ok(found) => found,
            Err(e) => return Err(e),
        };
        let logical_to_physical_names = if names.is_empty() {
            None
        } else {
            Some(names)
        };
        let original_physical_schema = if options.case_sensitive {
            None
        } else {
            Some(physical_file_schema)
        };
        Ok(
            SparkPhysicalExprAdapter {
                logical_file_schema,
                physical_file_schema: remapped,
                parquet_options: Arc::clone(&self.parquet_options),
                default_values: self.shared_defaults(),
                logical_to_physical_names,
                original_physical_schema,
            },
        )
    }

    fn shared_defaults(&self) -> (r: Option<Arc<Vec<DefaultValue>>>)
        ensures
            r == self.default_values,
    {
        match &self.default_values {
            Some(d) => Some(Arc::clone(d)),
            None => None,
        }
    }
}

} // verus!
