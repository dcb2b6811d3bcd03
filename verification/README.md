# schema_adapter

Adapts the schema of a Parquet file to the schema that a Spark query asks for, in verified Rust.

- `src/` is the library. Verus proves the contracts of its functions. What it believes without
  proof is what the library states of the outside: `String::push`, `char::from_u32` and
  `str::to_lowercase` of std, and the metadata key of the `parquet` crate. `JvmCaseTables::hash`
  has no contract, because nothing is known of an arbitrary hasher. The modules whose names end in
  `_laws` state what holds of several functions together.
- `app/` connects the library to DataFusion: it converts Arrow schemas and physical expressions to
  the library's types and back, runs DataFusion's default adapter between the two halves of a
  rewrite, and evaluates refused conversions on record batches.
- `tests/` runs the library on concrete schemas, names and expressions.

## Adapting a file

1. `SparkPhysicalExprAdapterFactory::create` matches the requested fields with the columns of the
   file, by identifier and by name, and renames the columns accordingly.
2. `SparkPhysicalExprAdapter::begin_rewrite` refuses ambiguous columns and fills in default values.
3. DataFusion's default adapter inserts plain casts where types differ.
4. `SparkPhysicalExprAdapter::finish_rewrite` replaces those casts with what Spark would do, or
   casts column by column where step 3 failed, and gives the columns the names of the file back.
