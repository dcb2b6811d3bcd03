//! What adapting an expression to a file comes to, in terms of the fields of the two schemas, the
//! default values and the options alone.

use crate::adapter::{DefaultValue, SparkPhysicalExprAdapter, SparkPhysicalExprAdapterFactory};
use crate::case_tables::{CaseData, JvmCaseTables};
use crate::casts::cast_verdict;
use crate::errors::{catalog_name, primitive_name, Problem, SparkError};
use crate::expr::{all_column_names, column_names, outcome, Expr, Failure, RewriteError, Tree};
use crate::lowercase::{data_of, same_name};
use crate::options::{SparkCastOptions, SparkParquetOptions};
use crate::remap::{
    lemma_exact_names_stay, matches_by_id, new_name, remap_physical_schema, MatchRules,
};
use crate::remap_laws::lemma_two_in_filter;
use crate::renaming_laws::{
    by_identifier, carries_id, lemma_by_identifier, lemma_few_in_filter, lemma_filtered_names,
    lists_positions, names_at,
};
use crate::rewrite::{check_column_duplicate, last_default, names_like, Pass};
use crate::rewrite_laws::lemma_all_rewritten;
use crate::schema::{
    index_by_name, is_named, same_type, DataType, FieldRef, FieldView, Schema, SchemaRef,
};
use crate::search::{first_index_is_least, lemma_found, lemma_not_found};
use crate::string_map::StringMap;
use crate::text::joined;
use vstd::prelude::*;

verus! {

// ---------------------------------------------------------------------------------------------
// Which field a name leads to
// ---------------------------------------------------------------------------------------------

/// The case data of an adapter's options.
pub open spec fn case_data(a: &SparkPhysicalExprAdapter) -> Option<CaseData> {
    match a.parquet_options.jvm_case_tables {
        Some(t) => Some(t@),
        None => None,
    }
}

/// Whether a field answers to a name: exactly, or up to case where case does not matter.
pub open spec fn answers_to(
    a: &SparkPhysicalExprAdapter,
    field: FieldRef,
    name: Seq<char>,
) -> bool {
    if a.parquet_options.case_sensitive {
        field.name@ == name
    } else {
        same_name(field.name@, name, case_data(a))
    }
}

/// Whether `i` is the position of the first field that answers to a name.
pub open spec fn leads_to(
    a: &SparkPhysicalExprAdapter,
    fields: Seq<FieldRef>,
    name: Seq<char>,
    i: int,
) -> bool {
    &&& 0 <= i < fields.len()
    &&& answers_to(a, fields[i], name)
    &&& forall|j: int| 0 <= j < i ==> !answers_to(a, #[trigger] fields[j], name)
}

/// Whether no field answers to a name.
pub open spec fn leads_nowhere(
    a: &SparkPhysicalExprAdapter,
    fields: Seq<FieldRef>,
    name: Seq<char>,
) -> bool {
    forall|j: int| 0 <= j < fields.len() ==> !answers_to(a, #[trigger] fields[j], name)
}

/// Whether `k` is the position of the first field with exactly this name.
pub open spec fn is_first_named(fields: Seq<FieldRef>, name: Seq<char>, k: int) -> bool {
    &&& 0 <= k < fields.len()
    &&& fields[k].name@ == name
    &&& forall|j: int| 0 <= j < k ==> (#[trigger] fields[j]).name@ != name
}

/// Whether no field has exactly this name.
pub open spec fn is_nowhere_named(fields: Seq<FieldRef>, name: Seq<char>) -> bool {
    forall|j: int| 0 <= j < fields.len() ==> (#[trigger] fields[j]).name@ != name
}

proof fn lemma_position(
    a: &SparkPhysicalExprAdapter,
    fields: Seq<FieldRef>,
    name: Seq<char>,
    i: int,
)
    ensures
        leads_to(a, fields, name, i) ==> a.position(fields, name) == Some(i),
        leads_nowhere(a, fields, name) ==> a.position(fields, name) is None,
        a.position(fields, name) is None ==> leads_nowhere(a, fields, name),
{
    let p = |f: FieldRef| a.is_found(f, name);
    assert(case_data(a) == data_of(a.parquet_options.tables()));
    assert forall|f: FieldRef| #[trigger] answers_to(a, f, name) == p(f) by {}
    first_index_is_least(fields, p);
    if leads_to(a, fields, name, i) {
        assert forall|j: int| 0 <= j < i implies !p(#[trigger] fields[j]) by {
            assert(!answers_to(a, fields[j], name));
        }
        lemma_found(fields, p, i);
    }
    if leads_nowhere(a, fields, name) {
        assert forall|j: int| 0 <= j < fields.len() implies !p(#[trigger] fields[j]) by {
            assert(!answers_to(a, fields[j], name));
        }
        lemma_not_found(fields, p);
    }
}

proof fn lemma_index_by_name(fields: Seq<FieldRef>, name: Seq<char>, k: int)
    ensures
        is_first_named(fields, name, k) ==> index_by_name(fields, name) == Some(k),
        is_nowhere_named(fields, name) ==> index_by_name(fields, name) is None,
{
    let p = |f: FieldRef| is_named(f, name);
    if is_first_named(fields, name, k) {
        assert forall|j: int| 0 <= j < k implies !p(#[trigger] fields[j]) by {}
        lemma_found(fields, p, k);
    }
    if is_nowhere_named(fields, name) {
        assert forall|j: int| 0 <= j < fields.len() implies !p(#[trigger] fields[j]) by {}
        lemma_not_found(fields, p);
    }
}

// ---------------------------------------------------------------------------------------------
// Default values
// ---------------------------------------------------------------------------------------------

/// Whether `j` is the position of the last default value of a name.
pub open spec fn is_last_default(a: &SparkPhysicalExprAdapter, name: Seq<char>, j: int) -> bool {
    a.default_values matches Some(d) && {
        &&& 0 <= j < d@.len()
        &&& d@[j].column.name@ == name
        &&& forall|i: int| j < i < d@.len() ==> (#[trigger] d@[i]).column.name@ != name
    }
}

/// Whether no default value has this name.
pub open spec fn has_no_default(a: &SparkPhysicalExprAdapter, name: Seq<char>) -> bool {
    a.default_values matches Some(d) ==> forall|i: int|
        0 <= i < d@.len() ==> (#[trigger] d@[i]).column.name@ != name
}

proof fn lemma_last_default(a: &SparkPhysicalExprAdapter, name: Seq<char>, j: int, n: int)
    requires
        0 <= n <= a.defaults().len(),
    ensures
        is_last_default(a, name, j) && j < n ==> last_default(a.defaults().take(n), name) == Some(
            j,
        ),
        has_no_default(a, name) ==> last_default(a.defaults().take(n), name) is None,
    decreases n,
{
    let s = a.defaults().take(n);
    if n > 0 {
        lemma_last_default(a, name, j, n - 1);
        assert(s.drop_last() =~= a.defaults().take(n - 1));
        assert(s.last() == a.defaults()[n - 1]);
        if let Some(d) = a.default_values {
            assert(d@ == a.defaults());
            if is_last_default(a, name, j) && j < n - 1 {
                assert(d@[n - 1].column.name@ != name);
            }
        }
    }
}

/// A column that the file lacks becomes the last default value of exactly its name, converted to
/// the type of the first requested field of exactly that name if it is another type. A column that
/// the file has, or that has no default value, stays.
pub proof fn missing_columns_become_their_last_default(
    a: &SparkPhysicalExprAdapter,
    name: Seq<char>,
    index: usize,
    i: int,
    j: int,
    k: int,
)
    ensures
        ({
            let column = Tree::Column { name, index };
            let filled = a.rewritten(Pass::FillDefaults, column);
            let logical = a.logical_file_schema.fields@;
            let physical = a.physical_file_schema.fields@;
            &&& leads_to(a, physical, name, i) ==> filled == Ok::<Tree, Failure>(column)
            &&& has_no_default(a, name) ==> filled == Ok::<Tree, Failure>(column)
            &&& leads_nowhere(a, physical, name) && is_last_default(a, name, j) ==> {
                &&& filled matches Ok(Tree::DefaultValue { position, .. }) && position == j
                &&& filled matches Ok(Tree::DefaultValue { convert_to, .. }) ==> {
                    &&& is_nowhere_named(logical, name) ==> convert_to is None
                    &&& is_first_named(logical, name, k) ==> convert_to == if same_type(
                        *a.default_values->0@[j].data_type,
                        *logical[k].data_type,
                    ) {
                        None
                    } else {
                        Some(logical[k].data_type)
                    }
                }
            }
        }),
{
    let logical = a.logical_file_schema.fields@;
    let physical = a.physical_file_schema.fields@;
    lemma_position(a, physical, name, i);
    lemma_index_by_name(logical, name, k);
    let n = a.defaults().len() as int;
    lemma_last_default(a, name, j, n);
    assert(a.defaults().take(n) =~= a.defaults());
    if let Some(d) = a.default_values {
        assert(d.len() == d@.len());
    }
}

// ---------------------------------------------------------------------------------------------
// Columns of another type
// ---------------------------------------------------------------------------------------------

/// Strings and byte arrays.
pub open spec fn is_text(dt: DataType) -> bool {
    dt is Utf8 || dt is LargeUtf8 || dt is Binary || dt is LargeBinary
}

/// The report that a column, stored as one type, cannot be read as another.
pub open spec fn refusal(name: Seq<char>, physical: DataType, target: DataType) -> Failure {
    Failure::Spark(
        Problem::SchemaConvert {
            file_path: seq![],
            column: "["@ + name + "]"@,
            physical_type: primitive_name(physical),
            spark_type: catalog_name(target),
        },
    )
}

/// A column that both schemas have gets its position in the file. It stays bare only where the two
/// types are the same, down to every nested field, and is otherwise cast from the file's field to
/// the requested one; only text that is not asked for as text is refused. A column that one of the
/// schemas lacks stays as it is.
pub proof fn columns_of_another_type_are_cast(
    a: &SparkPhysicalExprAdapter,
    name: Seq<char>,
    index: usize,
    l: int,
    p: int,
)
    ensures
        ({
            let column = Tree::Column { name, index };
            let wrapped = a.rewritten(Pass::WrapMismatches, column);
            let logical = a.logical_file_schema.fields@;
            let physical = a.physical_file_schema.fields@;
            &&& leads_nowhere(a, logical, name) ==> wrapped == Ok::<Tree, Failure>(column)
            &&& leads_nowhere(a, physical, name) ==> wrapped == Ok::<Tree, Failure>(column)
            &&& leads_to(a, logical, name, l) && leads_to(a, physical, name, p) ==> {
                let wanted = *logical[l].data_type;
                let stored = *physical[p].data_type;
                &&& wrapped is Ok && wrapped->Ok_0 is Column <==> same_type(wanted, stored)
                &&& wrapped is Err <==> !same_type(wanted, stored) && is_text(stored) && !is_text(
                    wanted,
                )
                &&& wrapped matches Ok(Tree::Column { name: n, index: i }) ==> n == name && i == p
                &&& wrapped matches Err(f) ==> f == refusal(physical[p].name@, stored, wanted)
                &&& wrapped matches Ok(u) ==> u is Column || (u matches Tree::ParquetCast {
                    child,
                    input_field,
                    target_field,
                    options,
                } && (*child matches Tree::Column { name: n, index: i } && n == name && i == p)
                    && input_field == physical[p]@ && target_field == logical[l]@ && options
                    == a.parquet_options)
            }
        }),
{
    let logical = a.logical_file_schema.fields@;
    let physical = a.physical_file_schema.fields@;
    lemma_position(a, logical, name, l);
    lemma_position(a, physical, name, p);
    assert(a.physical_file_schema.fields.len() == physical.len());
}

// ---------------------------------------------------------------------------------------------
// Casts
// ---------------------------------------------------------------------------------------------

/// The cast of a column is decided by the file's field at the column's position, the cast of any
/// other operand by the type of the operand, under the name of the requested field. A cast to the
/// type that is there goes away; the others keep their operand, and are made from the field to the
/// requested field, refused at once, or refused on rows, as the rules for the two types have it.
pub proof fn casts_become_what_the_rules_say(
    a: &SparkPhysicalExprAdapter,
    t: Tree,
    c: Tree,
    input: FieldView,
)
    requires
        t is Cast,
        a.rewritten(Pass::ReplaceCasts, *t->Cast_child) == Ok::<Tree, Failure>(c),
        match c {
            Tree::Column { index, .. } => input
                == a.physical_file_schema.fields@[index as int]@,
            _ => t->child_type matches Some(dt) ==> input.name == t->Cast_target_field.name
                && input.data_type == *dt && input.nullable && input.metadata == Map::<
                Seq<char>,
                Seq<char>,
            >::empty(),
        },
    ensures
        ({
            let r = a.rewritten(Pass::ReplaceCasts, t);
            let target = t->Cast_target_field;
            let verdict = cast_verdict(
                input.data_type,
                target.data_type,
                a.parquet_options.allow_type_promotion,
                a.parquet_options.allow_timestamp_ltz_to_ntz,
            );
            if !(c is Column) && t->child_type is None {
                r == Err::<Tree, Failure>(Failure::UntypedOperand(t->Cast_node))
            } else {
                &&& verdict is Identity ==> r == Ok::<Tree, Failure>(c)
                &&& verdict is Refused ==> r == Err::<Tree, Failure>(
                    refusal(input.name, input.data_type, target.data_type),
                )
                &&& verdict is RefusedOnRows ==> (r matches Ok(Tree::Reject { child, rejection })
                    && *child == c && rejection.target_field == target && rejection.column
                    == "["@ + input.name + "]"@ && rejection.physical_type == primitive_name(
                    input.data_type,
                ) && rejection.spark_type == catalog_name(target.data_type))
                &&& verdict is ParquetConvert ==> (r matches Ok(
                    Tree::ParquetCast { child, input_field, target_field, options },
                ) && *child == c && input_field == input && target_field == target && options
                    == a.parquet_options)
                &&& verdict is SparkCast ==> (r matches Ok(
                    Tree::SparkCast { child, target_type, cast_options },
                ) && *child == c && target_type == target.data_type && cast_options.eval_mode
                    == a.parquet_options.eval_mode && cast_options.timezone
                    == a.parquet_options.timezone && cast_options.allow_incompat
                    == a.parquet_options.allow_incompat && cast_options.allow_cast_unsigned_ints
                    == a.parquet_options.allow_cast_unsigned_ints
                    && cast_options.is_adapting_schema)
            }
        }),
{
    if !(c is Column) {
        if let Some(dt) = t->child_type {
            assert(input == (FieldView {
                name: t->Cast_target_field.name,
                data_type: *dt,
                nullable: true,
                metadata: Map::<Seq<char>, Seq<char>>::empty(),
            }));
        }
    }
}

/// The casts that adapt a file's schema go by the options of the scan, and are marked as such.
pub proof fn casts_go_by_the_options_of_the_scan(o: &SparkParquetOptions, c: SparkCastOptions)
    requires
        call_ensures(SparkParquetOptions::cast_options, (o,), c),
    ensures
        c.eval_mode == o.eval_mode,
        c.timezone@ == o.timezone@,
        c.allow_incompat == o.allow_incompat,
        c.allow_cast_unsigned_ints == o.allow_cast_unsigned_ints,
        c.is_adapting_schema,
{
}

/// The case data of a scan are those of its options.
pub proof fn case_tables_are_those_of_the_options(
    o: &SparkParquetOptions,
    r: Option<&JvmCaseTables>,
)
    requires
        call_ensures(SparkParquetOptions::case_tables, (o,), r),
    ensures
        r is Some <==> o.jvm_case_tables is Some,
        r matches Some(t) ==> t@ == o.jvm_case_tables->0@,
{
}

// ---------------------------------------------------------------------------------------------
// Names
// ---------------------------------------------------------------------------------------------

/// The name that a column has in the file.
pub open spec fn name_in_file(a: &SparkPhysicalExprAdapter, name: Seq<char>) -> Seq<char> {
    match a.logical_to_physical_names {
        Some(names) => if names@.contains_key(name) {
            names@[name]
        } else {
            name
        },
        None => name,
    }
}

/// A column gets the name that the map of names has for it, or keeps its own, and stays at its
/// position.
pub proof fn columns_get_the_names_of_the_file(
    a: &SparkPhysicalExprAdapter,
    name: Seq<char>,
    index: usize,
)
    ensures
        a.rewritten(Pass::RestoreNames, Tree::Column { name, index }) == Ok::<Tree, Failure>(
            Tree::Column { name: name_in_file(a, name), index },
        ),
{
}

/// Whether `after` holds the names of `before`, each replaced with the one that it has in the file.
pub open spec fn are_names_in_file(
    a: &SparkPhysicalExprAdapter,
    before: Seq<Seq<char>>,
    after: Seq<Seq<char>>,
) -> bool {
    &&& after.len() == before.len()
    &&& forall|i: int|
        0 <= i < before.len() ==> #[trigger] after[i] == match a.logical_to_physical_names {
            Some(names) => if names@.contains_key(before[i]) {
                names@[before[i]]
            } else {
                before[i]
            },
            None => before[i],
        }
}

proof fn lemma_all_names_in_file(a: &SparkPhysicalExprAdapter, ts: Seq<Tree>, us: Seq<Tree>)
    requires
        ts.len() == us.len(),
        forall|i: int|
            0 <= i < ts.len() ==> are_names_in_file(
                a,
                column_names(#[trigger] ts[i]),
                column_names(us[i]),
            ),
    ensures
        are_names_in_file(a, all_column_names(ts), all_column_names(us)),
    decreases ts.len(),
{
    if ts.len() > 0 {
        let t0 = ts.drop_last();
        let u0 = us.drop_last();
        assert forall|i: int| 0 <= i < t0.len() implies are_names_in_file(
            a,
            column_names(#[trigger] t0[i]),
            column_names(u0[i]),
        ) by {
            assert(are_names_in_file(a, column_names(ts[i]), column_names(us[i])));
        }
        lemma_all_names_in_file(a, t0, u0);
        let n = ts.len() - 1;
        assert(are_names_in_file(a, column_names(ts[n]), column_names(us[n])));
        let front = all_column_names(t0);
        let back = column_names(ts[n]);
        let before = all_column_names(ts);
        let after = all_column_names(us);
        assert(before == front + back);
        assert(after == all_column_names(u0) + column_names(us[n]));
        assert forall|i: int| 0 <= i < before.len() implies #[trigger] after[i]
            == name_in_file(a, before[i]) by {
            if i < front.len() {
                assert(after[i] == all_column_names(u0)[i]);
                assert(before[i] == front[i]);
            } else {
                assert(after[i] == column_names(us[n])[i - front.len()]);
                assert(before[i] == back[i - front.len()]);
            }
        }
    }
}

proof fn lemma_names_in_file(a: &SparkPhysicalExprAdapter, t: Tree)
    ensures
        a.rewritten(Pass::RestoreNames, t) matches Ok(u) && are_names_in_file(
            a,
            column_names(t),
            column_names(u),
        ),
    decreases t,
{
    match t {
        Tree::Column { name, index } => {
            let u = Tree::Column { name: name_in_file(a, name), index };
            assert(a.rewritten(Pass::RestoreNames, t) == Ok::<Tree, Failure>(u));
            assert(column_names(t) =~= seq![name]);
            assert(column_names(u) =~= seq![name_in_file(a, name)]);
        },
        Tree::DefaultValue { .. } => {},
        Tree::Cast { child, .. } => lemma_names_in_file(a, *child),
        Tree::Other { node, children } => {
            assert forall|i: int| 0 <= i < children.len() implies (a.rewritten(
                Pass::RestoreNames,
                #[trigger] children[i],
            ) matches Ok(u) && are_names_in_file(
                a,
                column_names(children[i]),
                column_names(u),
            )) by {
                assert(decreases_to!(children => children[i]));
                lemma_names_in_file(a, children[i]);
            }
            lemma_all_rewritten(a, Pass::RestoreNames, children);
            if let Ok(us) = a.all_rewritten(Pass::RestoreNames, children) {
                lemma_all_names_in_file(a, children, us);
                assert(column_names(t) == all_column_names(children));
                assert(column_names(Tree::Other { node, children: us }) == all_column_names(us));
            }
        },
        Tree::Reject { child, .. } => lemma_names_in_file(a, *child),
        Tree::ParquetCast { child, .. } => lemma_names_in_file(a, *child),
        Tree::SparkCast { child, .. } => lemma_names_in_file(a, *child),
    }
}

/// Restoring names never fails, and leaves every column of an expression, at any depth, under the
/// name that the map of names leads to, and under its own where the map has none.
pub proof fn every_column_gets_the_name_of_the_file(
    a: &SparkPhysicalExprAdapter,
    expr: Expr,
    r: Result<Expr, RewriteError>,
)
    requires
        call_ensures(SparkPhysicalExprAdapter::restore_names, (a, expr), r),
    ensures
        a.rewritten(Pass::RestoreNames, expr@) matches Ok(u) && are_names_in_file(
            a,
            column_names(expr@),
            column_names(u),
        ),
        r matches Ok(u) && are_names_in_file(a, column_names(expr@), column_names(u@)),
{
    lemma_names_in_file(a, expr@);
}

// ---------------------------------------------------------------------------------------------
// Duplicates
// ---------------------------------------------------------------------------------------------

/// A name is reported as a duplicate if and only if two fields have it up to case, and with the
/// names of all fields that do, in order, separated by commas and in brackets.
pub proof fn fields_of_one_name_are_reported(
    name: &str,
    schema: &Schema,
    tables: Option<&JvmCaseTables>,
    r: Option<(String, String)>,
    at: Seq<int>,
)
    requires
        call_ensures(check_column_duplicate, (name, schema, tables), r),
        lists_positions(
            at,
            schema.fields@,
            |f: FieldRef| same_name(f.name@, name@, data_of(tables)),
        ),
    ensures
        r is Some <==> at.len() > 1,
        r matches Some((n, shown)) ==> n@ == name@ && shown@ == "["@ + joined(
            names_at(schema.fields@, at),
            ", "@,
        ) + "]"@,
{
    let n = name@;
    let data = data_of(tables);
    lemma_filtered_names(schema.fields@, |f: FieldRef| same_name(f.name@, n, data), at);
}

/// Whether the column of a name is requested by identifier: fields are matched by identifier, and
/// the first requested field of exactly this name carries one.
pub open spec fn goes_by_identifier(a: &SparkPhysicalExprAdapter, name: Seq<char>) -> bool {
    let logical = a.logical_file_schema.fields@;
    by_identifier(logical, a.parquet_options.use_field_id) && exists|k: int|
        is_first_named(logical, name, k) && carries_id(#[trigger] logical[k])
}

/// Whether a name is refused: case does not matter, the name does not go by identifier, and two
/// columns of the file have it up to case.
pub open spec fn is_duplicate(a: &SparkPhysicalExprAdapter, name: Seq<char>) -> bool {
    &&& !goes_by_identifier(a, name)
    &&& a.original_physical_schema matches Some(file) && exists|i: int, j: int|
        0 <= i < j < file.fields@.len() && same_name(
            (#[trigger] file.fields@[i]).name@,
            name,
            case_data(a),
        ) && same_name((#[trigger] file.fields@[j]).name@, name, case_data(a))
}

proof fn lemma_goes_by_identifier(a: &SparkPhysicalExprAdapter, name: Seq<char>)
    ensures
        a.is_routed_by_id(name) == goes_by_identifier(a, name),
{
    let logical = a.logical_file_schema.fields@;
    lemma_by_identifier(logical, a.parquet_options.use_field_id);
    first_index_is_least(logical, |f: FieldRef| is_named(f, name));
    if goes_by_identifier(a, name) {
        let k = choose|k: int|
            is_first_named(logical, name, k) && carries_id(#[trigger] logical[k]);
        lemma_index_by_name(logical, name, k);
    }
    if a.is_routed_by_id(name) {
        let k = index_by_name(logical, name)->0;
        assert(is_first_named(logical, name, k)) by {
            assert forall|j: int| 0 <= j < k implies (#[trigger] logical[j]).name@ != name by {
                assert(!is_named(logical[j], name));
            }
        }
        assert(carries_id(logical[k]));
    }
}

proof fn lemma_duplicate(a: &SparkPhysicalExprAdapter, name: Seq<char>)
    ensures
        a.duplicate_of(name) is Some == is_duplicate(a, name),
{
    lemma_goes_by_identifier(a, name);
    if let Some(file) = a.original_physical_schema {
        let fields = file.fields@;
        let tables = data_of(a.parquet_options.tables());
        assert(tables == case_data(a));
        let wanted = |f: FieldRef| same_name(f.name@, name, tables);
        assert(names_like(fields, name, tables).len() == fields.filter(wanted).len());
        if is_duplicate(a, name) {
            let (i, j) = choose|i: int, j: int|
                0 <= i < j < fields.len() && same_name(
                    (#[trigger] fields[i]).name@,
                    name,
                    tables,
                ) && same_name((#[trigger] fields[j]).name@, name, tables);
            lemma_two_in_filter(fields, wanted, i, j);
        }
        if fields.filter(wanted).len() > 1 {
            lemma_few_in_filter(fields, wanted);
            let (i, j) = choose|i: int, j: int|
                0 <= i < j < fields.len() && wanted(#[trigger] fields[i]) && wanted(
                    #[trigger] fields[j],
                );
            assert(same_name(fields[i].name@, name, tables) && same_name(
                fields[j].name@,
                name,
                tables,
            ));
        }
    }
}

proof fn lemma_last_duplicate(a: &SparkPhysicalExprAdapter, names: Seq<Seq<char>>, n: int)
    requires
        -1 <= n < names.len(),
        n >= 0 ==> is_duplicate(a, names[n]),
        forall|i: int| n < i < names.len() ==> !is_duplicate(a, #[trigger] names[i]),
    ensures
        n < 0 ==> a.last_duplicate(names) is None,
        n >= 0 ==> a.last_duplicate(names) == a.duplicate_of(names[n]),
    decreases names.len(),
{
    if names.len() > 0 {
        lemma_duplicate(a, names.last());
        if n < names.len() - 1 {
            assert(!is_duplicate(a, names[names.len() - 1]));
            lemma_last_duplicate(a, names.drop_last(), n);
        }
    }
}

/// The first half of rewriting refuses an expression for the last of its columns that is a
/// duplicate, and tells all columns of the file that have its name up to case, in order. An
/// expression without one is handed on with its default values filled in.
pub proof fn duplicates_are_refused_before_anything_else(
    a: &SparkPhysicalExprAdapter,
    expr: Expr,
    r: Result<Expr, RewriteError>,
    filled: Result<Expr, RewriteError>,
    n: int,
    at: Seq<int>,
)
    requires
        call_ensures(SparkPhysicalExprAdapter::begin_rewrite, (a, expr), r),
        call_ensures(
            SparkPhysicalExprAdapter::replace_missing_with_defaults,
            (a, expr),
            filled,
        ),
        -1 <= n < column_names(expr@).len(),
        n >= 0 ==> is_duplicate(a, column_names(expr@)[n]) && lists_positions(
            at,
            a.original_physical_schema->0.fields@,
            |f: FieldRef| same_name(f.name@, column_names(expr@)[n], case_data(a)),
        ),
        forall|i: int|
            n < i < column_names(expr@).len() ==> !is_duplicate(
                a,
                #[trigger] column_names(expr@)[i],
            ),
    ensures
        n < 0 ==> outcome(r) == outcome(filled),
        n >= 0 ==> outcome(r) == Err::<Tree, Failure>(
            Failure::Spark(
                Problem::DuplicateName {
                    required_field_name: column_names(expr@)[n],
                    matched_fields: "["@ + joined(
                        names_at(a.original_physical_schema->0.fields@, at),
                        ", "@,
                    ) + "]"@,
                },
            ),
        ),
{
    let names = column_names(expr@);
    lemma_last_duplicate(a, names, n);
    if n >= 0 {
        lemma_duplicate(a, names[n]);
        let name = names[n];
        let data = case_data(a);
        let fields = a.original_physical_schema->0.fields@;
        assert(data == data_of(a.parquet_options.tables()));
        let wanted = |f: FieldRef| same_name(f.name@, name, data);
        assert(wanted =~= (|f: FieldRef| same_name(f.name@, column_names(expr@)[n], case_data(a))));
        lemma_filtered_names(fields, wanted, at);
    }
}

/// The second half of rewriting replaces the casts of what came out of the general adaptation, or
/// casts column by column where that failed, and then restores the names.
pub proof fn casts_are_made_before_names_are_restored(
    a: &SparkPhysicalExprAdapter,
    begun: Expr,
    adapted: Option<Expr>,
    r: Result<Expr, RewriteError>,
    cast: Result<Expr, RewriteError>,
    named: Result<Expr, RewriteError>,
)
    requires
        call_ensures(SparkPhysicalExprAdapter::finish_rewrite, (a, begun, adapted), r),
        match adapted {
            Some(e) => call_ensures(SparkPhysicalExprAdapter::replace_casts, (a, e), cast),
            None => call_ensures(
                SparkPhysicalExprAdapter::wrap_all_type_mismatches,
                (a, begun),
                cast,
            ),
        },
        cast matches Ok(e) ==> call_ensures(SparkPhysicalExprAdapter::restore_names, (a, e), named),
    ensures
        cast is Err ==> outcome(r) == outcome(cast),
        cast is Ok ==> outcome(r) == outcome(named),
{
}

// ---------------------------------------------------------------------------------------------
// Adapters
// ---------------------------------------------------------------------------------------------

/// A factory keeps the options and the default values that it is given.
pub proof fn factories_keep_what_they_are_given(
    options: SparkParquetOptions,
    defaults: Option<Vec<DefaultValue>>,
    f: SparkPhysicalExprAdapterFactory,
)
    requires
        call_ensures(SparkPhysicalExprAdapterFactory::new, (options, defaults), f),
    ensures
        *f.parquet_options == options,
        f.default_values is Some <==> defaults is Some,
        f.default_values matches Some(d) ==> d@ == defaults->0@,
{
}

/// An adapter stands between the schema that the query asks for and the schema of the file as
/// renaming leaves it, with the way back to the file's names, and keeps the options and default
/// values of the factory. Where names must agree exactly and no identifier is asked for, the
/// file's schema is taken as it is. What renaming refuses is refused.
pub proof fn adapters_stand_between_query_and_renamed_file(
    factory: &SparkPhysicalExprAdapterFactory,
    logical: SchemaRef,
    physical: SchemaRef,
    r: Result<SparkPhysicalExprAdapter, SparkError>,
    renaming: Result<(SchemaRef, StringMap), SparkError>,
)
    requires
        call_ensures(SparkPhysicalExprAdapterFactory::create, (factory, logical, physical), r),
        call_ensures(
            remap_physical_schema,
            (
                &*logical,
                &*physical,
                factory.parquet_options.case_sensitive,
                factory.parquet_options.tables(),
                factory.parquet_options.use_field_id,
                factory.parquet_options.ignore_missing_field_id,
            ),
            renaming,
        ),
    ensures
        ({
            let exact = factory.parquet_options.case_sensitive;
            let as_it_is = exact && !by_identifier(
                logical.fields@,
                factory.parquet_options.use_field_id,
            );
            &&& as_it_is ==> r is Ok
            &&& !as_it_is ==> (r is Ok <==> renaming is Ok)
            &&& !as_it_is ==> (r matches Err(e) ==> e@ == renaming->Err_0@)
            &&& r matches Ok(a) ==> {
                &&& a.logical_file_schema == logical
                &&& a.parquet_options == factory.parquet_options
                &&& a.default_values == factory.default_values
                &&& a.original_physical_schema is Some <==> !exact
                &&& a.original_physical_schema matches Some(s) ==> s == physical
                &&& as_it_is ==> a.physical_file_schema == physical
                    && a.logical_to_physical_names is None
                &&& !as_it_is ==> {
                    let (schema, names) = renaming->Ok_0;
                    &&& a.physical_file_schema.fields@.len() == schema.fields@.len()
                    &&& forall|i: int|
                        0 <= i < schema.fields@.len() ==> (
                        #[trigger] a.physical_file_schema.fields@[i])@ == schema.fields@[i]@
                    &&& a.logical_to_physical_names is Some <==> names@ != Map::<
                        Seq<char>,
                        Seq<char>,
                    >::empty()
                    &&& a.logical_to_physical_names matches Some(m) ==> m@ == names@
                }
            }
        }),
{
    lemma_by_identifier(logical.fields@, factory.parquet_options.use_field_id);
    let n = physical.fields@.len() as int;
    let rules = MatchRules {
        case_sensitive: factory.parquet_options.case_sensitive,
        tables: data_of(factory.parquet_options.tables()),
        by_id: matches_by_id(logical.fields@, factory.parquet_options.use_field_id),
    };
    if rules.case_sensitive && !rules.by_id {
        lemma_exact_names_stay(logical.fields@, physical.fields@, rules, n);
    } else if let (Ok(a), Ok((schema, _))) = (r, renaming) {
        assert(a.rules() == rules);
        assert forall|i: int| 0 <= i < schema.fields@.len() implies (
        #[trigger] a.physical_file_schema.fields@[i])@ == schema.fields@[i]@ by {
            assert(schema.fields@[i]@ == physical.fields@[i]@.renamed(
                new_name(logical.fields@, physical.fields@, rules, i),
            ));
        }
    }
}

} // verus!
