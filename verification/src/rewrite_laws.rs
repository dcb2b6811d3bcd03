//! What holds of rewriting an expression for a file.

use crate::adapter::SparkPhysicalExprAdapter;
use crate::expr::{all_column_names, column_names, has_cast, Failure, Tree};
use crate::lowercase::same_name;
use crate::remap::{
    all_names, claims_name, has_id, lemma_matched_in_range, names_of, new_name, own_id, resolution,
    Resolution,
};
use crate::remap_laws::{
    fields_with_identifiers_are_found_by_identifier, identifiers_are_unambiguous,
    lemma_two_in_filter, made_up_names_are_new, names_lead_back_to_the_file,
};
use crate::rewrite::{last_default, names_like, Pass};
use crate::schema::{
    field_id, index_by_name, is_named, same_type, DataType, FieldRef, FieldView, SchemaRef,
};
use crate::search::first_index_is_least;
use std::sync::Arc;
use vstd::prelude::*;

verus! {

// ---------------------------------------------------------------------------------------------
// Several expressions
// ---------------------------------------------------------------------------------------------

/// Several expressions are rewritten one by one.
pub(crate) proof fn lemma_all_rewritten(a: &SparkPhysicalExprAdapter, pass: Pass, ts: Seq<Tree>)
    ensures
        a.all_rewritten(pass, ts) matches Ok(us) ==> us.len() == ts.len() && forall|i: int|
            0 <= i < ts.len() ==> a.rewritten(pass, #[trigger] ts[i]) == Ok::<Tree, Failure>(us[i]),
        a.all_rewritten(pass, ts) is Err ==> exists|i: int|
            0 <= i < ts.len() && a.rewritten(pass, #[trigger] ts[i]) is Err,
    decreases ts.len(),
{
    if ts.len() > 0 {
        let t0 = ts.drop_last();
        lemma_all_rewritten(a, pass, t0);
        match a.all_rewritten(pass, t0) {
            Ok(us0) => {
                match a.rewritten(pass, ts.last()) {
                    Ok(u) => {
                        let us = us0.push(u);
                        assert forall|i: int| 0 <= i < ts.len() implies a.rewritten(
                            pass,
                            #[trigger] ts[i],
                        ) == Ok::<Tree, Failure>(us[i]) by {
                            if i < t0.len() {
                                assert(t0[i] == ts[i]);
                            }
                        }
                    },
                    Err(_) => {
                        assert(a.rewritten(pass, ts[ts.len() - 1]) is Err);
                    },
                }
            },
            Err(_) => {
                let i = choose|i: int|
                    0 <= i < t0.len() && a.rewritten(pass, #[trigger] t0[i]) is Err;
                assert(a.rewritten(pass, ts[i]) is Err);
            },
        }
    }
}

/// Expressions that stay as they are stay so together.
proof fn lemma_all_stay(a: &SparkPhysicalExprAdapter, pass: Pass, ts: Seq<Tree>)
    requires
        forall|i: int|
            0 <= i < ts.len() ==> a.rewritten(pass, #[trigger] ts[i]) == Ok::<Tree, Failure>(ts[i]),
    ensures
        a.all_rewritten(pass, ts) == Ok::<Seq<Tree>, Failure>(ts),
{
    lemma_all_rewritten(a, pass, ts);
    if let Ok(us) = a.all_rewritten(pass, ts) {
        assert(us =~= ts) by {
            assert forall|i: int| 0 <= i < ts.len() implies us[i] == ts[i] by {
                assert(a.rewritten(pass, ts[i]) == Ok::<Tree, Failure>(us[i]));
            }
        }
    }
}

// ---------------------------------------------------------------------------------------------
// Casts
// ---------------------------------------------------------------------------------------------

/// No plain cast survives: each is taken away, refused, or replaced with a cast that converts as
/// Spark does.
pub proof fn no_plain_cast_survives(a: &SparkPhysicalExprAdapter, t: Tree)
    ensures
        a.rewritten(Pass::ReplaceCasts, t) matches Ok(u) ==> !has_cast(u),
    decreases t,
{
    match t {
        Tree::Column { .. } => {},
        Tree::DefaultValue { .. } => {},
        Tree::Cast { child, .. } => no_plain_cast_survives(a, *child),
        Tree::Other { node, children } => {
            lemma_all_rewritten(a, Pass::ReplaceCasts, children);
            if let Ok(us) = a.all_rewritten(Pass::ReplaceCasts, children) {
                assert forall|i: int| 0 <= i < us.len() implies !has_cast(#[trigger] us[i]) by {
                    assert(decreases_to!(children => children[i]));
                    no_plain_cast_survives(a, children[i]);
                }
                assert(!has_cast(Tree::Other { node, children: us }));
            }
        },
        Tree::Reject { child, .. } => no_plain_cast_survives(a, *child),
        Tree::ParquetCast { child, .. } => no_plain_cast_survives(a, *child),
        Tree::SparkCast { child, .. } => no_plain_cast_survives(a, *child),
    }
}

/// An expression without plain casts stays as it is.
pub proof fn expressions_without_casts_stay(a: &SparkPhysicalExprAdapter, t: Tree)
    requires
        !has_cast(t),
    ensures
        a.rewritten(Pass::ReplaceCasts, t) == Ok::<Tree, Failure>(t),
    decreases t,
{
    match t {
        Tree::Column { .. } => {},
        Tree::DefaultValue { .. } => {},
        Tree::Cast { .. } => {},
        Tree::Other { children, .. } => {
            assert forall|i: int| 0 <= i < children.len() implies a.rewritten(
                Pass::ReplaceCasts,
                #[trigger] children[i],
            ) == Ok::<Tree, Failure>(children[i]) by {
                assert(decreases_to!(children => children[i]));
                expressions_without_casts_stay(a, children[i]);
            }
            lemma_all_stay(a, Pass::ReplaceCasts, children);
        },
        Tree::Reject { child, .. } => expressions_without_casts_stay(a, *child),
        Tree::ParquetCast { child, .. } => expressions_without_casts_stay(a, *child),
        Tree::SparkCast { child, .. } => expressions_without_casts_stay(a, *child),
    }
}

/// Replacing casts a second time changes nothing.
pub proof fn casts_are_replaced_once(a: &SparkPhysicalExprAdapter, t: Tree)
    ensures
        a.rewritten(Pass::ReplaceCasts, t) matches Ok(u) ==> a.rewritten(Pass::ReplaceCasts, u)
            == Ok::<Tree, Failure>(u),
{
    no_plain_cast_survives(a, t);
    if let Ok(u) = a.rewritten(Pass::ReplaceCasts, t) {
        expressions_without_casts_stay(a, u);
    }
}

proof fn lemma_restoring_adds_no_cast(a: &SparkPhysicalExprAdapter, t: Tree)
    requires
        !has_cast(t),
    ensures
        a.rewritten(Pass::RestoreNames, t) matches Ok(u) ==> !has_cast(u),
    decreases t,
{
    match t {
        Tree::Column { .. } => {},
        Tree::DefaultValue { .. } => {},
        Tree::Cast { .. } => {},
        Tree::Other { node, children } => {
            lemma_all_rewritten(a, Pass::RestoreNames, children);
            if let Ok(us) = a.all_rewritten(Pass::RestoreNames, children) {
                assert forall|i: int| 0 <= i < us.len() implies !has_cast(#[trigger] us[i]) by {
                    assert(decreases_to!(children => children[i]));
                    lemma_restoring_adds_no_cast(a, children[i]);
                }
                assert(!has_cast(Tree::Other { node, children: us }));
            }
        },
        Tree::Reject { child, .. } => lemma_restoring_adds_no_cast(a, *child),
        Tree::ParquetCast { child, .. } => lemma_restoring_adds_no_cast(a, *child),
        Tree::SparkCast { child, .. } => lemma_restoring_adds_no_cast(a, *child),
    }
}

/// An expression whose general adaptation did not fail comes out without plain casts.
pub proof fn adapted_expressions_hold_no_plain_cast(
    a: &SparkPhysicalExprAdapter,
    begun: Tree,
    adapted: Tree,
)
    ensures
        a.finished(begun, Some(adapted)) matches Ok(u) ==> !has_cast(u),
{
    no_plain_cast_survives(a, adapted);
    if let Ok(u) = a.rewritten(Pass::ReplaceCasts, adapted) {
        lemma_restoring_adds_no_cast(a, u);
    }
}

/// What replaces a cast has the requested type: it is the operand itself only where that has
/// this type already.
pub proof fn replaced_casts_have_the_requested_type(
    a: &SparkPhysicalExprAdapter,
    node: usize,
    child: Tree,
    child_type: Option<Arc<DataType>>,
    target_field: FieldView,
    u: Tree,
)
    requires
        a.cast_replaced(
            Tree::Cast { node, child: Box::new(child), child_type, target_field },
        ) == Ok::<Tree, Failure>(u),
    ensures
        ({
            ||| u == child && (a.cast_input(child, child_type, target_field) matches Some(input)
                && same_type(input.data_type, target_field.data_type))
            ||| u matches Tree::Reject { child: c, rejection } && *c == child
                && rejection.target_field == target_field
            ||| u matches Tree::ParquetCast { child: c, target_field: target, .. } && *c == child
                && target == target_field
            ||| u matches Tree::SparkCast { child: c, target_type, .. } && *c == child
                && target_type == target_field.data_type
        }),
{
}

// ---------------------------------------------------------------------------------------------
// Default values and names
// ---------------------------------------------------------------------------------------------

/// Filling in default values and restoring names never fail.
pub proof fn filling_and_restoring_never_fail(a: &SparkPhysicalExprAdapter, pass: Pass, t: Tree)
    requires
        pass is FillDefaults || pass is RestoreNames,
    ensures
        a.rewritten(pass, t) is Ok,
    decreases t,
{
    match t {
        Tree::Column { .. } => {},
        Tree::DefaultValue { .. } => {},
        Tree::Cast { child, .. } => filling_and_restoring_never_fail(a, pass, *child),
        Tree::Other { children, .. } => {
            assert forall|i: int| 0 <= i < children.len() implies a.rewritten(
                pass,
                #[trigger] children[i],
            ) is Ok by {
                assert(decreases_to!(children => children[i]));
                filling_and_restoring_never_fail(a, pass, children[i]);
            }
            lemma_all_rewritten(a, pass, children);
        },
        Tree::Reject { child, .. } => filling_and_restoring_never_fail(a, pass, *child),
        Tree::ParquetCast { child, .. } => filling_and_restoring_never_fail(a, pass, *child),
        Tree::SparkCast { child, .. } => filling_and_restoring_never_fail(a, pass, *child),
    }
}

/// Whether a name is among the columns of an expression.
pub open spec fn mentions(t: Tree, name: Seq<char>) -> bool {
    column_names(t).contains(name)
}

proof fn lemma_mentions_some(ts: Seq<Tree>, name: Seq<char>)
    ensures
        all_column_names(ts).contains(name) <==> exists|i: int|
            0 <= i < ts.len() && mentions(#[trigger] ts[i], name),
    decreases ts.len(),
{
    if ts.len() > 0 {
        let t0 = ts.drop_last();
        let front = all_column_names(t0);
        let back = column_names(ts.last());
        lemma_mentions_some(t0, name);
        if all_column_names(ts).contains(name) {
            let k = all_column_names(ts).index_of(name);
            if k < front.len() {
                assert(front[k] == name);
                let i = choose|i: int| 0 <= i < t0.len() && mentions(#[trigger] t0[i], name);
                assert(mentions(ts[i], name));
            } else {
                assert(back[k - front.len()] == name);
                assert(mentions(ts[ts.len() - 1], name));
            }
        }
        if exists|i: int| 0 <= i < ts.len() && mentions(#[trigger] ts[i], name) {
            let i = choose|i: int| 0 <= i < ts.len() && mentions(#[trigger] ts[i], name);
            if i < t0.len() {
                assert(mentions(t0[i], name));
                let k = front.index_of(name);
                assert(all_column_names(ts)[k] == name);
            } else {
                let k = back.index_of(name);
                assert(all_column_names(ts)[front.len() + k] == name);
            }
        }
    }
}

/// Whether columns of this name stay as they are in a pass.
spec fn is_left_alone(a: &SparkPhysicalExprAdapter, pass: Pass, name: Seq<char>) -> bool {
    forall|index: usize| #[trigger]
        a.image(pass, Tree::Column { name, index }) == Ok::<Tree, Failure>(
            Tree::Column { name, index },
        )
}

/// An expression stays as it is where its columns do.
proof fn lemma_untouched_stays(a: &SparkPhysicalExprAdapter, pass: Pass, t: Tree)
    requires
        pass is FillDefaults || pass is RestoreNames,
        forall|name: Seq<char>| #[trigger]
            column_names(t).contains(name) ==> is_left_alone(a, pass, name),
    ensures
        a.rewritten(pass, t) == Ok::<Tree, Failure>(t),
    decreases t,
{
    match t {
        Tree::Column { name, index } => {
            assert(column_names(t)[0] == name);
            assert(column_names(t).contains(name));
            assert(is_left_alone(a, pass, name));
            assert(a.image(pass, Tree::Column { name, index }) == Ok::<Tree, Failure>(t));
        },
        Tree::DefaultValue { .. } => {},
        Tree::Cast { child, .. } => {
            assert(column_names(t) == column_names(*child));
            lemma_untouched_stays(a, pass, *child);
        },
        Tree::Other { children, .. } => {
            assert forall|i: int| 0 <= i < children.len() implies a.rewritten(
                pass,
                #[trigger] children[i],
            ) == Ok::<Tree, Failure>(children[i]) by {
                assert(decreases_to!(children => children[i]));
                assert forall|name: Seq<char>| #[trigger]
                    column_names(children[i]).contains(name) implies is_left_alone(
                    a,
                    pass,
                    name,
                ) by {
                    lemma_mentions_some(children, name);
                    assert(mentions(children[i], name));
                    assert(column_names(t).contains(name));
                }
                lemma_untouched_stays(a, pass, children[i]);
            }
            lemma_all_stay(a, pass, children);
        },
        Tree::Reject { child, .. } => {
            assert(column_names(t) == column_names(*child));
            lemma_untouched_stays(a, pass, *child);
        },
        Tree::ParquetCast { child, .. } => {
            assert(column_names(t) == column_names(*child));
            lemma_untouched_stays(a, pass, *child);
        },
        Tree::SparkCast { child, .. } => {
            assert(column_names(t) == column_names(*child));
            lemma_untouched_stays(a, pass, *child);
        },
    }
}

/// Columns that the file has are never replaced with default values.
pub proof fn columns_of_the_file_are_kept(a: &SparkPhysicalExprAdapter, t: Tree)
    requires
        forall|name: Seq<char>| #[trigger]
            column_names(t).contains(name) ==> a.position(
                a.physical_file_schema.fields@,
                name,
            ) is Some,
    ensures
        a.rewritten(Pass::FillDefaults, t) == Ok::<Tree, Failure>(t),
{
    lemma_untouched_stays(a, Pass::FillDefaults, t);
}

/// Without renamed columns there is nothing to restore.
pub proof fn unrenamed_columns_are_kept(a: &SparkPhysicalExprAdapter, t: Tree)
    requires
        a.logical_to_physical_names is None,
    ensures
        a.rewritten(Pass::RestoreNames, t) == Ok::<Tree, Failure>(t),
{
    lemma_untouched_stays(a, Pass::RestoreNames, t);
}

/// After default values are filled in, no column is left that the file lacks and that has one.
pub proof fn missing_columns_are_filled(a: &SparkPhysicalExprAdapter, t: Tree, name: Seq<char>)
    requires
        a.position(a.physical_file_schema.fields@, name) is None,
        last_default(a.defaults(), name) is Some,
    ensures
        a.rewritten(Pass::FillDefaults, t) matches Ok(u) ==> !mentions(u, name),
    decreases t,
{
    match t {
        Tree::Column { name: n, index } => {
            if let Ok(Tree::Column { name: m, .. }) = a.rewritten(Pass::FillDefaults, t) {
                assert(column_names(Tree::Column { name: m, index }) =~= seq![m]);
            }
        },
        Tree::DefaultValue { .. } => {},
        Tree::Cast { child, .. } => missing_columns_are_filled(a, *child, name),
        Tree::Other { node, children } => {
            lemma_all_rewritten(a, Pass::FillDefaults, children);
            if let Ok(us) = a.all_rewritten(Pass::FillDefaults, children) {
                assert forall|i: int| 0 <= i < us.len() implies !mentions(
                    #[trigger] us[i],
                    name,
                ) by {
                    assert(decreases_to!(children => children[i]));
                    missing_columns_are_filled(a, children[i], name);
                }
                lemma_mentions_some(us, name);
                assert(!mentions(Tree::Other { node, children: us }, name));
            }
        },
        Tree::Reject { child, .. } => missing_columns_are_filled(a, *child, name),
        Tree::ParquetCast { child, .. } => missing_columns_are_filled(a, *child, name),
        Tree::SparkCast { child, .. } => missing_columns_are_filled(a, *child, name),
    }
}

/// A column that a requested field was matched with, and that is not refused as a duplicate, is
/// the only one under the name of that field, and gets the name back that it has in the file.
pub proof fn matched_columns_get_their_names_back(
    a: &SparkPhysicalExprAdapter,
    file_schema: SchemaRef,
    i: int,
    k: int,
    index: usize,
)
    requires
        a.is_for(file_schema),
        names_of(a.logical_file_schema.fields@).no_duplicates(),
        0 <= i < file_schema.fields@.len(),
        resolution(a.logical_file_schema.fields@, file_schema.fields@[i], a.rules())
            == Resolution::Matched(k),
        a.duplicate_of(a.logical_file_schema.fields@[k].name@) is None,
    ensures
        forall|j: int|
            0 <= j < file_schema.fields@.len() && (
            #[trigger] a.physical_file_schema.fields@[j]).name@
                == a.logical_file_schema.fields@[k].name@ ==> j == i,
        a.restored(Tree::Column { name: a.logical_file_schema.fields@[k].name@, index }) == (
        Tree::Column { name: file_schema.fields@[i].name@, index }),
{
    let logical = a.logical_file_schema.fields@;
    let physical = file_schema.fields@;
    let rules = a.rules();
    lemma_matched_in_range(logical, physical[i], rules);
    assert(!(rules.case_sensitive && !rules.by_id));
    assert forall|j: int|
        0 <= j < physical.len() && j != i implies #[trigger] new_name(logical, physical, rules, j)
        != new_name(logical, physical, rules, i) by {
        if new_name(logical, physical, rules, j) == logical[k].name@ {
            lemma_only_one_matched(a, file_schema, i, k, j);
        }
    }
    names_lead_back_to_the_file(logical, physical, rules, i);
}

/// A column under the name of a requested field without identifier has that name up to case.
proof fn lemma_found_up_to_case(
    a: &SparkPhysicalExprAdapter,
    file_schema: SchemaRef,
    k: int,
    j: int,
)
    requires
        names_of(a.logical_file_schema.fields@).no_duplicates(),
        0 <= k < a.logical_file_schema.fields@.len(),
        a.rules().by_id ==> field_id(*a.logical_file_schema.fields@[k]) is None,
        0 <= j < file_schema.fields@.len(),
        new_name(a.logical_file_schema.fields@, file_schema.fields@, a.rules(), j)
            == a.logical_file_schema.fields@[k].name@,
    ensures
        same_name(
            file_schema.fields@[j].name@,
            a.logical_file_schema.fields@[k].name@,
            a.rules().tables,
        ),
{
    let logical = a.logical_file_schema.fields@;
    let physical = file_schema.fields@;
    let rules = a.rules();
    let column = physical[j];
    match resolution(logical, column, rules) {
        Resolution::Matched(m) => {
            lemma_matched_in_range(logical, column, rules);
            assert(names_of(logical)[m] == logical[m].name@);
            assert(names_of(logical)[k] == logical[k].name@);
            assert(m == k);
            let id = own_id(column);
            first_index_is_least(logical, |l: FieldRef| has_id(l, id));
            first_index_is_least(logical, |l: FieldRef| claims_name(l, column.name@, rules));
        },
        Resolution::Shielded => {
            made_up_names_are_new(logical, physical, rules, j);
            assert(all_names(logical, physical)[k] == logical[k].name@);
        },
        Resolution::Kept => {},
    }
}

proof fn lemma_only_one_matched(
    a: &SparkPhysicalExprAdapter,
    file_schema: SchemaRef,
    i: int,
    k: int,
    j: int,
)
    requires
        a.is_for(file_schema),
        names_of(a.logical_file_schema.fields@).no_duplicates(),
        0 <= i < file_schema.fields@.len(),
        0 <= j < file_schema.fields@.len(),
        0 <= k < a.logical_file_schema.fields@.len(),
        resolution(a.logical_file_schema.fields@, file_schema.fields@[i], a.rules())
            == Resolution::Matched(k),
        new_name(a.logical_file_schema.fields@, file_schema.fields@, a.rules(), j)
            == a.logical_file_schema.fields@[k].name@,
        a.duplicate_of(a.logical_file_schema.fields@[k].name@) is None,
    ensures
        i == j,
{
    let logical = a.logical_file_schema.fields@;
    let physical = file_schema.fields@;
    let rules = a.rules();
    let name = logical[k].name@;
    if rules.by_id && has_any_id(logical[k]) {
        fields_with_identifiers_are_found_by_identifier(logical, physical, rules, i, k);
        fields_with_identifiers_are_found_by_identifier(logical, physical, rules, j, k);
        identifiers_are_unambiguous(
            logical,
            physical,
            a.parquet_options.ignore_missing_field_id,
            k,
            i,
            j,
        );
    } else {
        lemma_found_up_to_case(a, file_schema, k, i);
        lemma_found_up_to_case(a, file_schema, k, j);
        let id = own_id(physical[i]);
        first_index_is_least(logical, |l: FieldRef| has_id(l, id));
        assert(!rules.case_sensitive);
        first_index_is_least(logical, |f: FieldRef| is_named(f, name));
        assert(!a.is_routed_by_id(name)) by {
            if let Some(m) = index_by_name(logical, name) {
                assert(names_of(logical)[m] == logical[m].name@);
                assert(names_of(logical)[k] == logical[k].name@);
                assert(m == k);
            }
        }
        let wanted = |f: FieldRef| same_name(f.name@, name, rules.tables);
        if i < j {
            lemma_two_in_filter(physical, wanted, i, j);
        } else if j < i {
            lemma_two_in_filter(physical, wanted, j, i);
        }
        assert(names_like(physical, name, rules.tables).len() == physical.filter(wanted).len());
    }
}

/// Whether a field carries an identifier.
spec fn has_any_id(field: FieldRef) -> bool {
    field_id(*field) is Some
}

// ---------------------------------------------------------------------------------------------
// Duplicates
// ---------------------------------------------------------------------------------------------

proof fn lemma_some_duplicate(a: &SparkPhysicalExprAdapter, names: Seq<Seq<char>>)
    ensures
        a.last_duplicate(names) is Some <==> exists|i: int|
            0 <= i < names.len() && a.duplicate_of(#[trigger] names[i]) is Some,
    decreases names.len(),
{
    if names.len() > 0 {
        let front = names.drop_last();
        lemma_some_duplicate(a, front);
        assert forall|i: int| 0 <= i < front.len() implies #[trigger] front[i] == names[i] by {}
        if a.duplicate_of(names.last()) is Some {
            assert(a.duplicate_of(names[names.len() - 1]) is Some);
        } else if a.last_duplicate(front) is Some {
            let i = choose|i: int|
                0 <= i < front.len() && a.duplicate_of(#[trigger] front[i]) is Some;
            assert(a.duplicate_of(names[i]) is Some);
        } else if exists|i: int|
            0 <= i < names.len() && a.duplicate_of(#[trigger] names[i]) is Some {
            let i = choose|i: int|
                0 <= i < names.len() && a.duplicate_of(#[trigger] names[i]) is Some;
            assert(a.duplicate_of(front[i]) is Some);
        }
    }
}

/// An expression is refused for a duplicate column if and only if one of its own columns is one:
/// duplicates that it does not mention do not matter.
pub proof fn only_mentioned_duplicates_are_refused(a: &SparkPhysicalExprAdapter, t: Tree)
    ensures
        a.begun(t) is Err <==> exists|i: int|
            0 <= i < column_names(t).len() && a.duplicate_of(#[trigger] column_names(t)[i]) is Some,
{
    lemma_some_duplicate(a, column_names(t));
    filling_and_restoring_never_fail(a, Pass::FillDefaults, t);
}

/// Columns that are requested by identifier are never refused as duplicates.
pub proof fn identifiers_exempt_from_duplicates(a: &SparkPhysicalExprAdapter, name: Seq<char>)
    requires
        a.is_routed_by_id(name),
    ensures
        a.duplicate_of(name) is None,
{
}

/// Where nothing is renamed and names must agree exactly, an expression without casts whose
/// columns the file has comes out as it went in.
pub proof fn fitting_expressions_come_out_as_they_are(a: &SparkPhysicalExprAdapter, t: Tree)
    requires
        a.original_physical_schema is None,
        a.logical_to_physical_names is None,
        !has_cast(t),
        forall|name: Seq<char>| #[trigger]
            column_names(t).contains(name) ==> a.position(
                a.physical_file_schema.fields@,
                name,
            ) is Some,
    ensures
        a.begun(t) == Ok::<Tree, Failure>(t),
        a.finished(t, Some(t)) == Ok::<Tree, Failure>(t),
{
    lemma_some_duplicate(a, column_names(t));
    columns_of_the_file_are_kept(a, t);
    expressions_without_casts_stay(a, t);
    unrenamed_columns_are_kept(a, t);
}

} // verus!
