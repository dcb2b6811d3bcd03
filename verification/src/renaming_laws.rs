//! What renaming the columns of a file comes to, in terms of names and identifiers alone.

use crate::case_tables::{CaseData, JvmCaseTables};
use crate::errors::{Problem, SparkError};
use crate::lowercase::{data_of, same_name};
use crate::remap::{
    all_names, claims_name, has_id, is_ambiguous, is_renamed, is_shadowed, is_taken, last_fake,
    lemma_next_free_exists, matches_by_id, name_map, names_of, names_with_id, new_name, own_id,
    remap_physical_schema, resolution, shadows, MatchRules, Resolution,
};
use crate::remap_laws::{lemma_two_in_filter, made_up_names_are_new};
use crate::schema::{field_id, has_field_ids, FieldRef, Schema, SchemaRef};
use crate::search::{first_index, first_index_is_least, lemma_found};
use crate::string_map::StringMap;
use crate::text::{decimal, joined};
use vstd::prelude::*;

verus! {

// ---------------------------------------------------------------------------------------------
// Names and identifiers
// ---------------------------------------------------------------------------------------------

/// Whether a field carries an identifier.
pub open spec fn carries_id(field: FieldRef) -> bool {
    field_id(*field) is Some
}

/// Whether two fields carry the same identifier.
pub open spec fn same_id(a: FieldRef, b: FieldRef) -> bool {
    field_id(*a) is Some && field_id(*a) == field_id(*b)
}

/// Whether fields are matched by identifier: this is asked for, and some requested field carries
/// one.
pub open spec fn by_identifier(logical: Seq<FieldRef>, use_field_id: bool) -> bool {
    use_field_id && exists|k: int| 0 <= k < logical.len() && carries_id(#[trigger] logical[k])
}

/// Whether a requested field has the identifier of a column.
pub open spec fn is_asked_by_id(logical: Seq<FieldRef>, column: FieldRef, by_id: bool) -> bool {
    by_id && exists|k: int| 0 <= k < logical.len() && same_id(#[trigger] logical[k], column)
}

/// Whether a requested field that does not go by identifier has the name of a column up to case.
pub open spec fn asks_by_name(
    field: FieldRef,
    column: FieldRef,
    by_id: bool,
    tables: Option<CaseData>,
) -> bool {
    &&& by_id ==> !carries_id(field)
    &&& same_name(field.name@, column.name@, tables)
}

/// Whether some requested field asks for a column by name.
pub open spec fn is_asked_by_name(
    logical: Seq<FieldRef>,
    column: FieldRef,
    by_id: bool,
    tables: Option<CaseData>,
) -> bool {
    exists|k: int|
        0 <= k < logical.len() && asks_by_name(#[trigger] logical[k], column, by_id, tables)
}

/// Whether a column has the name of a requested field that goes by identifier.
pub open spec fn is_in_the_way(
    logical: Seq<FieldRef>,
    column: FieldRef,
    case_sensitive: bool,
    tables: Option<CaseData>,
) -> bool {
    exists|k: int|
        0 <= k < logical.len() && carries_id(#[trigger] logical[k]) && if case_sensitive {
            logical[k].name@ == column.name@
        } else {
            same_name(logical[k].name@, column.name@, tables)
        }
}

/// Whether some requested field asks for a column, by identifier or by name.
pub open spec fn is_asked_for(
    logical: Seq<FieldRef>,
    column: FieldRef,
    case_sensitive: bool,
    by_id: bool,
    tables: Option<CaseData>,
) -> bool {
    is_asked_by_id(logical, column, by_id) || (!case_sensitive && is_asked_by_name(
        logical,
        column,
        by_id,
        tables,
    ))
}

proof fn lemma_asked_by_id(logical: Seq<FieldRef>, column: FieldRef)
    ensures
        ({
            let id = own_id(column);
            let target = first_index(logical, |l: FieldRef| has_id(l, id));
            &&& carries_id(column) && target is Some ==> is_asked_by_id(logical, column, true)
                && same_id(logical[target->0], column) && 0 <= target->0 < logical.len()
                && forall|j: int|
                0 <= j < target->0 ==> !same_id(#[trigger] logical[j], column)
            &&& carries_id(column) && target is None ==> !is_asked_by_id(logical, column, true)
            &&& !carries_id(column) ==> !is_asked_by_id(logical, column, true)
        }),
{
    let id = own_id(column);
    let p = |l: FieldRef| has_id(l, id);
    first_index_is_least(logical, p);
    if carries_id(column) {
        assert forall|j: int| 0 <= j < logical.len() implies same_id(#[trigger] logical[j], column)
            == p(logical[j]) by {}
    }
}

proof fn lemma_asked_by_name(logical: Seq<FieldRef>, column: FieldRef, rules: MatchRules)
    ensures
        ({
            let name = column.name@;
            let target = first_index(logical, |l: FieldRef| claims_name(l, name, rules));
            &&& target is Some ==> is_asked_by_name(logical, column, rules.by_id, rules.tables)
                && 0 <= target->0 < logical.len() && asks_by_name(
                logical[target->0],
                column,
                rules.by_id,
                rules.tables,
            ) && forall|j: int|
                0 <= j < target->0 ==> !asks_by_name(
                    #[trigger] logical[j],
                    column,
                    rules.by_id,
                    rules.tables,
                )
            &&& target is None ==> !is_asked_by_name(logical, column, rules.by_id, rules.tables)
        }),
{
    let name = column.name@;
    let p = |l: FieldRef| claims_name(l, name, rules);
    first_index_is_least(logical, p);
    assert forall|j: int| 0 <= j < logical.len() implies asks_by_name(
        #[trigger] logical[j],
        column,
        rules.by_id,
        rules.tables,
    ) == p(logical[j]) by {}
}

/// What a column is resolved to, in terms of names and identifiers.
proof fn lemma_resolution(logical: Seq<FieldRef>, column: FieldRef, rules: MatchRules)
    ensures
        ({
            let r = resolution(logical, column, rules);
            let by_id = is_asked_by_id(logical, column, rules.by_id);
            let by_name = !rules.case_sensitive && is_asked_by_name(
                logical,
                column,
                rules.by_id,
                rules.tables,
            );
            let hidden = rules.by_id && is_in_the_way(
                logical,
                column,
                rules.case_sensitive,
                rules.tables,
            );
            &&& r is Matched <==> by_id || by_name
            &&& r is Shielded <==> !by_id && !by_name && hidden
            &&& r is Kept <==> !by_id && !by_name && !hidden
            &&& r matches Resolution::Matched(k) ==> {
                &&& 0 <= k < logical.len()
                &&& by_id ==> same_id(logical[k], column) && forall|j: int|
                    0 <= j < k ==> !same_id(#[trigger] logical[j], column)
                &&& !by_id ==> asks_by_name(logical[k], column, rules.by_id, rules.tables)
                    && forall|j: int|
                    0 <= j < k ==> !asks_by_name(
                        #[trigger] logical[j],
                        column,
                        rules.by_id,
                        rules.tables,
                    )
            }
        }),
{
    lemma_asked_by_id(logical, column);
    lemma_asked_by_name(logical, column, rules);
    assert(is_shadowed(logical, column, rules) == is_in_the_way(
        logical,
        column,
        rules.case_sensitive,
        rules.tables,
    )) by {
        assert forall|j: int| 0 <= j < logical.len() implies shadows(
            #[trigger] logical[j],
            column.name@,
            rules,
        ) == (carries_id(logical[j]) && if rules.case_sensitive {
            logical[j].name@ == column.name@
        } else {
            same_name(logical[j].name@, column.name@, rules.tables)
        }) by {}
        if is_shadowed(logical, column, rules) {
            let j = choose|j: int|
                0 <= j < logical.len() && shadows(#[trigger] logical[j], column.name@, rules);
            assert(carries_id(logical[j]));
        }
        if is_in_the_way(logical, column, rules.case_sensitive, rules.tables) {
            let j = choose|k: int|
                0 <= k < logical.len() && carries_id(#[trigger] logical[k])
                    && if rules.case_sensitive {
                    logical[k].name@ == column.name@
                } else {
                    same_name(logical[k].name@, column.name@, rules.tables)
                };
            assert(shadows(logical[j], column.name@, rules));
        }
    }
}

pub(crate) proof fn lemma_by_identifier(logical: Seq<FieldRef>, use_field_id: bool)
    ensures
        by_identifier(logical, use_field_id) == matches_by_id(logical, use_field_id),
{
    if has_field_ids(logical) {
        let k = choose|k: int| 0 <= k < logical.len() && field_id(*#[trigger] logical[k]) is Some;
        assert(carries_id(logical[k]));
    }
    if exists|k: int| 0 <= k < logical.len() && carries_id(#[trigger] logical[k]) {
        let k = choose|k: int| 0 <= k < logical.len() && carries_id(#[trigger] logical[k]);
        assert(field_id(*logical[k]) is Some);
    }
}

// ---------------------------------------------------------------------------------------------
// New names
// ---------------------------------------------------------------------------------------------

/// A column with the identifier of a requested field gets the name of the first such field. Any
/// other column gets, where names agree up to case, the name of the first requested field of its
/// name that does not go by identifier. What is left keeps its name, unless it is the name of a
/// field that goes by identifier: such a column gets a name that no field has. Only names change.
pub proof fn columns_get_the_names_that_are_asked_for(
    logical: &Schema,
    physical: &Schema,
    case_sensitive: bool,
    case_tables: Option<&JvmCaseTables>,
    use_field_id: bool,
    ignore_missing_field_id: bool,
    renamed: SchemaRef,
    names: StringMap,
    i: int,
    k: int,
)
    requires
        call_ensures(
            remap_physical_schema,
            (
                logical,
                physical,
                case_sensitive,
                case_tables,
                use_field_id,
                ignore_missing_field_id,
            ),
            Ok((renamed, names)),
        ),
        0 <= i < physical.fields@.len(),
    ensures
        ({
            let fields = logical.fields@;
            let column = physical.fields@[i];
            let out = renamed.fields@[i];
            let tables = data_of(case_tables);
            let by_id = by_identifier(fields, use_field_id);
            let asked_by_id = is_asked_by_id(fields, column, by_id);
            let asked = is_asked_for(fields, column, case_sensitive, by_id, tables);
            let hidden = by_id && is_in_the_way(fields, column, case_sensitive, tables);
            &&& renamed.fields@.len() == physical.fields@.len()
            &&& *out.data_type == *column.data_type
            &&& out.nullable == column.nullable
            &&& out.metadata@ == column.metadata@
            &&& by_id && 0 <= k < fields.len() && same_id(fields[k], column) && (forall|j: int|
                0 <= j < k ==> !same_id(#[trigger] fields[j], column)) ==> out.name@
                == fields[k].name@
            &&& !asked_by_id && !case_sensitive && 0 <= k < fields.len() && asks_by_name(
                fields[k],
                column,
                by_id,
                tables,
            ) && (forall|j: int|
                0 <= j < k ==> !asks_by_name(#[trigger] fields[j], column, by_id, tables))
                ==> out.name@ == fields[k].name@
            &&& !asked && !hidden ==> out.name@ == column.name@
            &&& !asked && hidden ==> {
                &&& forall|j: int|
                    0 <= j < fields.len() ==> (#[trigger] fields[j]).name@ != out.name@
                &&& forall|j: int|
                    0 <= j < physical.fields@.len() ==> (#[trigger] physical.fields@[j]).name@
                        != out.name@
            }
        }),
{
    let fields = logical.fields@;
    let columns = physical.fields@;
    let column = columns[i];
    let tables = data_of(case_tables);
    lemma_by_identifier(fields, use_field_id);
    let by_id = by_identifier(fields, use_field_id);
    let rules = MatchRules { case_sensitive, tables, by_id };
    lemma_resolution(fields, column, rules);
    assert(renamed.fields@[i]@ == column@.renamed(new_name(fields, columns, rules, i)));
    match resolution(fields, column, rules) {
        Resolution::Matched(m) => {
            if m < k {
                assert(same_id(fields[m], column) || asks_by_name(
                    fields[m],
                    column,
                    by_id,
                    tables,
                ));
            }
        },
        Resolution::Shielded => {
            made_up_names_are_new(fields, columns, rules, i);
            let name = new_name(fields, columns, rules, i);
            assert forall|j: int| 0 <= j < fields.len() implies (#[trigger] fields[j]).name@
                != name by {
                assert(all_names(fields, columns)[j] == fields[j].name@);
            }
            assert forall|j: int| 0 <= j < columns.len() implies (#[trigger] columns[j]).name@
                != name by {
                assert(all_names(fields, columns)[fields.len() + j] == columns[j].name@);
            }
        },
        Resolution::Kept => {},
    }
}

/// The made-up name of number `m`.
pub open spec fn made_up(m: nat) -> Seq<char> {
    "__comet_unmatched_field_id_"@ + decimal(m)
}

/// Whether a column is hidden under a made-up name.
pub open spec fn is_hidden(
    logical: Seq<FieldRef>,
    column: FieldRef,
    case_sensitive: bool,
    by_id: bool,
    tables: Option<CaseData>,
) -> bool {
    by_id && !is_asked_for(logical, column, case_sensitive, by_id, tables) && is_in_the_way(
        logical,
        column,
        case_sensitive,
        tables,
    )
}

proof fn lemma_smaller_numbers_are_gone(
    logical: Seq<FieldRef>,
    physical: Seq<FieldRef>,
    rules: MatchRules,
    n: int,
    x: nat,
)
    requires
        0 <= n <= physical.len(),
        1 <= x <= last_fake(logical, physical, rules, n),
    ensures
        all_names(logical, physical).contains(made_up(x)) || exists|j: int|
            0 <= j < n && resolution(logical, physical[j], rules) is Shielded
                && #[trigger] new_name(logical, physical, rules, j) == made_up(x),
    decreases n,
{
    if n > 0 {
        let before = last_fake(logical, physical, rules, n - 1);
        if x <= before {
            lemma_smaller_numbers_are_gone(logical, physical, rules, n - 1, x);
            if !all_names(logical, physical).contains(made_up(x)) {
                let j = choose|j: int|
                    0 <= j < n - 1 && resolution(logical, physical[j], rules) is Shielded
                        && #[trigger] new_name(logical, physical, rules, j) == made_up(x);
                assert(new_name(logical, physical, rules, j) == made_up(x));
            }
        } else {
            lemma_next_free_exists(all_names(logical, physical), before);
            if x < last_fake(logical, physical, rules, n) {
                assert(is_taken(all_names(logical, physical), x));
            } else {
                assert(new_name(logical, physical, rules, n - 1) == made_up(x));
            }
        }
    }
}

/// A hidden column gets the made-up name of the least number that is not gone: every smaller
/// number's name is that of a real field, or was given to a hidden column before.
pub proof fn hidden_columns_are_numbered(
    logical: &Schema,
    physical: &Schema,
    case_sensitive: bool,
    case_tables: Option<&JvmCaseTables>,
    use_field_id: bool,
    ignore_missing_field_id: bool,
    renamed: SchemaRef,
    names: StringMap,
    i: int,
) -> (m: nat)
    requires
        call_ensures(
            remap_physical_schema,
            (
                logical,
                physical,
                case_sensitive,
                case_tables,
                use_field_id,
                ignore_missing_field_id,
            ),
            Ok((renamed, names)),
        ),
        0 <= i < physical.fields@.len(),
        is_hidden(
            logical.fields@,
            physical.fields@[i],
            case_sensitive,
            by_identifier(logical.fields@, use_field_id),
            data_of(case_tables),
        ),
    ensures
        m >= 1,
        renamed.fields@[i].name@ == made_up(m),
        forall|x: nat|
            #![trigger made_up(x)]
            1 <= x < m ==> {
                ||| exists|j: int|
                    0 <= j < logical.fields@.len() && (#[trigger] logical.fields@[j]).name@
                        == made_up(x)
                ||| exists|j: int|
                    0 <= j < physical.fields@.len() && (#[trigger] physical.fields@[j]).name@
                        == made_up(x)
                ||| exists|j: int|
                    0 <= j < i && (#[trigger] renamed.fields@[j]).name@ == made_up(x)
            },
{
    let fields = logical.fields@;
    let columns = physical.fields@;
    let tables = data_of(case_tables);
    lemma_by_identifier(fields, use_field_id);
    let by_id = by_identifier(fields, use_field_id);
    let rules = MatchRules { case_sensitive, tables, by_id };
    lemma_resolution(fields, columns[i], rules);
    let before = last_fake(fields, columns, rules, i);
    let m = last_fake(fields, columns, rules, i + 1);
    lemma_next_free_exists(all_names(fields, columns), before);
    assert(renamed.fields@[i]@ == columns[i]@.renamed(new_name(fields, columns, rules, i)));
    assert forall|x: nat|
        #![trigger made_up(x)]
        1 <= x < m implies {
        ||| exists|j: int|
            0 <= j < fields.len() && (#[trigger] fields[j]).name@ == made_up(x)
        ||| exists|j: int|
            0 <= j < columns.len() && (#[trigger] columns[j]).name@ == made_up(x)
        ||| exists|j: int|
            0 <= j < i && (#[trigger] renamed.fields@[j]).name@ == made_up(x)
    } by {
        let all = all_names(fields, columns);
        if x > before {
            assert(is_taken(all, x));
        } else {
            lemma_smaller_numbers_are_gone(fields, columns, rules, i, x);
        }
        if all.contains(made_up(x)) {
            let j = all.index_of(made_up(x));
            if j < fields.len() {
                assert(fields[j].name@ == made_up(x));
            } else {
                assert(columns[j - fields.len()].name@ == made_up(x));
            }
        } else {
            let j = choose|j: int|
                0 <= j < i && resolution(fields, columns[j], rules) is Shielded
                    && #[trigger] new_name(fields, columns, rules, j) == made_up(x);
            assert(renamed.fields@[j]@ == columns[j]@.renamed(
                new_name(fields, columns, rules, j),
            ));
            assert(renamed.fields@[j].name@ == made_up(x));
        }
    }
    m
}

// ---------------------------------------------------------------------------------------------
// The way back
// ---------------------------------------------------------------------------------------------

/// Whether a column is asked for and gets a name that is not its own.
pub open spec fn trades_its_name(
    logical: Seq<FieldRef>,
    physical: Seq<FieldRef>,
    renamed: Seq<FieldRef>,
    case_sensitive: bool,
    by_id: bool,
    tables: Option<CaseData>,
    i: int,
) -> bool {
    is_asked_for(logical, physical[i], case_sensitive, by_id, tables) && renamed[i].name@
        != physical[i].name@
}

proof fn lemma_name_map(
    logical: Seq<FieldRef>,
    physical: Seq<FieldRef>,
    rules: MatchRules,
    n: int,
    name: Seq<char>,
    last: int,
)
    requires
        0 <= n <= physical.len(),
        -1 <= last < n,
        last >= 0 ==> is_renamed(logical, physical, rules, last) && new_name(
            logical,
            physical,
            rules,
            last,
        ) == name,
        forall|j: int|
            last < j < n ==> !(is_renamed(logical, physical, rules, j) && #[trigger] new_name(
                logical,
                physical,
                rules,
                j,
            ) == name),
    ensures
        last >= 0 ==> name_map(logical, physical, rules, n).contains_key(name) && name_map(
            logical,
            physical,
            rules,
            n,
        )[name] == physical[last].name@,
        last < 0 ==> !name_map(logical, physical, rules, n).contains_key(name),
    decreases n,
{
    if n > 0 && n - 1 > last {
        assert(!(is_renamed(logical, physical, rules, n - 1) && new_name(
            logical,
            physical,
            rules,
            n - 1,
        ) == name));
        lemma_name_map(logical, physical, rules, n - 1, name, last);
    }
}

/// The map leads from the new name of a column that was asked for and traded its name back to the
/// name that it has in the file (of the last such column, if several got the name), and from no
/// other name anywhere.
pub proof fn traded_names_lead_back(
    logical: &Schema,
    physical: &Schema,
    case_sensitive: bool,
    case_tables: Option<&JvmCaseTables>,
    use_field_id: bool,
    ignore_missing_field_id: bool,
    renamed: SchemaRef,
    names: StringMap,
    name: Seq<char>,
    last: int,
)
    requires
        call_ensures(
            remap_physical_schema,
            (
                logical,
                physical,
                case_sensitive,
                case_tables,
                use_field_id,
                ignore_missing_field_id,
            ),
            Ok((renamed, names)),
        ),
        -1 <= last < physical.fields@.len(),
        last >= 0 ==> renamed.fields@[last].name@ == name && trades_its_name(
            logical.fields@,
            physical.fields@,
            renamed.fields@,
            case_sensitive,
            by_identifier(logical.fields@, use_field_id),
            data_of(case_tables),
            last,
        ),
        forall|j: int|
            last < j < physical.fields@.len() ==> !((#[trigger] renamed.fields@[j]).name@ == name
                && trades_its_name(
                logical.fields@,
                physical.fields@,
                renamed.fields@,
                case_sensitive,
                by_identifier(logical.fields@, use_field_id),
                data_of(case_tables),
                j,
            )),
    ensures
        last >= 0 ==> names@.contains_key(name) && names@[name] == physical.fields@[last].name@,
        last < 0 ==> !names@.contains_key(name),
{
    let fields = logical.fields@;
    let columns = physical.fields@;
    let tables = data_of(case_tables);
    lemma_by_identifier(fields, use_field_id);
    let by_id = by_identifier(fields, use_field_id);
    let rules = MatchRules { case_sensitive, tables, by_id };
    assert forall|j: int| 0 <= j < columns.len() implies (is_renamed(fields, columns, rules, j)
        == trades_its_name(
        fields,
        columns,
        renamed.fields@,
        case_sensitive,
        by_id,
        tables,
        j,
    )) && renamed.fields@[j].name@ == #[trigger] new_name(fields, columns, rules, j) by {
        lemma_resolution(fields, columns[j], rules);
        assert(renamed.fields@[j]@ == columns[j]@.renamed(new_name(fields, columns, rules, j)));
    }
    if last >= 0 {
        assert(new_name(fields, columns, rules, last) == name);
    }
    assert forall|j: int| last < j < columns.len() implies !(is_renamed(fields, columns, rules, j)
        && #[trigger] new_name(fields, columns, rules, j) == name) by {
        assert(renamed.fields@[j].name@ == new_name(fields, columns, rules, j));
    }
    lemma_name_map(fields, columns, rules, columns.len() as int, name, last);
}

// ---------------------------------------------------------------------------------------------
// Refused identifiers
// ---------------------------------------------------------------------------------------------

/// Whether two columns carry the identifier of a field.
pub open spec fn is_carried_twice(physical: Seq<FieldRef>, field: FieldRef) -> bool {
    exists|i: int, j: int|
        0 <= i < j < physical.len() && same_id(field, #[trigger] physical[i]) && same_id(
            field,
            #[trigger] physical[j],
        )
}

/// Whether `at` lists, in order, the positions of the fields with a property.
pub open spec fn lists_positions(
    at: Seq<int>,
    fields: Seq<FieldRef>,
    wanted: spec_fn(FieldRef) -> bool,
) -> bool {
    &&& forall|x: int, y: int|
        #![trigger at[x], at[y]]
        0 <= x < y < at.len() ==> at[x] < at[y]
    &&& forall|x: int|
        0 <= x < at.len() ==> 0 <= #[trigger] at[x] < fields.len() && wanted(fields[at[x]])
    &&& forall|i: int| 0 <= i < fields.len() && wanted(#[trigger] fields[i]) ==> at.contains(i)
}

/// The names of the fields at these positions.
pub open spec fn names_at(fields: Seq<FieldRef>, at: Seq<int>) -> Seq<Seq<char>> {
    at.map_values(|i: int| fields[i].name@)
}

pub(crate) proof fn lemma_filtered_names(
    fields: Seq<FieldRef>,
    wanted: spec_fn(FieldRef) -> bool,
    at: Seq<int>,
)
    requires
        lists_positions(at, fields, wanted),
    ensures
        names_of(fields.filter(wanted)) == names_at(fields, at),
    decreases fields.len(),
{
    if fields.len() == 0 {
        if at.len() > 0 {
            assert(0 <= at[0] < fields.len());
        }
        assert(fields.filter(wanted) =~= Seq::<FieldRef>::empty());
        assert(names_of(fields.filter(wanted)) =~= names_at(fields, at));
    } else {
        let front = fields.drop_last();
        let n = fields.len() - 1;
        front.lemma_filter_push(fields.last(), wanted);
        assert(front.push(fields.last()) =~= fields);
        let rest = if wanted(fields.last()) {
            at.drop_last()
        } else {
            at
        };
        if wanted(fields.last()) {
            assert(wanted(fields[n]));
            let x = at.index_of(n);
            assert(at[x] == n);
            if x < at.len() - 1 {
                assert(at[x] < at[at.len() - 1]);
                assert(at[at.len() - 1] < fields.len());
            }
            assert(at.last() == n);
        }
        assert(lists_positions(rest, front, wanted)) by {
            assert forall|x: int, y: int|
                #![trigger rest[x], rest[y]]
                0 <= x < y < rest.len() implies rest[x] < rest[y] by {
                assert(at[x] < at[y]);
            }
            assert forall|x: int| 0 <= x < rest.len() implies 0 <= #[trigger] rest[x] < front.len()
                && wanted(front[rest[x]]) by {
                assert(rest[x] == at[x]);
                assert(0 <= at[x] < fields.len() && wanted(fields[at[x]]));
                if wanted(fields.last()) {
                    assert(at[x] < at[at.len() - 1]);
                }
            }
            assert forall|i: int|
                0 <= i < front.len() && wanted(#[trigger] front[i]) implies rest.contains(i) by {
                assert(wanted(fields[i]));
                let x = at.index_of(i);
                assert(rest[x] == i);
            }
        }
        lemma_filtered_names(front, wanted, rest);
        if wanted(fields.last()) {
            assert(names_at(fields, at) =~= names_at(front, rest).push(fields.last().name@));
            assert(names_of(front.filter(wanted).push(fields.last())) =~= names_of(
                front.filter(wanted),
            ).push(fields.last().name@));
        } else {
            assert(names_at(fields, at) =~= names_at(front, rest));
        }
    }
}

pub(crate) proof fn lemma_few_in_filter(s: Seq<FieldRef>, p: spec_fn(FieldRef) -> bool)
    requires
        s.filter(p).len() > 1,
    ensures
        exists|i: int, j: int|
            0 <= i < j < s.len() && p(#[trigger] s[i]) && p(#[trigger] s[j]),
    decreases s.len(),
{
    if s.len() == 0 {
        assert(s.filter(p) =~= Seq::<FieldRef>::empty());
    } else {
        let front = s.drop_last();
        front.lemma_filter_push(s.last(), p);
        assert(front.push(s.last()) =~= s);
        if front.filter(p).len() > 1 {
            lemma_few_in_filter(front, p);
            let (i, j) = choose|i: int, j: int|
                0 <= i < j < front.len() && p(#[trigger] front[i]) && p(#[trigger] front[j]);
            assert(p(s[i]) && p(s[j]));
        } else {
            assert(p(s.last()));
            lemma_one_in_filter(front, p);
            let i = choose|i: int| 0 <= i < front.len() && p(#[trigger] front[i]);
            assert(p(s[i]) && p(s[s.len() - 1]));
        }
    }
}

proof fn lemma_one_in_filter(s: Seq<FieldRef>, p: spec_fn(FieldRef) -> bool)
    requires
        s.filter(p).len() > 0,
    ensures
        exists|i: int| 0 <= i < s.len() && p(#[trigger] s[i]),
    decreases s.len(),
{
    if s.len() == 0 {
        assert(s.filter(p) =~= Seq::<FieldRef>::empty());
    } else {
        let front = s.drop_last();
        front.lemma_filter_push(s.last(), p);
        assert(front.push(s.last()) =~= s);
        if p(s.last()) {
            assert(p(s[s.len() - 1]));
        } else {
            lemma_one_in_filter(front, p);
            let i = choose|i: int| 0 <= i < front.len() && p(#[trigger] front[i]);
            assert(p(s[i]));
        }
    }
}

proof fn lemma_ambiguous(physical: Seq<FieldRef>, field: FieldRef)
    ensures
        is_ambiguous(field, physical) == is_carried_twice(physical, field),
{
    let id = own_id(field);
    let wanted = |f: FieldRef| has_id(f, id);
    assert(names_with_id(physical, id).len() == physical.filter(wanted).len());
    if carries_id(field) {
        assert forall|f: FieldRef| #[trigger] same_id(field, f) == wanted(f) by {}
        if is_carried_twice(physical, field) {
            let (i, j) = choose|i: int, j: int|
                0 <= i < j < physical.len() && same_id(field, #[trigger] physical[i]) && same_id(
                    field,
                    #[trigger] physical[j],
                );
            lemma_two_in_filter(physical, wanted, i, j);
        }
        if is_ambiguous(field, physical) {
            lemma_few_in_filter(physical, wanted);
            let (i, j) = choose|i: int, j: int|
                0 <= i < j < physical.len() && wanted(#[trigger] physical[i]) && wanted(
                    #[trigger] physical[j],
                );
            assert(same_id(field, physical[i]) && same_id(field, physical[j]));
        }
    }
}

/// Renaming is refused in two cases, both where fields are matched by identifier: no column carries
/// an identifier, and that is not to be ignored; or two columns carry the identifier of a requested
/// field. The first such field is then reported, with the names of all columns that carry its
/// identifier, in order.
pub proof fn identifiers_that_do_not_lead_anywhere_are_refused(
    logical: &Schema,
    physical: &Schema,
    case_sensitive: bool,
    case_tables: Option<&JvmCaseTables>,
    use_field_id: bool,
    ignore_missing_field_id: bool,
    result: Result<(SchemaRef, StringMap), SparkError>,
    k: int,
    at: Seq<int>,
)
    requires
        call_ensures(
            remap_physical_schema,
            (
                logical,
                physical,
                case_sensitive,
                case_tables,
                use_field_id,
                ignore_missing_field_id,
            ),
            result,
        ),
    ensures
        ({
            let fields = logical.fields@;
            let columns = physical.fields@;
            let by_id = by_identifier(fields, use_field_id);
            let missing = by_id && !ignore_missing_field_id && forall|i: int|
                0 <= i < columns.len() ==> !carries_id(#[trigger] columns[i]);
            let first_twice = by_id && 0 <= k < fields.len() && is_carried_twice(columns, fields[k])
                && forall|j: int|
                0 <= j < k ==> !is_carried_twice(columns, #[trigger] fields[j]);
            &&& missing <==> (result matches Err(e) && e@ == Problem::MissingFieldIds)
            &&& !missing && first_twice && lists_positions(
                at,
                columns,
                |f: FieldRef| same_id(fields[k], f),
            ) ==> (result matches Err(e) && e@ == (Problem::DuplicateId {
                required_id: own_id(fields[k]),
                matched_fields: joined(names_at(columns, at), ", "@),
            }))
            &&& result is Ok <==> !missing && !(by_id && exists|j: int|
                0 <= j < fields.len() && is_carried_twice(columns, #[trigger] fields[j]))
        }),
{
    let fields = logical.fields@;
    let columns = physical.fields@;
    lemma_by_identifier(fields, use_field_id);
    lemma_by_identifier(columns, true);
    let by_id = by_identifier(fields, use_field_id);
    let p = |l: FieldRef| is_ambiguous(l, columns);
    first_index_is_least(fields, p);
    assert forall|j: int| 0 <= j < fields.len() implies p(fields[j]) == is_carried_twice(
        columns,
        #[trigger] fields[j],
    ) by {
        lemma_ambiguous(columns, fields[j]);
    }
    let first_twice = by_id && 0 <= k < fields.len() && is_carried_twice(columns, fields[k])
        && forall|j: int| 0 <= j < k ==> !is_carried_twice(columns, #[trigger] fields[j]);
    if first_twice {
        assert forall|j: int| 0 <= j < k implies !p(#[trigger] fields[j]) by {
            assert(!is_carried_twice(columns, fields[j]));
        }
        lemma_found(fields, p, k);
        let wanted = |f: FieldRef| same_id(fields[k], f);
        let id = own_id(fields[k]);
        let carrying = |f: FieldRef| has_id(f, id);
        lemma_ambiguous(columns, fields[k]);
        assert(wanted =~= carrying) by {
            assert forall|f: FieldRef| #[trigger] wanted(f) == carrying(f) by {}
        }
        if lists_positions(at, columns, wanted) {
            lemma_filtered_names(columns, carrying, at);
        }
    }
}

} // verus!
