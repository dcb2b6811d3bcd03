//! Renaming the columns of a file to the names by which a query asks for them.
//!
//! A requested field that carries an identifier is found by its identifier alone; every other
//! one is found by name, up to case unless names are case-sensitive. Only names change: the
//! order, types, nullability and metadata of the columns stay as in the file.

use crate::case_tables::{CaseData, JvmCaseTables};
use crate::errors::{Problem, SparkError};
use crate::lowercase::{data_of, names_equal_ignore_case_java, same_name};
use crate::schema::{
    as_position, field_id, has_field_ids, parse_field_id, schema_has_field_ids, FieldRef, Schema,
    SchemaRef,
};
use crate::search::{first_index, first_index_is_least, lemma_found, lemma_not_found};
use crate::string_map::StringMap;
use crate::text::{decimal, decimal_is_injective, join, joined, push_decimal, texts};
use std::sync::Arc;
use vstd::prelude::*;
use vstd::string::*;

verus! {

// ---------------------------------------------------------------------------------------------
// Which requested field a column is for
// ---------------------------------------------------------------------------------------------

/// How requested fields are matched with columns.
pub struct MatchRules {
    /// Whether names must agree exactly.
    pub case_sensitive: bool,
    /// The tables for names that agree up to case.
    pub tables: Option<CaseData>,
    /// Whether requested fields that carry an identifier are matched by it.
    pub by_id: bool,
}

/// What becomes of a column of the file.
pub enum Resolution {
    /// It takes the name of the requested field at this position.
    Matched(int),
    /// It is hidden under a name that nobody asks for.
    Shielded,
    /// It keeps its name.
    Kept,
}

/// Whether `field` carries the identifier `id`.
pub open spec fn has_id(field: FieldRef, id: i32) -> bool {
    field_id(*field) == Some(id)
}

/// The identifier of a field that carries one.
pub open spec fn own_id(field: FieldRef) -> i32 {
    field_id(*field)->0
}

/// The first requested field with the identifier of the column.
pub open spec fn id_target(logical: Seq<FieldRef>, column: FieldRef) -> Option<int> {
    match field_id(*column) {
        Some(id) => first_index(logical, |l: FieldRef| has_id(l, id)),
        None => None,
    }
}

/// Whether a requested field is matched by name with a column of this name.
pub open spec fn claims_name(field: FieldRef, name: Seq<char>, rules: MatchRules) -> bool {
    !(rules.by_id && field_id(*field) is Some) && same_name(field.name@, name, rules.tables)
}

/// The first requested field that is matched by name with the column.
pub open spec fn name_target(
    logical: Seq<FieldRef>,
    column: FieldRef,
    rules: MatchRules,
) -> Option<int> {
    first_index(logical, |l: FieldRef| claims_name(l, column.name@, rules))
}

/// Whether a requested field that is matched by identifier would also be found under `name`.
pub open spec fn shadows(field: FieldRef, name: Seq<char>, rules: MatchRules) -> bool {
    field_id(*field) is Some && if rules.case_sensitive {
        field.name@ == name
    } else {
        same_name(field.name@, name, rules.tables)
    }
}

/// Whether the column would be found under the name of a requested field that is matched by
/// identifier.
pub open spec fn is_shadowed(logical: Seq<FieldRef>, column: FieldRef, rules: MatchRules) -> bool {
    exists|i: int| 0 <= i < logical.len() && shadows(#[trigger] logical[i], column.name@, rules)
}

/// What becomes of the column: a match by identifier comes first, then a match by name, and a
/// column that is left over is hidden if its name would hit a field matched by identifier.
pub open spec fn resolution(
    logical: Seq<FieldRef>,
    column: FieldRef,
    rules: MatchRules,
) -> Resolution {
    if rules.by_id && id_target(logical, column) is Some {
        Resolution::Matched(id_target(logical, column)->0)
    } else if !rules.case_sensitive && name_target(logical, column, rules) is Some {
        Resolution::Matched(name_target(logical, column, rules)->0)
    } else if rules.by_id && is_shadowed(logical, column, rules) {
        Resolution::Shielded
    } else {
        Resolution::Kept
    }
}

// ---------------------------------------------------------------------------------------------
// Names that nobody asks for
// ---------------------------------------------------------------------------------------------

/// The names of fields.
pub open spec fn names_of(fields: Seq<FieldRef>) -> Seq<Seq<char>> {
    fields.map_values(|f: FieldRef| f.name@)
}

/// The names of all requested fields and all columns of the file.
pub open spec fn all_names(logical: Seq<FieldRef>, physical: Seq<FieldRef>) -> Seq<Seq<char>> {
    names_of(logical) + names_of(physical)
}

/// The `k`-th made-up name.
pub open spec fn fake_name(k: nat) -> Seq<char> {
    "__comet_unmatched_field_id_"@ + decimal(k)
}

/// Whether the `k`-th made-up name is taken by a real field.
pub open spec fn is_taken(names: Seq<Seq<char>>, k: nat) -> bool {
    names.contains(fake_name(k))
}

/// Whether `k` is the first number after `after` whose made-up name is free.
pub open spec fn is_next_free(names: Seq<Seq<char>>, after: nat, k: nat) -> bool {
    &&& after < k
    &&& !is_taken(names, k)
    &&& forall|m: nat| after < m < k ==> #[trigger] is_taken(names, m)
}

/// The first number after `after` whose made-up name is free.
pub open spec fn next_free(names: Seq<Seq<char>>, after: nat) -> nat {
    choose|k: nat| is_next_free(names, after, k)
}

/// The number of the last made-up name that was given to the first `n` columns.
pub open spec fn last_fake(
    logical: Seq<FieldRef>,
    physical: Seq<FieldRef>,
    rules: MatchRules,
    n: int,
) -> nat
    decreases n,
{
    if n <= 0 {
        0
    } else {
        let before = last_fake(logical, physical, rules, n - 1);
        if resolution(logical, physical[n - 1], rules) is Shielded {
            next_free(all_names(logical, physical), before)
        } else {
            before
        }
    }
}

// ---------------------------------------------------------------------------------------------
// The renamed schema
// ---------------------------------------------------------------------------------------------

/// The name that the column at position `i` gets.
pub open spec fn new_name(
    logical: Seq<FieldRef>,
    physical: Seq<FieldRef>,
    rules: MatchRules,
    i: int,
) -> Seq<char> {
    match resolution(logical, physical[i], rules) {
        Resolution::Matched(k) => logical[k].name@,
        Resolution::Shielded => fake_name(last_fake(logical, physical, rules, i + 1)),
        Resolution::Kept => physical[i].name@,
    }
}

/// Whether the column at position `i` takes the name of a requested field, and that is not the
/// name it has.
pub open spec fn is_renamed(
    logical: Seq<FieldRef>,
    physical: Seq<FieldRef>,
    rules: MatchRules,
    i: int,
) -> bool {
    resolution(logical, physical[i], rules) is Matched && new_name(logical, physical, rules, i)
        != physical[i].name@
}

/// From the new names of the first `n` columns to the names that they have in the file; where
/// several columns get one name, the last one counts.
pub open spec fn name_map(
    logical: Seq<FieldRef>,
    physical: Seq<FieldRef>,
    rules: MatchRules,
    n: int,
) -> Map<Seq<char>, Seq<char>>
    decreases n,
{
    if n <= 0 {
        Map::empty()
    } else {
        let before = name_map(logical, physical, rules, n - 1);
        if is_renamed(logical, physical, rules, n - 1) {
            before.insert(new_name(logical, physical, rules, n - 1), physical[n - 1].name@)
        } else {
            before
        }
    }
}

/// Where names must agree exactly and identifiers do not count, nothing is renamed.
pub(crate) proof fn lemma_exact_names_stay(
    logical: Seq<FieldRef>,
    physical: Seq<FieldRef>,
    rules: MatchRules,
    n: int,
)
    requires
        rules.case_sensitive,
        !rules.by_id,
        0 <= n <= physical.len(),
    ensures
        forall|i: int|
            0 <= i < physical.len() ==> #[trigger] new_name(logical, physical, rules, i)
                == physical[i].name@,
        name_map(logical, physical, rules, n) == Map::<Seq<char>, Seq<char>>::empty(),
    decreases n,
{
    if n > 0 {
        lemma_exact_names_stay(logical, physical, rules, n - 1);
    }
}

/// Whether `renamed` is `physical` with every column under its new name, and nothing else
/// changed.
pub open spec fn is_renaming(
    logical: Seq<FieldRef>,
    physical: Seq<FieldRef>,
    rules: MatchRules,
    renamed: Seq<FieldRef>,
) -> bool {
    &&& renamed.len() == physical.len()
    &&& forall|i: int|
        0 <= i < physical.len() ==> (#[trigger] renamed[i])@ == physical[i]@.renamed(
            new_name(logical, physical, rules, i),
        )
}

/// Whether requested fields are matched by identifier: this was asked for, and some requested
/// field carries one.
pub open spec fn matches_by_id(logical: Seq<FieldRef>, use_field_id: bool) -> bool {
    use_field_id && has_field_ids(logical)
}

/// The names of the fields that carry the identifier `id`, in order.
pub open spec fn names_with_id(fields: Seq<FieldRef>, id: i32) -> Seq<Seq<char>> {
    names_of(fields.filter(|f: FieldRef| has_id(f, id)))
}

/// Whether more than one column carries the identifier of a requested field.
pub open spec fn is_ambiguous(field: FieldRef, physical: Seq<FieldRef>) -> bool {
    field_id(*field) matches Some(id) && names_with_id(physical, id).len() > 1
}

/// The first requested field whose identifier more than one column carries.
pub open spec fn first_ambiguous(
    logical: Seq<FieldRef>,
    physical: Seq<FieldRef>,
) -> Option<int> {
    first_index(logical, |l: FieldRef| is_ambiguous(l, physical))
}

/// Why requested fields cannot be matched by identifier: the file carries no identifiers, which
/// may be ignored, or more than one column carries a requested one.
pub open spec fn id_problem(
    logical: Seq<FieldRef>,
    physical: Seq<FieldRef>,
    ignore_missing_field_id: bool,
) -> Option<Problem> {
    if !ignore_missing_field_id && !has_field_ids(physical) {
        Some(Problem::MissingFieldIds)
    } else {
        match first_ambiguous(logical, physical) {
            Some(k) => Some(
                Problem::DuplicateId {
                    required_id: own_id(logical[k]),
                    matched_fields: joined(
                        names_with_id(physical, own_id(logical[k])),
                        ", "@,
                    ),
                },
            ),
            None => None,
        }
    }
}

// ---------------------------------------------------------------------------------------------
// Room for made-up names
// ---------------------------------------------------------------------------------------------

/// The made-up names with numbers from 1 to `n` that are taken, in order.
spec fn taken_fakes(names: Seq<Seq<char>>, n: nat) -> Seq<Seq<char>>
    decreases n,
{
    if n == 0 {
        Seq::empty()
    } else {
        let before = taken_fakes(names, (n - 1) as nat);
        if is_taken(names, n) {
            before.push(fake_name(n))
        } else {
            before
        }
    }
}

/// Made-up names with different numbers differ.
pub(crate) proof fn lemma_fake_name_injective(a: nat, b: nat)
    requires
        fake_name(a) == fake_name(b),
    ensures
        a == b,
{
    let p = "__comet_unmatched_field_id_"@;
    assert(fake_name(a).skip(p.len() as int) =~= decimal(a));
    assert(fake_name(b).skip(p.len() as int) =~= decimal(b));
    decimal_is_injective(a, b);
}

proof fn lemma_taken_fakes(names: Seq<Seq<char>>, n: nat)
    ensures
        taken_fakes(names, n).len() <= n,
        forall|i: int|
            0 <= i < taken_fakes(names, n).len() ==> names.contains(
                #[trigger] taken_fakes(names, n)[i],
            ),
        forall|i: int|
            0 <= i < taken_fakes(names, n).len() ==> exists|k: nat|
                1 <= k <= n && #[trigger] fake_name(k) == #[trigger] taken_fakes(names, n)[i],
        taken_fakes(names, n).no_duplicates(),
    decreases n,
{
    if n > 0 {
        let m = (n - 1) as nat;
        lemma_taken_fakes(names, m);
        let before = taken_fakes(names, m);
        let t = taken_fakes(names, n);
        assert forall|i: int| 0 <= i < t.len() implies exists|k: nat|
            1 <= k <= n && #[trigger] fake_name(k) == #[trigger] t[i] by {
            if i < before.len() {
                let k = choose|k: nat| 1 <= k <= m && #[trigger] fake_name(k) == before[i];
                assert(fake_name(k) == t[i]);
            } else {
                assert(fake_name(n) == t[i]);
            }
        }
        assert forall|i: int| 0 <= i < t.len() implies names.contains(#[trigger] t[i]) by {
            if i < before.len() {
                assert(t[i] == before[i]);
            }
        }
        assert forall|i: int, j: int| 0 <= i < j < t.len() implies t[i] != t[j] by {
            if j == before.len() {
                let k = choose|k: nat| 1 <= k <= m && #[trigger] fake_name(k) == before[i];
                if fake_name(k) == fake_name(n) {
                    lemma_fake_name_injective(k, n);
                }
            } else {
                assert(before[i] != before[j]);
            }
        }
    }
}

/// No more made-up names are taken than there are names.
proof fn lemma_few_taken(names: Seq<Seq<char>>, n: nat)
    ensures
        taken_fakes(names, n).len() <= names.len(),
{
    let t = taken_fakes(names, n);
    lemma_taken_fakes(names, n);
    t.unique_seq_to_set();
    names.lemma_cardinality_of_set();
    assert(t.to_set().subset_of(names.to_set())) by {
        assert forall|x: Seq<char>| t.to_set().contains(x) implies names.to_set().contains(x) by {
            let i = t.index_of(x);
            assert(t.contains(x));
            assert(t[i] == x);
        }
    }
    vstd::set_lib::lemma_len_subset(t.to_set(), names.to_set());
}

proof fn lemma_next_free_unique(names: Seq<Seq<char>>, after: nat, a: nat, b: nat)
    requires
        is_next_free(names, after, a),
        is_next_free(names, after, b),
    ensures
        a == b,
{
    if a < b {
        assert(is_taken(names, a));
    } else if b < a {
        assert(is_taken(names, b));
    }
}

proof fn lemma_search_free(names: Seq<Seq<char>>, after: nat, k: nat)
    requires
        after <= k,
        forall|m: nat| after < m <= k ==> #[trigger] is_taken(names, m),
        taken_fakes(names, k).len() >= k - after,
    ensures
        exists|f: nat| is_next_free(names, after, f),
    decreases names.len() - (k - after),
{
    lemma_few_taken(names, k);
    lemma_few_taken(names, k + 1);
    if is_taken(names, k + 1) {
        lemma_search_free(names, after, k + 1);
    } else {
        assert(is_next_free(names, after, k + 1));
    }
}

/// After every number comes one whose made-up name is free.
pub(crate) proof fn lemma_next_free_exists(names: Seq<Seq<char>>, after: nat)
    ensures
        is_next_free(names, after, next_free(names, after)),
{
    lemma_search_free(names, after, after);
}

// ---------------------------------------------------------------------------------------------
// Matching and renaming
// ---------------------------------------------------------------------------------------------

/// A column is matched with a requested field that there is.
pub(crate) proof fn lemma_matched_in_range(
    logical: Seq<FieldRef>,
    column: FieldRef,
    rules: MatchRules,
)
    ensures
        resolution(logical, column, rules) matches Resolution::Matched(k) ==> 0 <= k
            < logical.len(),
{
    let id = own_id(column);
    first_index_is_least(logical, |l: FieldRef| has_id(l, id));
    first_index_is_least(logical, |l: FieldRef| claims_name(l, column.name@, rules));
}

/// The position of the first field with the identifier `id`.
fn find_by_id(logical: &Schema, id: i32) -> (r: Option<usize>)
    ensures
        as_position(r) == first_index(logical.fields@, |l: FieldRef| has_id(l, id)),
{
    let ghost wanted = |l: FieldRef| has_id(l, id);
    for i in 0..logical.fields.len()
        invariant
            wanted == (|l: FieldRef| has_id(l, id)),
            forall|j: int| 0 <= j < i ==> !wanted(#[trigger] logical.fields@[j]),
    {
        if parse_field_id(&logical.fields[i]) == Some(id) {
            proof {
                lemma_found(logical.fields@, wanted, i as int);
            }
            return Some(i);
        }
    }
    proof {
        lemma_not_found(logical.fields@, wanted);
    }
    None
}

/// The position of the first field that is matched by name with a column of this name.
fn find_by_name(
    logical: &Schema,
    name: &String,
    case_tables: Option<&JvmCaseTables>,
    by_id: bool,
    Ghost(rules): Ghost<MatchRules>,
) -> (r: Option<usize>)
    requires
        rules.tables == data_of(case_tables),
        rules.by_id == by_id,
    ensures
        as_position(r) == first_index(
            logical.fields@,
            |l: FieldRef| claims_name(l, name@, rules),
        ),
{
    let ghost wanted = |l: FieldRef| claims_name(l, name@, rules);
    for i in 0..logical.fields.len()
        invariant
            wanted == (|l: FieldRef| claims_name(l, name@, rules)),
            rules.tables == data_of(case_tables),
            rules.by_id == by_id,
            forall|j: int| 0 <= j < i ==> !wanted(#[trigger] logical.fields@[j]),
    {
        let field = &logical.fields[i];
        let by_its_id: bool = by_id && parse_field_id(field).is_some();
        if !by_its_id && names_equal_ignore_case_java(
            field.name.as_str(),
            name.as_str(),
            case_tables,
        ) {
            proof {
                lemma_found(logical.fields@, wanted, i as int);
            }
            return Some(i);
        }
    }
    proof {
        lemma_not_found(logical.fields@, wanted);
    }
    None
}

/// Whether a column of this name would be found under the name of a field that is matched by
/// identifier.
fn hits_id_field(
    logical: &Schema,
    column: &FieldRef,
    case_sensitive: bool,
    case_tables: Option<&JvmCaseTables>,
    Ghost(rules): Ghost<MatchRules>,
) -> (r: bool)
    requires
        rules.tables == data_of(case_tables),
        rules.case_sensitive == case_sensitive,
    ensures
        r == is_shadowed(logical.fields@, *column, rules),
{
    for i in 0..logical.fields.len()
        invariant
            rules.tables == data_of(case_tables),
            rules.case_sensitive == case_sensitive,
            forall|j: int|
                0 <= j < i ==> !shadows(#[trigger] logical.fields@[j], column.name@, rules),
    {
        let field = &logical.fields[i];
        if parse_field_id(field).is_some() {
            let hit = if case_sensitive {
                field.name == column.name
            } else {
                names_equal_ignore_case_java(
                    field.name.as_str(),
                    column.name.as_str(),
                    case_tables,
                )
            };
            if hit {
                assert(shadows(logical.fields@[i as int], column.name@, rules));
                return true;
            }
        }
    }
    false
}

/// Whether a field of the schema has exactly this name.
fn has_name(schema: &Schema, name: &String) -> (r: bool)
    ensures
        r == names_of(schema.fields@).contains(name@),
{
    let ghost names = names_of(schema.fields@);
    for i in 0..schema.fields.len()
        invariant
            names == names_of(schema.fields@),
            forall|j: int| 0 <= j < i ==> #[trigger] names[j] != name@,
    {
        if schema.fields[i].name == *name {
            assert(names[i as int] == name@);
            return true;
        }
    }
    false
}

/// The next made-up name that no real field has, and its number.
fn next_fake_name(logical: &Schema, physical: &Schema, after: u128, given: Ghost<nat>) -> (r: (
    String,
    u128,
))
    requires
        after - taken_fakes(all_names(logical.fields@, physical.fields@), after as nat).len()
            == given@,
        given@ < usize::MAX,
    ensures
        r.0@ == fake_name(r.1 as nat),
        is_next_free(all_names(logical.fields@, physical.fields@), after as nat, r.1 as nat),
        r.1 - taken_fakes(all_names(logical.fields@, physical.fields@), r.1 as nat).len() == given@
            + 1,
{
    let ghost names = all_names(logical.fields@, physical.fields@);
    let ghost lnames = names_of(logical.fields@);
    let ghost pnames = names_of(physical.fields@);
    let mut k: u128 = after;
    proof {
        let n = logical.fields.len();
        let m = physical.fields.len();
        assert(names.len() == n + m);
        lemma_few_taken(names, after as nat);
    }
    loop
        invariant
            names == all_names(logical.fields@, physical.fields@),
            lnames == names_of(logical.fields@),
            pnames == names_of(physical.fields@),
            names.len() <= usize::MAX + usize::MAX,
            given@ < usize::MAX,
            after <= k,
            k <= names.len() + given@,
            k - taken_fakes(names, k as nat).len() == given@,
            forall|m: nat| after < m <= k ==> #[trigger] is_taken(names, m),
        decreases names.len() + given@ - k,
    {
        k = k + 1;
        let mut candidate = "__comet_unmatched_field_id_".to_owned();
        push_decimal(&mut candidate, k);
        assert(candidate@ == fake_name(k as nat));
        let taken: bool = has_name(logical, &candidate) || has_name(physical, &candidate);
        proof {
            assert(taken == is_taken(names, k as nat)) by {
                if lnames.contains(candidate@) {
                    let i = lnames.index_of(candidate@);
                    assert(names[i] == candidate@);
                }
                if pnames.contains(candidate@) {
                    let i = pnames.index_of(candidate@);
                    assert(names[lnames.len() + i] == candidate@);
                }
                if names.contains(candidate@) {
                    let i = names.index_of(candidate@);
                    if i < lnames.len() {
                        assert(lnames[i] == candidate@);
                    } else {
                        assert(pnames[i - lnames.len()] == candidate@);
                    }
                }
            }
        }
        if !taken {
            return (candidate, k);
        }
        proof {
            lemma_few_taken(names, k as nat);
        }
    }
}

/// The names of the fields that carry the identifier `id`.
fn collect_names_with_id(schema: &Schema, id: i32) -> (r: Vec<String>)
    ensures
        texts(r@) == names_with_id(schema.fields@, id),
{
    let mut out: Vec<String> = Vec::new();
    let ghost wanted = |f: FieldRef| has_id(f, id);
    let ghost fields = schema.fields@;
    for i in 0..schema.fields.len()
        invariant
            fields == schema.fields@,
            wanted == (|f: FieldRef| has_id(f, id)),
            texts(out@) == names_of(fields.take(i as int).filter(wanted)),
    {
        let field = &schema.fields[i];
        let ghost before = fields.take(i as int);
        proof {
            assert(fields.take(i + 1) =~= before.push(fields[i as int]));
            before.lemma_filter_push(fields[i as int], wanted);
        }
        if parse_field_id(field) == Some(id) {
            out.push(field.name.clone());
            proof {
                assert(texts(out@) =~= names_of(before.filter(wanted)).push(field.name@));
                assert(names_of(before.filter(wanted).push(fields[i as int])) =~= names_of(
                    before.filter(wanted),
                ).push(field.name@));
            }
        }
    }
    proof {
        assert(fields.take(fields.len() as int) =~= fields);
    }
    out
}

/// Finds the first requested field whose identifier more than one column carries.
fn duplicate_id(logical: &Schema, physical: &Schema) -> (r: Option<(i32, String)>)
    ensures
        match r {
            Some((id, matched)) => {
                &&& first_ambiguous(logical.fields@, physical.fields@) matches Some(k)
                &&& own_id(logical.fields@[k]) == id
                &&& matched@ == joined(names_with_id(physical.fields@, id), ", "@)
            },
            None => first_ambiguous(logical.fields@, physical.fields@) is None,
        },
{
    let ghost ambiguous = |l: FieldRef| is_ambiguous(l, physical.fields@);
    for i in 0..logical.fields.len()
        invariant
            ambiguous == (|l: FieldRef| is_ambiguous(l, physical.fields@)),
            forall|j: int| 0 <= j < i ==> !ambiguous(#[trigger] logical.fields@[j]),
    {
        if let Some(id) = parse_field_id(&logical.fields[i]) {
            let names = collect_names_with_id(physical, id);
            assert(texts(names@).len() == names@.len());
            if names.len() > 1 {
                proof {
                    lemma_found(logical.fields@, ambiguous, i as int);
                }
                return Some((id, join(&names, ", ")));
            }
        }
    }
    proof {
        lemma_not_found(logical.fields@, ambiguous);
    }
    None
}

/// Renames the columns of `physical_schema` to the names of the requested fields that they are
/// for. Returns the renamed schema, and the names that the renamed columns have in the file by
/// their new names.
pub fn remap_physical_schema(
    logical_schema: &Schema,
    physical_schema: &Schema,
    case_sensitive: bool,
    case_tables: Option<&JvmCaseTables>,
    use_field_id: bool,
    ignore_missing_field_id: bool,
) -> (r: Result<(SchemaRef, StringMap), SparkError>)
    ensures
        ({
            let logical = logical_schema.fields@;
            let physical = physical_schema.fields@;
            let by_id = matches_by_id(logical, use_field_id);
            let rules = MatchRules { case_sensitive, tables: data_of(case_tables), by_id };
            match r {
                Err(e) => by_id && id_problem(logical, physical, ignore_missing_field_id) == Some(
                    e@,
                ),
                Ok((renamed, names)) => {
                    &&& by_id ==> id_problem(logical, physical, ignore_missing_field_id) is None
                    &&& is_renaming(logical, physical, rules, renamed.fields@)
                    &&& names@ == name_map(logical, physical, rules, physical.len() as int)
                },
            }
        }),
{
    let by_id: bool = use_field_id && schema_has_field_ids(logical_schema);
    if by_id && !ignore_missing_field_id && !schema_has_field_ids(physical_schema) {
        return Err(SparkError::ParquetMissingFieldIds);
    }
    if by_id {
        if let Some((required_id, matched_fields)) = duplicate_id(logical_schema, physical_schema) {
            return Err(SparkError::DuplicateFieldByFieldId { required_id, matched_fields });
        }
    }
    let ghost logical = logical_schema.fields@;
    let ghost physical = physical_schema.fields@;
    let ghost rules = MatchRules { case_sensitive, tables: data_of(case_tables), by_id };
    let ghost names = all_names(logical, physical);
    let ghost mut given: nat = 0;
    let mut fake_counter: u128 = 0;
    let mut file_names = StringMap::new();
    let mut renamed: Vec<FieldRef> = Vec::new();
    for i in 0..physical_schema.fields.len()
        invariant
            logical == logical_schema.fields@,
            physical == physical_schema.fields@,
            rules == (MatchRules { case_sensitive, tables: data_of(case_tables), by_id }),
            names == all_names(logical, physical),
            given <= i,
            fake_counter - taken_fakes(names, fake_counter as nat).len() == given,
            fake_counter == last_fake(logical, physical, rules, i as int),
            file_names@ == name_map(logical, physical, rules, i as int),
            renamed@.len() == i,
            forall|j: int|
                0 <= j < i ==> (#[trigger] renamed@[j])@ == physical[j]@.renamed(
                    new_name(logical, physical, rules, j),
                ),
    {
        let column = &physical_schema.fields[i];
        let by_its_id: Option<usize> = if by_id {
            match parse_field_id(column) {
                Some(id) => find_by_id(logical_schema, id),
                None => None,
            }
        } else {
            None
        };
        assert(by_id ==> as_position(by_its_id) == id_target(logical, physical[i as int]));
        let target: Option<usize> = match by_its_id {
            Some(k) => Some(k),
            None => if !case_sensitive {
                find_by_name(logical_schema, &column.name, case_tables, by_id, Ghost(rules))
            } else {
                None
            },
        };
        if let Some(k) = target {
            proof {
                assert(resolution(logical, physical[i as int], rules) == Resolution::Matched(
                    k as int,
                ));
                lemma_matched_in_range(logical, physical[i as int], rules);
            }
            let field = &logical_schema.fields[k];
            if field.name != column.name {
                file_names.insert(field.name.clone(), column.name.clone());
                renamed.push(Arc::new(column.renamed(field.name.clone())));
            } else {
                renamed.push(Arc::clone(column));
            }
        } else if by_id && hits_id_field(
            logical_schema,
            column,
            case_sensitive,
            case_tables,
            Ghost(rules),
        ) {
            assert(resolution(logical, physical[i as int], rules) is Shielded);
            let (fake, number) = next_fake_name(
                logical_schema,
                physical_schema,
                fake_counter,
                Ghost(given),
            );
            proof {
                lemma_next_free_unique(
                    names,
                    fake_counter as nat,
                    number as nat,
                    next_free(names, fake_counter as nat),
                );
                given = given + 1;
            }
            fake_counter = number;
            renamed.push(Arc::new(column.renamed(fake)));
        } else {
            assert(resolution(logical, physical[i as int], rules) is Kept);
            renamed.push(Arc::clone(column));
        }
    }
    Ok((Arc::new(Schema { fields: renamed }), file_names))
}

} // verus!
