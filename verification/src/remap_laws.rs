//! What holds of renaming the columns of a file.

use crate::lowercase::same_name;
use crate::remap::{
    all_names, claims_name, fake_name, has_id, id_problem, id_target, is_ambiguous, is_shadowed,
    is_renamed, last_fake, lemma_exact_names_stay, lemma_fake_name_injective,
    lemma_matched_in_range, lemma_next_free_exists, name_map, names_of, names_with_id, new_name,
    own_id, resolution, shadows, MatchRules, Resolution,
};
use crate::schema::{field_id, FieldRef};
use crate::search::{first_index_is_least, lemma_found};
use vstd::prelude::*;

verus! {

// ---------------------------------------------------------------------------------------------
// Made-up names
// ---------------------------------------------------------------------------------------------

proof fn lemma_fakes_ascend(
    logical: Seq<FieldRef>,
    physical: Seq<FieldRef>,
    rules: MatchRules,
    m: int,
    n: int,
)
    requires
        0 <= m <= n <= physical.len(),
    ensures
        last_fake(logical, physical, rules, m) <= last_fake(logical, physical, rules, n),
    decreases n,
{
    if m < n {
        lemma_fakes_ascend(logical, physical, rules, m, n - 1);
        lemma_next_free_exists(
            all_names(logical, physical),
            last_fake(logical, physical, rules, n - 1),
        );
    }
}

/// A made-up name is never the name of a real field, neither of the query nor of the file.
pub proof fn made_up_names_are_new(
    logical: Seq<FieldRef>,
    physical: Seq<FieldRef>,
    rules: MatchRules,
    i: int,
)
    requires
        0 <= i < physical.len(),
        resolution(logical, physical[i], rules) is Shielded,
    ensures
        !all_names(logical, physical).contains(new_name(logical, physical, rules, i)),
{
    lemma_next_free_exists(
        all_names(logical, physical),
        last_fake(logical, physical, rules, i),
    );
}

/// Two columns never get the same made-up name.
pub proof fn made_up_names_differ(
    logical: Seq<FieldRef>,
    physical: Seq<FieldRef>,
    rules: MatchRules,
    i: int,
    j: int,
)
    requires
        0 <= i < j < physical.len(),
        resolution(logical, physical[i], rules) is Shielded,
        resolution(logical, physical[j], rules) is Shielded,
    ensures
        new_name(logical, physical, rules, i) != new_name(logical, physical, rules, j),
{
    let a = last_fake(logical, physical, rules, i + 1);
    let b = last_fake(logical, physical, rules, j + 1);
    lemma_fakes_ascend(logical, physical, rules, i + 1, j);
    lemma_next_free_exists(
        all_names(logical, physical),
        last_fake(logical, physical, rules, j),
    );
    if fake_name(a) == fake_name(b) {
        lemma_fake_name_injective(a, b);
    }
}

proof fn lemma_logical_name_is_real(
    logical: Seq<FieldRef>,
    physical: Seq<FieldRef>,
    k: int,
)
    requires
        0 <= k < logical.len(),
    ensures
        all_names(logical, physical).contains(logical[k].name@),
{
    assert(all_names(logical, physical)[k] == logical[k].name@);
}

// ---------------------------------------------------------------------------------------------
// Identifiers
// ---------------------------------------------------------------------------------------------

/// A column with the identifier of a requested field takes the name of that field (the first,
/// if several carry it), whatever the column is called.
pub proof fn identifiers_come_before_names(
    logical: Seq<FieldRef>,
    physical: Seq<FieldRef>,
    rules: MatchRules,
    i: int,
    k: int,
)
    requires
        rules.by_id,
        0 <= i < physical.len(),
        0 <= k < logical.len(),
        field_id(*logical[k]) is Some,
        has_id(physical[i], own_id(logical[k])),
        forall|j: int| 0 <= j < k ==> !has_id(#[trigger] logical[j], own_id(logical[k])),
    ensures
        new_name(logical, physical, rules, i) == logical[k].name@,
{
    let id = own_id(logical[k]);
    let wanted = |l: FieldRef| has_id(l, id);
    assert(own_id(physical[i]) == id);
    assert(wanted(logical[k]));
    lemma_found(logical, wanted, k);
    assert(id_target(logical, physical[i]) == Some(k));
}

/// A requested field that carries an identifier is found by its identifier alone: a column that
/// ends up under its name carries that identifier.
pub proof fn fields_with_identifiers_are_found_by_identifier(
    logical: Seq<FieldRef>,
    physical: Seq<FieldRef>,
    rules: MatchRules,
    i: int,
    k: int,
)
    requires
        rules.by_id,
        names_of(logical).no_duplicates(),
        0 <= i < physical.len(),
        0 <= k < logical.len(),
        field_id(*logical[k]) is Some,
        new_name(logical, physical, rules, i) == logical[k].name@,
    ensures
        resolution(logical, physical[i], rules) == Resolution::Matched(k),
        has_id(physical[i], own_id(logical[k])),
{
    let column = physical[i];
    let name = logical[k].name@;
    match resolution(logical, column, rules) {
        Resolution::Matched(m) => {
            lemma_matched_in_range(logical, column, rules);
            assert(names_of(logical)[m] == logical[m].name@);
            assert(names_of(logical)[k] == logical[k].name@);
            assert(m == k);
            let id = own_id(column);
            first_index_is_least(logical, |l: FieldRef| has_id(l, id));
            first_index_is_least(logical, |l: FieldRef| claims_name(l, column.name@, rules));
            assert(!claims_name(logical[k], column.name@, rules));
        },
        Resolution::Shielded => {
            made_up_names_are_new(logical, physical, rules, i);
            lemma_logical_name_is_real(logical, physical, k);
        },
        Resolution::Kept => {
            assert(shadows(logical[k], column.name@, rules));
            assert(is_shadowed(logical, column, rules));
        },
    }
}

pub(crate) proof fn lemma_two_in_filter(
    s: Seq<FieldRef>,
    p: spec_fn(FieldRef) -> bool,
    i: int,
    j: int,
)
    requires
        0 <= i < j < s.len(),
        p(s[i]),
        p(s[j]),
    ensures
        s.filter(p).len() > 1,
{
    let a = s.take(j);
    let b = s.skip(j);
    assert(s =~= a + b);
    Seq::filter_distributes_over_add(a, b, p);
    assert(a[i] == s[i]);
    assert(b[0] == s[j]);
    a.lemma_filter_contains(p, i);
    b.lemma_filter_contains(p, 0);
    assert(a.filter(p).contains(s[i]));
    assert(b.filter(p).contains(s[j]));
}

/// Where matching by identifier is not refused, no two columns carry the identifier of a
/// requested field.
pub proof fn identifiers_are_unambiguous(
    logical: Seq<FieldRef>,
    physical: Seq<FieldRef>,
    ignore_missing_field_id: bool,
    k: int,
    i: int,
    j: int,
)
    requires
        id_problem(logical, physical, ignore_missing_field_id) is None,
        0 <= k < logical.len(),
        field_id(*logical[k]) is Some,
        0 <= i < physical.len(),
        0 <= j < physical.len(),
        has_id(physical[i], own_id(logical[k])),
        has_id(physical[j], own_id(logical[k])),
    ensures
        i == j,
{
    let id = own_id(logical[k]);
    let wanted = |f: FieldRef| has_id(f, id);
    first_index_is_least(logical, |l: FieldRef| is_ambiguous(l, physical));
    assert(!is_ambiguous(logical[k], physical));
    assert(names_with_id(physical, id).len() == physical.filter(wanted).len());
    if i < j {
        lemma_two_in_filter(physical, wanted, i, j);
    } else if j < i {
        lemma_two_in_filter(physical, wanted, j, i);
    }
}

/// A requested field whose identifier no column carries is not found at all, not even by name.
pub proof fn fields_with_unknown_identifiers_are_not_found(
    logical: Seq<FieldRef>,
    physical: Seq<FieldRef>,
    rules: MatchRules,
    i: int,
    k: int,
)
    requires
        rules.by_id,
        names_of(logical).no_duplicates(),
        0 <= i < physical.len(),
        0 <= k < logical.len(),
        field_id(*logical[k]) is Some,
        forall|j: int|
            0 <= j < physical.len() ==> !has_id(#[trigger] physical[j], own_id(logical[k])),
    ensures
        new_name(logical, physical, rules, i) != logical[k].name@,
{
    if new_name(logical, physical, rules, i) == logical[k].name@ {
        fields_with_identifiers_are_found_by_identifier(logical, physical, rules, i, k);
        assert(!has_id(physical[i], own_id(logical[k])));
    }
}

/// Where names must agree exactly, a requested field without identifier is found under its own
/// name, unless the column's identifier decides.
pub proof fn fields_without_identifiers_are_found_by_name(
    logical: Seq<FieldRef>,
    physical: Seq<FieldRef>,
    rules: MatchRules,
    i: int,
    k: int,
)
    requires
        rules.case_sensitive,
        names_of(logical).no_duplicates(),
        0 <= i < physical.len(),
        0 <= k < logical.len(),
        field_id(*logical[k]) is None,
        physical[i].name@ == logical[k].name@,
        rules.by_id ==> id_target(logical, physical[i]) is None,
    ensures
        new_name(logical, physical, rules, i) == logical[k].name@,
{
    let column = physical[i];
    if is_shadowed(logical, column, rules) {
        let m = choose|m: int|
            0 <= m < logical.len() && shadows(#[trigger] logical[m], column.name@, rules);
        assert(names_of(logical)[m] == logical[m].name@);
        assert(names_of(logical)[k] == logical[k].name@);
        assert(m == k);
    }
}

// ---------------------------------------------------------------------------------------------
// Names
// ---------------------------------------------------------------------------------------------

/// Where names must agree exactly and identifiers do not count, nothing is renamed.
pub proof fn exact_names_stay(logical: Seq<FieldRef>, physical: Seq<FieldRef>, rules: MatchRules)
    requires
        rules.case_sensitive,
        !rules.by_id,
    ensures
        forall|i: int|
            0 <= i < physical.len() ==> #[trigger] new_name(logical, physical, rules, i)
                == physical[i].name@,
        name_map(logical, physical, rules, physical.len() as int) == Map::<
            Seq<char>,
            Seq<char>,
        >::empty(),
{
    lemma_exact_names_stay(logical, physical, rules, physical.len() as int);
}

/// Where identifiers do not count, a column's new name is its name up to case.
pub proof fn renaming_keeps_names_up_to_case(
    logical: Seq<FieldRef>,
    physical: Seq<FieldRef>,
    rules: MatchRules,
    i: int,
)
    requires
        !rules.by_id,
        0 <= i < physical.len(),
    ensures
        same_name(new_name(logical, physical, rules, i), physical[i].name@, rules.tables),
{
    let column = physical[i];
    first_index_is_least(logical, |l: FieldRef| claims_name(l, column.name@, rules));
}

/// Where names agree up to case, a column that a requested field without identifier is found
/// under takes the name of the first such field, unless its identifier decides.
pub proof fn columns_take_the_requested_spelling(
    logical: Seq<FieldRef>,
    physical: Seq<FieldRef>,
    rules: MatchRules,
    i: int,
    k: int,
)
    requires
        !rules.case_sensitive,
        0 <= i < physical.len(),
        rules.by_id ==> id_target(logical, physical[i]) is None,
        0 <= k < logical.len(),
        claims_name(logical[k], physical[i].name@, rules),
        forall|j: int| 0 <= j < k ==> !claims_name(#[trigger] logical[j], physical[i].name@, rules),
    ensures
        new_name(logical, physical, rules, i) == logical[k].name@,
{
    let name = physical[i].name@;
    lemma_found(logical, |l: FieldRef| claims_name(l, name, rules), k);
}

proof fn lemma_leads_back(
    logical: Seq<FieldRef>,
    physical: Seq<FieldRef>,
    rules: MatchRules,
    n: int,
    i: int,
)
    requires
        0 <= i < physical.len(),
        0 <= n <= physical.len(),
        forall|j: int|
            0 <= j < physical.len() && j != i ==> #[trigger] new_name(logical, physical, rules, j)
                != new_name(logical, physical, rules, i),
    ensures
        ({
            let names = name_map(logical, physical, rules, n);
            let new = new_name(logical, physical, rules, i);
            names.contains_key(new) == (i < n && is_renamed(logical, physical, rules, i)) && (
            names.contains_key(new) ==> names[new] == physical[i].name@)
        }),
    decreases n,
{
    if n > 0 {
        lemma_leads_back(logical, physical, rules, n - 1, i);
        if n - 1 != i {
            assert(new_name(logical, physical, rules, n - 1) != new_name(
                logical,
                physical,
                rules,
                i,
            ));
        }
    }
}

/// Where no other column gets the new name of a column, the map from new names leads back to the
/// name that the column has in the file; a made-up name leads nowhere.
pub proof fn names_lead_back_to_the_file(
    logical: Seq<FieldRef>,
    physical: Seq<FieldRef>,
    rules: MatchRules,
    i: int,
)
    requires
        0 <= i < physical.len(),
        forall|j: int|
            0 <= j < physical.len() && j != i ==> #[trigger] new_name(logical, physical, rules, j)
                != new_name(logical, physical, rules, i),
    ensures
        ({
            let names = name_map(logical, physical, rules, physical.len() as int);
            let new = new_name(logical, physical, rules, i);
            if resolution(logical, physical[i], rules) is Shielded {
                !names.contains_key(new)
            } else if names.contains_key(new) {
                names[new] == physical[i].name@
            } else {
                new == physical[i].name@
            }
        }),
{
    lemma_leads_back(logical, physical, rules, physical.len() as int, i);
}

} // verus!
