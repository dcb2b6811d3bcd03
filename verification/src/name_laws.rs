//! What holds of lowercasing and of name equality, whatever the tables are.

use crate::case_tables::{CaseData, JvmCaseTables};
use crate::lowercase::{
    data_of, java_lowercase, names_equal_ignore_case_java, same_name, CAPITAL_SIGMA,
    SMALL_FINAL_SIGMA, SMALL_SIGMA,
};
use crate::text::{ascii_lower, equal_ignoring_ascii_case};
use vstd::prelude::*;
use vstd::utf8::*;

verus! {

// ---------------------------------------------------------------------------------------------
// Name equality
// ---------------------------------------------------------------------------------------------

/// Every name matches itself, and matching goes both ways.
pub proof fn matching_is_reflexive_and_symmetric(
    a: Seq<char>,
    b: Seq<char>,
    tables: Option<CaseData>,
)
    ensures
        same_name(a, a, tables),
        same_name(a, b, tables) == same_name(b, a, tables),
{
}

/// Whether ASCII names match does not depend on the tables, nor on there being any.
pub proof fn ascii_names_match_alike_under_all_tables(
    a: Seq<char>,
    b: Seq<char>,
    tables: Option<CaseData>,
    others: Option<CaseData>,
)
    requires
        is_ascii_chars(a),
        is_ascii_chars(b),
    ensures
        same_name(a, b, tables) == same_name(a, b, others),
        same_name(a, b, tables) == equal_ignoring_ascii_case(a, b),
{
}

/// Whether the tables lowercase ASCII characters the way ASCII does.
pub open spec fn folds_ascii(data: CaseData) -> bool {
    forall|c: char|
        '\0' <= c <= '\u{7f}' ==> #[trigger] data.replacement_of(c) == seq![ascii_lower(c)]
}

proof fn lemma_flatten_singletons(pieces: Seq<Seq<char>>, r: Seq<char>)
    requires
        pieces.len() == r.len(),
        forall|i: int| 0 <= i < r.len() ==> #[trigger] pieces[i] == seq![r[i]],
    ensures
        pieces.flatten() == r,
    decreases r.len(),
{
    if r.len() == 0 {
        assert(pieces.flatten() =~= r);
    } else {
        let p0 = pieces.drop_last();
        let r0 = r.drop_last();
        assert forall|i: int| 0 <= i < r0.len() implies #[trigger] p0[i] == seq![r0[i]] by {
            assert(pieces[i] == seq![r[i]]);
        }
        lemma_flatten_singletons(p0, r0);
        p0.lemma_flatten_push(pieces.last());
        assert(p0.push(pieces.last()) =~= pieces);
        assert(pieces[r.len() - 1] == seq![r[r.len() - 1]]);
        assert(r0 + seq![r.last()] =~= r);
    }
}

proof fn lemma_ascii_lowercases(data: CaseData, s: Seq<char>)
    requires
        folds_ascii(data),
        is_ascii_chars(s),
    ensures
        data.lowercased(s) == s.map_values(|c: char| ascii_lower(c)),
{
    let pieces = Seq::new(s.len(), |i: int| data.lowered_char(s, i));
    let r = s.map_values(|c: char| ascii_lower(c));
    assert forall|i: int| 0 <= i < r.len() implies #[trigger] pieces[i] == seq![r[i]] by {
        assert('\0' <= s[i] <= '\u{7f}');
        assert(data.replacement_of(s[i]) == seq![ascii_lower(s[i])]);
    }
    lemma_flatten_singletons(pieces, r);
}

/// With tables, two names match if and only if they lowercase to the same text. Where both names
/// are ASCII, this takes tables that lowercase ASCII characters the way ASCII does.
pub proof fn names_match_iff_they_lowercase_alike(a: Seq<char>, b: Seq<char>, data: CaseData)
    requires
        is_ascii_chars(a) && is_ascii_chars(b) ==> folds_ascii(data),
    ensures
        same_name(a, b, Some(data)) == (data.lowercased(a) == data.lowercased(b)),
{
    if is_ascii_chars(a) && is_ascii_chars(b) {
        lemma_ascii_lowercases(data, a);
        lemma_ascii_lowercases(data, b);
    }
}

/// Two names match if and only if what they lowercase to is the same text, with tables or without.
/// Where there are tables and both names are ASCII, this takes tables that lowercase ASCII
/// characters the way ASCII does.
///
/// `lower_a`, `lower_b` and `matched` are what the three functions return.
pub proof fn names_match_iff_their_lowercase_forms_are_equal(
    a: &str,
    b: &str,
    tables: Option<&JvmCaseTables>,
    lower_a: String,
    lower_b: String,
    matched: bool,
)
    requires
        call_ensures(java_lowercase, (a, tables), lower_a),
        call_ensures(java_lowercase, (b, tables), lower_b),
        call_ensures(names_equal_ignore_case_java, (a, b, tables), matched),
        is_ascii_chars(a@) && is_ascii_chars(b@) ==> (data_of(tables) matches Some(data)
            ==> folds_ascii(data)),
    ensures
        matched == (lower_a@ == lower_b@),
{
    if let Some(data) = data_of(tables) {
        names_match_iff_they_lowercase_alike(a@, b@, data);
    }
}

/// With tables that lowercase ASCII characters the way ASCII does, names that match a common name
/// match each other.
pub proof fn matching_is_transitive(a: Seq<char>, b: Seq<char>, c: Seq<char>, data: CaseData)
    requires
        folds_ascii(data),
        same_name(a, b, Some(data)),
        same_name(b, c, Some(data)),
    ensures
        same_name(a, c, Some(data)),
{
    names_match_iff_they_lowercase_alike(a, b, data);
    names_match_iff_they_lowercase_alike(b, c, data);
    names_match_iff_they_lowercase_alike(a, c, data);
}

// ---------------------------------------------------------------------------------------------
// Character by character
// ---------------------------------------------------------------------------------------------

/// Whether no character of `s` is a capital sigma.
pub open spec fn has_no_sigma(s: Seq<char>) -> bool {
    forall|i: int| 0 <= i < s.len() ==> #[trigger] s[i] != CAPITAL_SIGMA
}

/// Only a capital sigma looks at its neighbors: any other character lowercases alike wherever it
/// stands.
pub proof fn only_sigma_looks_around(data: CaseData, s: Seq<char>, i: int, t: Seq<char>, j: int)
    requires
        0 <= i < s.len(),
        0 <= j < t.len(),
        s[i] == t[j],
        s[i] != CAPITAL_SIGMA,
    ensures
        data.lowered_char(s, i) == data.lowered_char(t, j),
        data.lowered_char(s, i) == data.replacement_of(s[i]),
{
}

/// A character other than a capital sigma lowercases to what the tables list for it, wherever it
/// stands, and to itself where they list nothing.
pub proof fn characters_are_replaced_as_listed(data: CaseData, s: Seq<char>, i: int)
    requires
        0 <= i < s.len(),
        s[i] != '\u{3A3}',
    ensures
        data.lower.contains_key(s[i]) ==> data.lowered_char(s, i) == data.lower[s[i]],
        !data.lower.contains_key(s[i]) ==> data.lowered_char(s, i) == seq![s[i]],
        data.lower.contains_key(s[i]) ==> data.lowercased(seq![s[i]]) == data.lower[s[i]],
        !data.lower.contains_key(s[i]) ==> data.lowercased(seq![s[i]]) == seq![s[i]],
{
    let one = seq![s[i]];
    let pieces = Seq::new(one.len(), |k: int| data.lowered_char(one, k));
    assert(pieces =~= seq![data.lowered_char(one, 0)]);
    pieces.lemma_flatten_one_element();
}

/// A text lowercases piece by piece: `pieces` holds what the tables list for each character, the
/// character itself where they list nothing, and for each capital sigma the small sigma whose form
/// its word asks for. Nothing is left out, added or moved.
pub proof fn texts_lowercase_character_by_character(
    tables: &JvmCaseTables,
    s: &str,
    lowered: String,
    pieces: Seq<Seq<char>>,
)
    requires
        call_ensures(JvmCaseTables::lowercase, (tables, s), lowered),
        pieces.len() == s@.len(),
        forall|i: int|
            0 <= i < s@.len() ==> #[trigger] pieces[i] == if s@[i] == '\u{3A3}' {
                if tables@.is_final_sigma(s@, i) {
                    seq!['\u{3C2}']
                } else {
                    seq!['\u{3C3}']
                }
            } else if tables@.lower.contains_key(s@[i]) {
                tables@.lower[s@[i]]
            } else {
                seq![s@[i]]
            },
    ensures
        lowered@ == pieces.flatten(),
{
    assert(pieces =~= Seq::new(s@.len(), |i: int| tables@.lowered_char(s@, i)));
}

/// With tables, a name is lowercased by them; without tables, the way `str::to_lowercase` does.
pub proof fn tables_decide_how_names_are_lowercased(
    s: &str,
    tables: Option<&JvmCaseTables>,
    lowered: String,
    by_tables: String,
    by_unicode: String,
)
    requires
        call_ensures(java_lowercase, (s, tables), lowered),
        tables matches Some(t) ==> call_ensures(JvmCaseTables::lowercase, (t, s), by_tables),
        tables is None ==> call_ensures(str::to_lowercase, (s,), by_unicode),
    ensures
        tables is Some ==> lowered@ == by_tables@,
        tables is None ==> lowered@ == by_unicode@,
{
}

/// A capital sigma lowercases to one of the two small sigmas, whatever replacement the tables
/// may list for it.
pub proof fn sigma_takes_one_of_two_forms(
    data: CaseData,
    lower: Map<char, Seq<char>>,
    s: Seq<char>,
    i: int,
)
    requires
        0 <= i < s.len(),
        s[i] == CAPITAL_SIGMA,
    ensures
        data.lowered_char(s, i) == seq![SMALL_SIGMA] || data.lowered_char(s, i)
            == seq![SMALL_FINAL_SIGMA],
        data.lowered_char(s, i) == (CaseData { lower, ..data }).lowered_char(s, i),
{
    let other = CaseData { lower, ..data };
    assert forall|c: char| other.class_of(c) == data.class_of(c) by {}
    assert((|c: char| other.is_visible(c)) =~= (|c: char| data.is_visible(c)));
    assert((|c: char| other.class_of(c)) =~= (|c: char| data.class_of(c)));
}

/// Texts without a capital sigma lowercase piece by piece.
pub proof fn lowercasing_joins_texts_without_sigma(data: CaseData, a: Seq<char>, b: Seq<char>)
    requires
        has_no_sigma(a),
        has_no_sigma(b),
    ensures
        data.lowercased(a + b) == data.lowercased(a) + data.lowercased(b),
{
    let pa = Seq::new(a.len(), |i: int| data.lowered_char(a, i));
    let pb = Seq::new(b.len(), |i: int| data.lowered_char(b, i));
    let p = Seq::new((a + b).len(), |i: int| data.lowered_char(a + b, i));
    assert forall|i: int| 0 <= i < p.len() implies p[i] == (pa + pb)[i] by {
        if i < a.len() {
            assert(a[i] != CAPITAL_SIGMA);
        } else {
            assert(b[i - a.len()] != CAPITAL_SIGMA);
        }
    }
    assert(p =~= pa + pb);
    vstd::seq_lib::lemma_flatten_concat(pa, pb);
}

/// Characters that the tables do not list lowercase to themselves.
pub proof fn unlisted_texts_stay_as_they_are(data: CaseData, s: Seq<char>)
    requires
        has_no_sigma(s),
        forall|i: int| 0 <= i < s.len() ==> !data.lower.contains_key(#[trigger] s[i]),
    ensures
        data.lowercased(s) == s,
{
    lemma_flatten_singletons(Seq::new(s.len(), |i: int| data.lowered_char(s, i)), s);
}

} // verus!
