//! What holds of reading the shipped case data: an entry that is not well-formed counts as if it
//! were not there.

use crate::case_tables::{
    aligned, is_class_triple, shipped_data, shipped_lower, shipped_ranges, ClassRange,
    JvmCaseTables,
};
use crate::text::is_scalar_value;
use vstd::prelude::*;

verus! {

proof fn lemma_lower_without(cps: Seq<u32>, repls: Seq<String>, k: int, n: int)
    requires
        0 <= k < cps.len(),
        k < repls.len(),
        !is_scalar_value(cps[k]),
        0 <= n <= cps.len(),
        n <= repls.len(),
    ensures
        n <= k ==> shipped_lower(cps.remove(k), repls.remove(k), n) == shipped_lower(cps, repls, n),
        n > k ==> shipped_lower(cps.remove(k), repls.remove(k), n - 1) == shipped_lower(
            cps,
            repls,
            n,
        ),
    decreases n,
{
    if n > 0 {
        lemma_lower_without(cps, repls, k, n - 1);
    }
}

/// A replacement for a number that is no character counts as if it were not there.
pub proof fn malformed_replacements_are_left_out(
    cps: Seq<u32>,
    repls: Seq<String>,
    raw: Seq<u32>,
    k: int,
)
    requires
        0 <= k < cps.len(),
        k < repls.len(),
        !numbers_a_character(cps[k]),
    ensures
        shipped_data(cps.remove(k), repls.remove(k), raw) == shipped_data(cps, repls, raw),
{
    lemma_lower_without(cps, repls, k, aligned(cps.len(), repls.len()));
}

proof fn lemma_lower_agrees(
    cps: Seq<u32>,
    repls: Seq<String>,
    cps2: Seq<u32>,
    repls2: Seq<String>,
    n: int,
)
    requires
        forall|i: int| 0 <= i < n ==> #[trigger] cps[i] == cps2[i],
        forall|i: int| 0 <= i < n ==> #[trigger] repls[i] == repls2[i],
    ensures
        shipped_lower(cps, repls, n) == shipped_lower(cps2, repls2, n),
    decreases n,
{
    if n > 0 {
        lemma_lower_agrees(cps, repls, cps2, repls2, n - 1);
        assert(cps[n - 1] == cps2[n - 1]);
        assert(repls[n - 1] == repls2[n - 1]);
    }
}

/// How many pairs two lists of these lengths form: as many as the shorter one has entries.
pub open spec fn pairs(a: nat, b: nat) -> int {
    if a < b {
        a as int
    } else {
        b as int
    }
}

/// Entries without a counterpart in the other list count as if they were not there.
pub proof fn surplus_entries_are_left_out(cps: Seq<u32>, repls: Seq<String>, raw: Seq<u32>)
    ensures
        ({
            let n = pairs(cps.len(), repls.len());
            shipped_data(cps, repls, raw) == shipped_data(cps.take(n), repls.take(n), raw)
        }),
{
    let n = pairs(cps.len(), repls.len());
    lemma_lower_agrees(cps, repls, cps.take(n), repls.take(n), n);
}

proof fn lemma_ranges_agree(raw: Seq<u32>, raw2: Seq<u32>, n: int)
    requires
        3 * n <= raw.len(),
        3 * n <= raw2.len(),
        forall|i: int| 0 <= i < 3 * n ==> #[trigger] raw[i] == raw2[i],
    ensures
        shipped_ranges(raw, n) == shipped_ranges(raw2, n),
    decreases n,
{
    if n > 0 {
        lemma_ranges_agree(raw, raw2, n - 1);
        assert(raw[3 * n - 3] == raw2[3 * n - 3]);
        assert(raw[3 * n - 2] == raw2[3 * n - 2]);
        assert(raw[3 * n - 1] == raw2[3 * n - 1]);
    }
}

/// A trailing partial triple counts as if it were not there.
pub proof fn partial_triples_are_left_out(cps: Seq<u32>, repls: Seq<String>, raw: Seq<u32>)
    ensures
        shipped_data(cps, repls, raw) == shipped_data(
            cps,
            repls,
            raw.take(raw.len() - raw.len() % 3),
        ),
{
    let whole = raw.take(raw.len() - raw.len() % 3);
    let n = raw.len() as int / 3;
    assert(whole.len() as int / 3 == n);
    lemma_ranges_agree(raw, whole, n);
}

/// `raw` without the triple at position `k`.
pub open spec fn without_triple(raw: Seq<u32>, k: int) -> Seq<u32> {
    raw.take(3 * k) + raw.skip(3 * k + 3)
}

proof fn lemma_ranges_without(raw: Seq<u32>, k: int, n: int)
    requires
        0 <= k,
        3 * k + 3 <= raw.len(),
        !is_class_triple(raw[3 * k], raw[3 * k + 1], raw[3 * k + 2]),
        k < n,
        3 * n <= raw.len(),
    ensures
        shipped_ranges(without_triple(raw, k), n - 1) == shipped_ranges(raw, n),
    decreases n,
{
    let rest = without_triple(raw, k);
    if n == k + 1 {
        lemma_ranges_agree(rest, raw, k);
    } else {
        lemma_ranges_without(raw, k, n - 1);
        assert(rest[3 * (n - 1) - 3] == raw[3 * n - 3]);
        assert(rest[3 * (n - 1) - 2] == raw[3 * n - 2]);
        assert(rest[3 * (n - 1) - 1] == raw[3 * n - 1]);
    }
}

/// A triple that is no class range (inverted, beyond the last code point, or with a class that
/// does not fit in a byte) counts as if it were not there.
pub proof fn malformed_triples_are_left_out(
    cps: Seq<u32>,
    repls: Seq<String>,
    raw: Seq<u32>,
    k: int,
)
    requires
        0 <= k,
        3 * k + 3 <= raw.len(),
        raw[3 * k] > raw[3 * k + 1] || raw[3 * k + 1] >= 0x110000 || raw[3 * k + 2] >= 256,
    ensures
        shipped_data(cps, repls, without_triple(raw, k)) == shipped_data(cps, repls, raw),
{
    let n = raw.len() as int / 3;
    assert(without_triple(raw, k).len() as int / 3 == n - 1);
    lemma_ranges_without(raw, k, n);
}

// ---------------------------------------------------------------------------------------------
// Well-formed entries
// ---------------------------------------------------------------------------------------------

/// Nothing shipped is nothing read.
pub proof fn nothing_shipped_is_nothing_read()
    ensures
        shipped_data(Seq::empty(), Seq::empty(), Seq::empty()).lower == Map::<
            char,
            Seq<char>,
        >::empty(),
        shipped_data(Seq::empty(), Seq::empty(), Seq::empty()).class_ranges == Seq::<
            ClassRange,
        >::empty(),
{
}

/// Whether `n` is the number of a character: of one before the surrogates or after them.
pub open spec fn numbers_a_character(n: u32) -> bool {
    n < 0xD800 || 0xDFFF < n < 0x110000
}

/// A further replacement for a character counts, in place of the one that the character may have.
/// Class ranges and the other replacements stay as they are.
pub proof fn further_replacements_count(
    cps: Seq<u32>,
    repls: Seq<String>,
    raw: Seq<u32>,
    cp: u32,
    repl: String,
)
    requires
        cps.len() == repls.len(),
        numbers_a_character(cp),
    ensures
        ({
            let before = shipped_data(cps, repls, raw);
            let after = shipped_data(cps.push(cp), repls.push(repl), raw);
            &&& after.lower == before.lower.insert(cp as char, repl@)
            &&& after.class_ranges == before.class_ranges
        }),
{
    lemma_lower_agrees(cps.push(cp), repls.push(repl), cps, repls, cps.len() as int);
}

/// A further class range counts, after those before it: first and last code point in order, neither
/// beyond the last there is, and a class that fits in a byte. Replacements stay as they are.
pub proof fn further_ranges_count(
    cps: Seq<u32>,
    repls: Seq<String>,
    raw: Seq<u32>,
    first: u32,
    last: u32,
    class: u32,
)
    requires
        raw.len() % 3 == 0,
        first <= last < 0x110000,
        class < 256,
    ensures
        ({
            let before = shipped_data(cps, repls, raw);
            let after = shipped_data(cps, repls, raw + seq![first, last, class]);
            &&& after.class_ranges == before.class_ranges.push((first, last, class as u8))
            &&& after.lower == before.lower
        }),
{
    let more = raw + seq![first, last, class];
    let n = raw.len() as int / 3;
    assert(more.len() as int / 3 == n + 1);
    lemma_ranges_agree(more, raw, n);
    assert(more[3 * (n + 1) - 3] == first);
    assert(more[3 * (n + 1) - 2] == last);
    assert(more[3 * (n + 1) - 1] == class);
}

/// Tables hold what was shipped: looking a character up in them gives the last replacement that was
/// shipped for it, and nothing where none was.
pub proof fn tables_hold_what_was_shipped(
    cps: &[u32],
    repls: &[String],
    raw: &[u32],
    tables: JvmCaseTables,
    c: char,
    found: Option<&String>,
    k: int,
)
    requires
        call_ensures(JvmCaseTables::from_proto, (cps, repls, raw), tables),
        call_ensures(JvmCaseTables::replacement, (&tables, c), found),
        -1 <= k < pairs(cps@.len(), repls@.len()),
        k >= 0 ==> cps@[k] == c as u32,
        forall|j: int|
            k < j < pairs(cps@.len(), repls@.len()) ==> #[trigger] cps@[j] != c as u32,
    ensures
        k >= 0 ==> (found matches Some(repl) && repl@ == repls@[k]@),
        k < 0 ==> found is None,
{
    lemma_last_replacement(cps@, repls@, c, k, pairs(cps@.len(), repls@.len()));
}

proof fn lemma_last_replacement(cps: Seq<u32>, repls: Seq<String>, c: char, k: int, n: int)
    requires
        -1 <= k < pairs(cps.len(), repls.len()),
        k >= 0 ==> cps[k] == c as u32,
        forall|j: int|
            k < j < pairs(cps.len(), repls.len()) ==> #[trigger] cps[j] != c as u32,
        k < n <= pairs(cps.len(), repls.len()),
    ensures
        k >= 0 ==> shipped_lower(cps, repls, n).contains_key(c) && shipped_lower(cps, repls, n)[c]
            == repls[k]@,
        k < 0 ==> !shipped_lower(cps, repls, n).contains_key(c),
    decreases n,
{
    if n - 1 > k {
        assert(cps[n - 1] != c as u32);
        lemma_last_replacement(cps, repls, c, k, n - 1);
    }
}

/// A character has the class that the shipped ranges give it.
pub proof fn classes_follow_from_the_shipped_ranges(
    cps: &[u32],
    repls: &[String],
    raw: &[u32],
    tables: JvmCaseTables,
    c: char,
    class: u8,
)
    requires
        call_ensures(JvmCaseTables::from_proto, (cps, repls, raw), tables),
        call_ensures(JvmCaseTables::class_of, (&tables, c), class),
    ensures
        tables@ == shipped_data(cps@, repls@, raw@),
        class == shipped_data(cps@, repls@, raw@).class_of(c),
{
}

} // verus!
