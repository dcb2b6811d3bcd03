//! The case data of the planning JVM: what each character lowercases to, and the word-break
//! class of each character.
//!
//! The data is generated on the JVM that plans the query and shipped with the scan, so that
//! name matching agrees with whatever JDK runs Spark.

use crate::text::is_scalar_value;
use std::collections::hash_map::DefaultHasher;
use std::hash::{Hash, Hasher};
use vstd::bytes::*;
use vstd::prelude::*;
use vstd::std_specs::hash::*;
use vstd::string::*;
use vstd::utf8::*;

verus! {

// ---------------------------------------------------------------------------------------------
// Word-break classes
// ---------------------------------------------------------------------------------------------

/// Not on the wire: the absence of a class. A character outside every shipped range, or with a
/// class value that this build does not know, is a word boundary.
pub const CLASS_BOUNDARY: u8 = 0;

/// Cased letter.
pub const CLASS_ALETTER_CASED: u8 = 1;

/// Letter without case.
pub const CLASS_ALETTER: u8 = 2;

/// Digit.
pub const CLASS_NUMERIC: u8 = 3;

/// Punctuation that joins letters.
pub const CLASS_MID_LETTER: u8 = 4;

/// Punctuation that joins digits.
pub const CLASS_MID_NUM: u8 = 5;

/// Punctuation that joins letters, and also digits.
pub const CLASS_MID_NUM_LET: u8 = 6;

/// Cased supplementary character: attaches to the preceding word and closes it (and forms a
/// word of its own at raw text start).
pub const CLASS_SUPP_CASED: u8 = 7;

/// `U+0964` and `U+0965`: word-terminal, chains only into digits.
pub const CLASS_DANDA: u8 = 8;

/// `U+0345`, the one cased combining mark: cased only when its run is attached to a word.
pub const CLASS_EXTEND_CASED: u8 = 9;

/// Cased digit (Roman numerals): joins like a cased letter when reached directly, but bridges
/// only mid-num punctuation, never mid-letter.
pub const CLASS_NUMERIC_CASED: u8 = 10;

/// Combining marks without case: riders that attach only to genuine letters and digits.
pub const CLASS_EXTEND: u8 = 11;

/// Word-forming supplementary letter without case: a genuine letter that closes the word
/// immediately after itself.
pub const CLASS_SUPP_LETTER: u8 = 12;

/// Format characters: fully transparent, deleted before the scans run.
pub const CLASS_FORMAT: u8 = 13;

/// Supplementary characters that attach to the preceding word but never form one themselves.
pub const CLASS_SUPP_MN: u8 = 14;

/// Word-forming supplementary digit: a riding cased mark carries only across mid-num
/// punctuation, never mid-letter.
pub const CLASS_SUPP_NUM: u8 = 15;

// ---------------------------------------------------------------------------------------------
// The model
// ---------------------------------------------------------------------------------------------

/// One class range: first and last code point, both in the range, and the class.
pub type ClassRange = (u32, u32, u8);

/// What a [`JvmCaseTables`] holds.
#[verifier::ext_equal]
pub struct CaseData {
    /// The characters that do not lowercase to themselves, with their full replacement.
    pub lower: Map<char, Seq<char>>,
    /// The class ranges, in the order in which they were shipped.
    pub class_ranges: Seq<ClassRange>,
}

/// The class that bisection of `ranges[lo..hi]` finds for the code point `cp`.
pub open spec fn bisected_class(ranges: Seq<ClassRange>, cp: u32, lo: int, hi: int) -> u8
    decreases hi - lo,
{
    if lo >= hi {
        CLASS_BOUNDARY
    } else {
        let mid = lo + (hi - lo) / 2;
        if cp < ranges[mid].0 {
            bisected_class(ranges, cp, lo, mid)
        } else if cp > ranges[mid].1 {
            bisected_class(ranges, cp, mid + 1, hi)
        } else {
            ranges[mid].2
        }
    }
}

/// Whether `range` covers the code point `cp`.
pub open spec fn covers(range: ClassRange, cp: u32) -> bool {
    range.0 <= cp <= range.1
}

/// Whether the ranges are in ascending order and do not overlap.
pub open spec fn sorted_and_disjoint(ranges: Seq<ClassRange>) -> bool {
    &&& forall|i: int| 0 <= i < ranges.len() ==> (#[trigger] ranges[i]).0 <= ranges[i].1
    &&& forall|i: int, j: int|
        #![trigger ranges[i], ranges[j]]
        0 <= i < j < ranges.len() ==> ranges[i].1 < ranges[j].0
}

impl CaseData {
    /// The word-break class of `c`.
    pub open spec fn class_of(self, c: char) -> u8 {
        bisected_class(self.class_ranges, c as u32, 0, self.class_ranges.len() as int)
    }

    /// The word-break classes of the characters of `s`.
    pub open spec fn classes_of(self, s: Seq<char>) -> Seq<u8> {
        s.map_values(|c: char| self.class_of(c))
    }
}

/// Among sorted, disjoint ranges a character has the class of the range that covers it, and
/// is a word boundary where none does.
pub proof fn sorted_ranges_classify_by_cover(data: CaseData, c: char)
    requires
        sorted_and_disjoint(data.class_ranges),
    ensures
        forall|i: int|
            0 <= i < data.class_ranges.len() && (#[trigger] data.class_ranges[i]).0 <= c as u32
                <= data.class_ranges[i].1 ==> data.class_of(c) == data.class_ranges[i].2,
        (forall|i: int|
            0 <= i < data.class_ranges.len() ==> !((#[trigger] data.class_ranges[i]).0 <= c as u32
                <= data.class_ranges[i].1)) ==> data.class_of(c) == CLASS_BOUNDARY,
{
    let n = data.class_ranges.len() as int;
    lemma_bisection_misses(data.class_ranges, c as u32, 0, n);
    assert forall|i: int|
        0 <= i < n && (#[trigger] data.class_ranges[i]).0 <= c as u32
            <= data.class_ranges[i].1 implies data.class_of(c) == data.class_ranges[i].2 by {
        lemma_bisection_finds(data.class_ranges, c as u32, 0, n, i);
    }
}

proof fn lemma_bisection_finds(ranges: Seq<ClassRange>, cp: u32, lo: int, hi: int, i: int)
    requires
        sorted_and_disjoint(ranges),
        0 <= lo <= i < hi <= ranges.len(),
        covers(ranges[i], cp),
    ensures
        bisected_class(ranges, cp, lo, hi) == ranges[i].2,
    decreases hi - lo,
{
    let mid = lo + (hi - lo) / 2;
    if cp < ranges[mid].0 {
        lemma_bisection_finds(ranges, cp, lo, mid, i);
    } else if cp > ranges[mid].1 {
        lemma_bisection_finds(ranges, cp, mid + 1, hi, i);
    } else if i < mid {
        assert(ranges[i].1 < ranges[mid].0);
    } else if mid < i {
        assert(ranges[mid].1 < ranges[i].0);
    }
}

/// Bisection finds no class but that of a covering range.
proof fn lemma_bisection_misses(ranges: Seq<ClassRange>, cp: u32, lo: int, hi: int)
    requires
        0 <= lo <= hi <= ranges.len(),
    ensures
        (forall|i: int| lo <= i < hi ==> !covers(#[trigger] ranges[i], cp)) ==> bisected_class(
            ranges,
            cp,
            lo,
            hi,
        ) == CLASS_BOUNDARY,
    decreases hi - lo,
{
    if lo < hi {
        let mid = lo + (hi - lo) / 2;
        lemma_bisection_misses(ranges, cp, lo, mid);
        lemma_bisection_misses(ranges, cp, mid + 1, hi);
        if forall|i: int| lo <= i < hi ==> !covers(#[trigger] ranges[i], cp) {
            assert(!covers(ranges[mid], cp));
        }
    }
}

proof fn lemma_bisection_within(
    ranges: Seq<ClassRange>,
    part: Seq<ClassRange>,
    cp: u32,
    lo: int,
    hi: int,
    from: int,
)
    requires
        0 <= lo <= hi <= part.len(),
        0 <= from,
        from + hi <= ranges.len(),
        forall|i: int| lo <= i < hi ==> #[trigger] part[i] == ranges[from + i],
    ensures
        bisected_class(part, cp, lo, hi) == bisected_class(ranges, cp, from + lo, from + hi),
    decreases hi - lo,
{
    if lo < hi {
        let mid = lo + (hi - lo) / 2;
        assert(part[mid] == ranges[from + mid]);
        lemma_bisection_within(ranges, part, cp, lo, mid, from);
        lemma_bisection_within(ranges, part, cp, mid + 1, hi, from);
    }
}

/// Whatever the order of the ranges, a character in the middle one has its class. One below it has
/// the class that the ranges before the middle one give it, and one above it the class that the
/// ranges after it give it. Without ranges every character is a word boundary.
pub proof fn ranges_are_bisected(ranges: Seq<ClassRange>, lower: Map<char, Seq<char>>, c: char)
    ensures
        ({
            let mid = ranges.len() as int / 2;
            let class = CaseData { lower, class_ranges: ranges }.class_of(c);
            if ranges.len() == 0 {
                class == 0
            } else if (c as u32) < ranges[mid].0 {
                class == CaseData { lower, class_ranges: ranges.take(mid) }.class_of(c)
            } else if (c as u32) > ranges[mid].1 {
                class == CaseData { lower, class_ranges: ranges.skip(mid + 1) }.class_of(c)
            } else {
                class == ranges[mid].2
            }
        }),
{
    let n = ranges.len() as int;
    if n > 0 {
        let mid = n / 2;
        lemma_bisection_within(ranges, ranges.take(mid), c as u32, 0, mid, 0);
        lemma_bisection_within(ranges, ranges.skip(mid + 1), c as u32, 0, n - mid - 1, mid + 1);
    }
}

// ---------------------------------------------------------------------------------------------
// The wire format
// ---------------------------------------------------------------------------------------------

/// Whether three shipped numbers are a class range: first, last and class.
pub open spec fn is_class_triple(first: u32, last: u32, class: u32) -> bool {
    first <= last <= 0x10FFFF && class <= 0xFF
}

/// The class ranges among the first `n` triples of `raw`.
pub open spec fn shipped_ranges(raw: Seq<u32>, n: int) -> Seq<ClassRange>
    decreases n,
{
    if n <= 0 {
        Seq::empty()
    } else {
        let before = shipped_ranges(raw, n - 1);
        let first = raw[3 * n - 3];
        let last = raw[3 * n - 2];
        let class = raw[3 * n - 1];
        if is_class_triple(first, last, class) {
            before.push((first, last, class as u8))
        } else {
            before
        }
    }
}

/// The replacements among the first `n` pairs of a code point and its replacement; a later
/// pair for the same character counts.
pub open spec fn shipped_lower(cps: Seq<u32>, repls: Seq<String>, n: int) -> Map<char, Seq<char>>
    decreases n,
{
    if n <= 0 {
        Map::empty()
    } else {
        let before = shipped_lower(cps, repls, n - 1);
        if is_scalar_value(cps[n - 1]) {
            before.insert(cps[n - 1] as char, repls[n - 1]@)
        } else {
            before
        }
    }
}

/// How many pairs of aligned entries two lists of these lengths hold.
pub open spec fn aligned(a: nat, b: nat) -> int {
    if a <= b {
        a as int
    } else {
        b as int
    }
}

/// What the shipped lists stand for: every entry that is not well-formed is left out.
pub open spec fn shipped_data(cps: Seq<u32>, repls: Seq<String>, raw: Seq<u32>) -> CaseData {
    CaseData {
        lower: shipped_lower(cps, repls, aligned(cps.len(), repls.len())),
        class_ranges: shipped_ranges(raw, raw.len() as int / 3),
    }
}

// ---------------------------------------------------------------------------------------------
// Replacements in ascending order
// ---------------------------------------------------------------------------------------------

spec fn entries(list: Seq<(char, String)>) -> Seq<(char, Seq<char>)> {
    list.map_values(|e: (char, String)| (e.0, e.1@))
}

spec fn ascending(s: Seq<(char, Seq<char>)>) -> bool {
    forall|i: int, j: int|
        #![trigger s[i], s[j]]
        0 <= i < j < s.len() ==> (s[i].0 as int) < (s[j].0 as int)
}

spec fn has_key(s: Seq<(char, Seq<char>)>, c: char) -> bool {
    exists|i: int| 0 <= i < s.len() && (#[trigger] s[i]).0 == c
}

spec fn key_index(s: Seq<(char, Seq<char>)>, c: char) -> int {
    choose|i: int| 0 <= i < s.len() && (#[trigger] s[i]).0 == c
}

spec fn entry_map(s: Seq<(char, Seq<char>)>) -> Map<char, Seq<char>> {
    Map::new(|c: char| has_key(s, c), |c: char| s[key_index(s, c)].1)
}

proof fn lemma_entry_map(s: Seq<(char, Seq<char>)>, i: int)
    requires
        ascending(s),
        0 <= i < s.len(),
    ensures
        entry_map(s).contains_key(s[i].0),
        entry_map(s)[s[i].0] == s[i].1,
{
    let c = s[i].0;
    assert(has_key(s, c));
    let k = key_index(s, c);
    assert(s[k].0 == c);
    if k < i {
        assert((s[k].0 as int) < (s[i].0 as int));
    } else if i < k {
        assert((s[i].0 as int) < (s[k].0 as int));
    }
}

/// Ascending entries are determined by the map that they form.
proof fn lemma_entries_are_canonical(a: Seq<(char, Seq<char>)>, b: Seq<(char, Seq<char>)>)
    requires
        ascending(a),
        ascending(b),
        entry_map(a) == entry_map(b),
    ensures
        a == b,
    decreases a.len(),
{
    if a.len() == 0 {
        if b.len() > 0 {
            lemma_entry_map(b, 0);
            assert(has_key(a, b[0].0));
        }
        assert(a =~= b);
    } else {
        let last = a.len() - 1;
        lemma_entry_map(a, last);
        assert(has_key(b, a[last].0));
        let j = key_index(b, a[last].0);
        let blast = b.len() - 1;
        lemma_entry_map(b, blast);
        assert(has_key(a, b[blast].0));
        let i = key_index(a, b[blast].0);
        assert(j == blast) by {
            if j < blast {
                assert((b[j].0 as int) < (b[blast].0 as int));
                if i < last {
                    assert((a[i].0 as int) < (a[last].0 as int));
                }
            }
        }
        assert(a[last] == b[blast]) by {
            lemma_entry_map(a, last);
            lemma_entry_map(b, blast);
        }
        let a0 = a.drop_last();
        let b0 = b.drop_last();
        assert(ascending(a0)) by {
            assert forall|p: int, q: int|
                #![trigger a0[p], a0[q]]
                0 <= p < q < a0.len() implies (a0[p].0 as int) < (a0[q].0 as int) by {
                assert((a[p].0 as int) < (a[q].0 as int));
            }
        }
        assert(ascending(b0)) by {
            assert forall|p: int, q: int|
                #![trigger b0[p], b0[q]]
                0 <= p < q < b0.len() implies (b0[p].0 as int) < (b0[q].0 as int) by {
                assert((b[p].0 as int) < (b[q].0 as int));
            }
        }
        lemma_drop_last_entry(a);
        lemma_drop_last_entry(b);
        lemma_entries_are_canonical(a0, b0);
        assert(a =~= a0.push(a[last]));
        assert(b =~= b0.push(b[blast]));
    }
}

proof fn lemma_drop_last_entry(s: Seq<(char, Seq<char>)>)
    requires
        ascending(s),
        s.len() > 0,
    ensures
        entry_map(s.drop_last()) == entry_map(s).remove(s.last().0),
{
    let s0 = s.drop_last();
    let m0 = entry_map(s0);
    let m = entry_map(s).remove(s.last().0);
    assert(ascending(s0)) by {
        assert forall|p: int, q: int|
            #![trigger s0[p], s0[q]]
            0 <= p < q < s0.len() implies (s0[p].0 as int) < (s0[q].0 as int) by {
            assert((s[p].0 as int) < (s[q].0 as int));
        }
    }
    assert forall|c: char| m0.contains_key(c) == m.contains_key(c) by {
        if has_key(s0, c) {
            let k = key_index(s0, c);
            assert(s[k].0 == c);
            assert((s[k].0 as int) < (s[s.len() - 1].0 as int));
        }
        if has_key(s, c) && c != s.last().0 {
            let k = key_index(s, c);
            assert(s0[k].0 == c);
        }
    }
    assert forall|c: char| m0.contains_key(c) implies m0[c] == m[c] by {
        let k = key_index(s0, c);
        assert(s0[k] == s[k]);
        lemma_entry_map(s0, k);
        lemma_entry_map(s, k);
    }
    assert(m0 =~= m);
}

/// The first position whose key is not below `c`.
fn lower_bound(list: &Vec<(char, String)>, c: char) -> (r: usize)
    requires
        ascending(entries(list@)),
    ensures
        r <= list.len(),
        forall|k: int| 0 <= k < r ==> ((#[trigger] list@[k]).0 as int) < (c as int),
        forall|k: int| r <= k < list.len() ==> (c as int) <= ((#[trigger] list@[k]).0 as int),
{
    let mut lo: usize = 0;
    let mut hi: usize = list.len();
    let ghost e = entries(list@);
    while lo < hi
        invariant
            ascending(e),
            e == entries(list@),
            lo <= hi <= list.len(),
            forall|k: int| 0 <= k < lo ==> ((#[trigger] list@[k]).0 as int) < (c as int),
            forall|k: int| hi <= k < list.len() ==> (c as int) <= ((#[trigger] list@[k]).0 as int),
        decreases hi - lo,
    {
        let mid: usize = lo + (hi - lo) / 2;
        if list[mid].0 < c {
            proof {
                assert forall|k: int| 0 <= k < mid + 1 implies ((#[trigger] list@[k]).0 as int) < (
                c as int) by {
                    assert(e[k].0 == list@[k].0);
                    assert(e[mid as int].0 == list@[mid as int].0);
                }
            }
            lo = mid + 1;
        } else {
            proof {
                assert forall|k: int| mid <= k < list.len() implies (c as int) <= ((
                #[trigger] list@[k]).0 as int) by {
                    assert(e[k].0 == list@[k].0);
                    assert(e[mid as int].0 == list@[mid as int].0);
                }
            }
            hi = mid;
        }
    }
    lo
}

/// Enters the replacement of `c`, in place of the one that it may have.
fn enter(list: &mut Vec<(char, String)>, c: char, repl: String)
    requires
        ascending(entries(old(list)@)),
    ensures
        ascending(entries(final(list)@)),
        entry_map(entries(final(list)@)) == entry_map(entries(old(list)@)).insert(c, repl@),
{
    let at = lower_bound(list, c);
    let ghost before = list@;
    let ghost e0 = entries(before);
    let ghost text = repl@;
    if at < list.len() && list[at].0 == c {
        list.set(at, (c, repl));
        proof {
            let e = entries(list@);
            assert forall|p: int, q: int|
                #![trigger e[p], e[q]]
                0 <= p < q < e.len() implies (e[p].0 as int) < (e[q].0 as int) by {
                assert((e0[p].0 as int) < (e0[q].0 as int));
            }
            assert(ascending(e));
            assert forall|k: char| has_key(e, k) == (has_key(e0, k) || k == c) by {
                if has_key(e, k) {
                    let i = key_index(e, k);
                    assert(e0[i].0 == k);
                }
                if has_key(e0, k) {
                    let i = key_index(e0, k);
                    assert(e[i].0 == k);
                }
                if k == c {
                    assert(e[at as int].0 == k);
                }
            }
            assert forall|k: char| has_key(e, k) implies entry_map(e)[k] == entry_map(e0).insert(
                c,
                text,
            )[k] by {
                let i = key_index(e, k);
                lemma_entry_map(e, i);
                lemma_entry_map(e0, i);
                assert(e[at as int] == (c, text));
                if k == c {
                    lemma_entry_map(e, at as int);
                }
            }
            assert(entry_map(e) =~= entry_map(e0).insert(c, text));
        }
    } else {
        list.insert(at, (c, repl));
        proof {
            let e = entries(list@);
            let n = at as int;
            assert forall|k: int| 0 <= k < n implies e[k] == #[trigger] e0[k] by {}
            assert forall|k: int| n <= k < e0.len() implies e[k + 1] == #[trigger] e0[k] by {}
            assert(e[n] == (c, text));
            assert forall|k: int| n <= k < e0.len() implies (c as int) < ((
            #[trigger] e0[k]).0 as int) by {
                assert((c as int) <= (before[k].0 as int));
                assert(e0[n].0 == before[n].0);
                if k > n {
                    assert((e0[n].0 as int) < (e0[k].0 as int));
                }
            }
            assert forall|p: int, q: int|
                #![trigger e[p], e[q]]
                0 <= p < q < e.len() implies (e[p].0 as int) < (e[q].0 as int) by {
                if p < n {
                    assert(e[p] == e0[p]);
                    assert((before[p].0 as int) < (c as int));
                }
                if q > n {
                    assert(e[q] == e0[q - 1]);
                }
                if p > n {
                    assert(e[p] == e0[p - 1]);
                    assert((e0[p - 1].0 as int) < (e0[q - 1].0 as int));
                }
                if q < n {
                    assert(e[q] == e0[q]);
                }
                if p < n && q > n {
                    assert((e0[p].0 as int) < (e0[q - 1].0 as int));
                }
            }
            assert(ascending(e));
            assert forall|k: char| has_key(e, k) == (has_key(e0, k) || k == c) by {
                if has_key(e, k) {
                    let i = key_index(e, k);
                    if i < n {
                        assert(e0[i].0 == k);
                    } else if i > n {
                        assert(e0[i - 1].0 == k);
                    }
                }
                if has_key(e0, k) {
                    let i = key_index(e0, k);
                    if i < n {
                        assert(e[i].0 == k);
                    } else {
                        assert(e[i + 1].0 == k);
                    }
                }
                if k == c {
                    assert(e[n].0 == k);
                }
            }
            assert forall|k: char| has_key(e, k) implies entry_map(e)[k] == entry_map(e0).insert(
                c,
                text,
            )[k] by {
                let i = key_index(e, k);
                lemma_entry_map(e, i);
                if i < n {
                    lemma_entry_map(e0, i);
                    assert((before[i].0 as int) < (c as int));
                } else if i > n {
                    lemma_entry_map(e0, i - 1);
                    assert(e[i] == e0[i - 1]);
                }
            }
            assert(entry_map(e) =~= entry_map(e0).insert(c, text));
        }
    }
}

// ---------------------------------------------------------------------------------------------
// Fingerprint
// ---------------------------------------------------------------------------------------------

spec fn range_writes(ranges: Seq<ClassRange>) -> Seq<Seq<u8>>
    decreases ranges.len(),
{
    if ranges.len() == 0 {
        Seq::empty()
    } else {
        let r = ranges.last();
        range_writes(ranges.drop_last()).push(spec_u32_to_le_bytes(r.0)).push(
            spec_u32_to_le_bytes(r.1),
        ).push(seq![r.2])
    }
}

spec fn entry_writes(s: Seq<(char, Seq<char>)>) -> Seq<Seq<u8>>
    decreases s.len(),
{
    if s.len() == 0 {
        Seq::empty()
    } else {
        entry_writes(s.drop_last()).push(spec_u32_to_le_bytes(s.last().0 as u32)).push(
            encode_utf8(s.last().1),
        )
    }
}

spec fn fingerprint_of(lower: Seq<(char, Seq<char>)>, ranges: Seq<ClassRange>) -> u64 {
    DefaultHasher::spec_finish(range_writes(ranges) + entry_writes(lower))
}

/// The entries of a map, in ascending order of the character.
spec fn sorted_entries(lower: Map<char, Seq<char>>) -> Seq<(char, Seq<char>)> {
    choose|s: Seq<(char, Seq<char>)>| ascending(s) && #[trigger] entry_map(s) == lower
}

/// The content hash of the data, which the data alone determines.
pub closed spec fn content_hash(data: CaseData) -> u64 {
    fingerprint_of(sorted_entries(data.lower), data.class_ranges)
}

fn fingerprint(lower: &Vec<(char, String)>, ranges: &Vec<ClassRange>) -> (r: u64)
    ensures
        r == fingerprint_of(entries(lower@), ranges@),
{
    let mut hasher = DefaultHasher::new();
    for i in 0..ranges.len()
        invariant
            hasher@ == range_writes(ranges@.take(i as int)),
    {
        let (first, last, class) = ranges[i];
        hasher.write(u32_to_le_bytes(first).as_slice());
        hasher.write(u32_to_le_bytes(last).as_slice());
        let one: Vec<u8> = vec![class];
        hasher.write(one.as_slice());
        proof {
            assert(ranges@.take(i + 1).drop_last() =~= ranges@.take(i as int));
            assert(one@ =~= seq![class]);
        }
    }
    let ghost e = entries(lower@);
    let ghost head = range_writes(ranges@);
    proof {
        assert(ranges@.take(ranges@.len() as int) =~= ranges@);
        assert(hasher@ =~= head + entry_writes(e.take(0)));
    }
    for i in 0..lower.len()
        invariant
            e == entries(lower@),
            head == range_writes(ranges@),
            hasher@ == head + entry_writes(e.take(i as int)),
    {
        hasher.write(u32_to_le_bytes(lower[i].0 as u32).as_slice());
        hasher.write(lower[i].1.as_str().as_bytes());
        proof {
            assert(e.take(i + 1).drop_last() =~= e.take(i as int));
            assert(e.take(i + 1).last() == (lower@[i as int].0, lower@[i as int].1@));
            assert(hasher@ =~= head + entry_writes(e.take(i + 1)));
        }
    }
    proof {
        assert(e.take(e.len() as int) =~= e);
    }
    hasher.finish()
}

// ---------------------------------------------------------------------------------------------
// The tables
// ---------------------------------------------------------------------------------------------

/// The planning JVM's case data, read once per scan. Two tables:
///
///   - the replacement of every character that the JVM does not lowercase to itself, which may
///     be more than one character long;
///   - class ranges, which hold the word-break class of characters.
#[derive(Debug)]
pub struct JvmCaseTables {
    /// Replacements, in ascending order of the character.
    lower: Vec<(char, String)>,
    /// First code point, last code point and class of each range.
    class_ranges: Vec<ClassRange>,
    /// Content hash, computed once so that hashing the tables stays cheap.
    fingerprint: u64,
}

impl View for JvmCaseTables {
    type V = CaseData;

    closed spec fn view(&self) -> CaseData {
        CaseData {
            lower: entry_map(entries(self.lower@)),
            class_ranges: self.class_ranges@,
        }
    }
}

impl JvmCaseTables {
    #[verifier::type_invariant]
    spec fn well_formed(self) -> bool {
        &&& ascending(entries(self.lower@))
        &&& self.fingerprint == fingerprint_of(entries(self.lower@), self.class_ranges@)
    }

    /// Reads the wire format: `lower_cp` and `lower_repl` are aligned, and `class_ranges` holds
    /// triples of first code point, last code point and class. Malformed input (lists of
    /// different length, a trailing partial triple, numbers that are no code points, inverted
    /// ranges) is dropped entry by entry rather than rejected.
    pub fn from_proto(lower_cp: &[u32], lower_repl: &[String], class_ranges: &[u32]) -> (r: Self)
        ensures
            r@ == shipped_data(lower_cp@, lower_repl@, class_ranges@),
    {
        let mut lower: Vec<(char, String)> = Vec::new();
        let n: usize = if lower_cp.len() <= lower_repl.len() {
            lower_cp.len()
        } else {
            lower_repl.len()
        };
        proof {
            assert(entry_map(entries(lower@)) =~= Map::<char, Seq<char>>::empty());
        }
        for i in 0..n
            invariant
                n <= lower_cp@.len(),
                n <= lower_repl@.len(),
                ascending(entries(lower@)),
                entry_map(entries(lower@)) == shipped_lower(lower_cp@, lower_repl@, i as int),
        {
            if let Some(c) = char::from_u32(lower_cp[i]) {
                enter(&mut lower, c, lower_repl[i].clone());
            }
        }
        let mut ranges: Vec<ClassRange> = Vec::new();
        let len: usize = class_ranges.len();
        let triples: usize = len / 3;
        for i in 0..triples
            invariant
                len == class_ranges@.len(),
                triples == len / 3,
                ranges@ == shipped_ranges(class_ranges@, i as int),
        {
            let first: u32 = class_ranges[3 * i];
            let last: u32 = class_ranges[3 * i + 1];
            let class: u32 = class_ranges[3 * i + 2];
            if first <= last && last <= 0x10FFFF && class <= 0xFF {
                ranges.push((first, last, class as u8));
            }
        }
        let fingerprint: u64 = fingerprint(&lower, &ranges);
        JvmCaseTables { lower, class_ranges: ranges, fingerprint }
    }

    /// The word-break class of `c`; `CLASS_BOUNDARY` when no range is found for it.
    pub fn class_of(&self, c: char) -> (r: u8)
        ensures
            r == self@.class_of(c),
    {
        let cp: u32 = c as u32;
        let mut lo: usize = 0;
        let mut hi: usize = self.class_ranges.len();
        while lo < hi
            invariant
                lo <= hi <= self.class_ranges.len(),
                cp == c as u32,
                self@.class_ranges == self.class_ranges@,
                bisected_class(self@.class_ranges, cp, lo as int, hi as int) == self@.class_of(c),
            decreases hi - lo,
        {
            let mid: usize = lo + (hi - lo) / 2;
            let (first, last, class) = self.class_ranges[mid];
            if cp < first {
                hi = mid;
            } else if cp > last {
                lo = mid + 1;
            } else {
                return class;
            }
        }
        CLASS_BOUNDARY
    }

    /// The replacement of `c`, if it does not lowercase to itself.
    pub fn replacement(&self, c: char) -> (r: Option<&String>)
        ensures
            match r {
                Some(repl) => self@.lower.contains_key(c) && self@.lower[c] == repl@,
                None => !self@.lower.contains_key(c),
            },
    {
        proof {
            use_type_invariant(self);
        }
        let at = lower_bound(&self.lower, c);
        let ghost e = entries(self.lower@);
        if at < self.lower.len() && self.lower[at].0 == c {
            proof {
                lemma_entry_map(e, at as int);
            }
            Some(&self.lower[at].1)
        } else {
            proof {
                if has_key(e, c) {
                    let k = key_index(e, c);
                    assert(self.lower@[k].0 == c);
                    if k > at {
                        assert(e[at as int].0 == self.lower@[at as int].0);
                        assert((e[at as int].0 as int) < (e[k].0 as int));
                    }
                }
            }
            None
        }
    }

    /// The content hash of the tables. Tables that hold the same data have the same one.
    pub fn fingerprint(&self) -> (r: u64)
        ensures
            r == content_hash(self@),
    {
        proof {
            use_type_invariant(self);
            let e = entries(self.lower@);
            assert(entry_map(e) == self@.lower);
            lemma_entries_are_canonical(sorted_entries(self@.lower), e);
        }
        self.fingerprint
    }

    /// Whether two tables hold the same data.
    pub fn same_data(&self, other: &Self) -> (r: bool)
        ensures
            r == (self@ == other@),
    {
        proof {
            use_type_invariant(self);
            use_type_invariant(other);
        }
        let ghost a = entries(self.lower@);
        let ghost b = entries(other.lower@);
        proof {
            if self@ == other@ {
                lemma_entries_are_canonical(a, b);
            }
        }
        if self.fingerprint != other.fingerprint {
            return false;
        }
        if self.class_ranges.len() != other.class_ranges.len() {
            return false;
        }
        for i in 0..self.class_ranges.len()
            invariant
                self.class_ranges.len() == other.class_ranges.len(),
                forall|k: int| 0 <= k < i ==> self.class_ranges@[k] == other.class_ranges@[k],
        {
            let (p0, p1, p2) = self.class_ranges[i];
            let (q0, q1, q2) = other.class_ranges[i];
            if p0 != q0 || p1 != q1 || p2 != q2 {
                assert(self@.class_ranges[i as int] != other@.class_ranges[i as int]);
                return false;
            }
        }
        assert(self.class_ranges@ =~= other.class_ranges@);
        if self.lower.len() != other.lower.len() {
            assert(a.len() != b.len());
            return false;
        }
        for i in 0..self.lower.len()
            invariant
                self.lower.len() == other.lower.len(),
                a == entries(self.lower@),
                b == entries(other.lower@),
                self@ == other@ ==> a == b,
                forall|k: int| 0 <= k < i ==> a[k] == b[k],
        {
            if self.lower[i].0 != other.lower[i].0 || self.lower[i].1 != other.lower[i].1 {
                assert(a[i as int] != b[i as int]);
                return false;
            }
        }
        assert(a =~= b);
        true
    }
}

impl PartialEq for JvmCaseTables {
    fn eq(&self, other: &Self) -> (r: bool) {
        self.same_data(other)
    }
}

impl vstd::std_specs::cmp::PartialEqSpecImpl for JvmCaseTables {
    open spec fn obeys_eq_spec() -> bool {
        true
    }

    open spec fn eq_spec(&self, other: &Self) -> bool {
        self@ == other@
    }
}

impl Eq for JvmCaseTables {}

impl Hash for JvmCaseTables {
    /// `Hasher::write_u64` of the fingerprint; nothing is claimed of the hasher. Equal tables
    /// have equal fingerprints, so this agrees with `==`.
    #[verifier::external_body]
    fn hash<H: Hasher>(&self, state: &mut H) {
        state.write_u64(self.fingerprint);
    }
}

// ---------------------------------------------------------------------------------------------
// What the fingerprint covers
// ---------------------------------------------------------------------------------------------

/// What is hashed of a class range: its first and last code point and its class.
pub open spec fn hashed_range(r: ClassRange) -> Seq<Seq<u8>> {
    seq![spec_u32_to_le_bytes(r.0), spec_u32_to_le_bytes(r.1), seq![r.2]]
}

/// What is hashed of a replacement: the character and the text that replaces it.
pub open spec fn hashed_replacement(c: char, text: Seq<char>) -> Seq<Seq<u8>> {
    seq![spec_u32_to_le_bytes(c as u32), encode_utf8(text)]
}

proof fn lemma_range_writes(ranges: Seq<ClassRange>)
    ensures
        range_writes(ranges) == ranges.map_values(|r: ClassRange| hashed_range(r)).flatten(),
    decreases ranges.len(),
{
    let all = ranges.map_values(|r: ClassRange| hashed_range(r));
    if ranges.len() == 0 {
        assert(all =~= seq![]);
        assert(all.flatten() =~= seq![]);
    } else {
        let r = ranges.last();
        let front = ranges.drop_last();
        lemma_range_writes(front);
        let before = front.map_values(|r: ClassRange| hashed_range(r));
        assert(all =~= before.push(hashed_range(r)));
        before.lemma_flatten_push(hashed_range(r));
        assert(range_writes(ranges) =~= before.flatten() + hashed_range(r));
    }
}

proof fn lemma_entry_writes(s: Seq<(char, Seq<char>)>)
    ensures
        entry_writes(s) == s.map_values(
            |e: (char, Seq<char>)| hashed_replacement(e.0, e.1),
        ).flatten(),
    decreases s.len(),
{
    let all = s.map_values(|e: (char, Seq<char>)| hashed_replacement(e.0, e.1));
    if s.len() == 0 {
        assert(all =~= seq![]);
        assert(all.flatten() =~= seq![]);
    } else {
        let e = s.last();
        let front = s.drop_last();
        lemma_entry_writes(front);
        let before = front.map_values(|e: (char, Seq<char>)| hashed_replacement(e.0, e.1));
        assert(all =~= before.push(hashed_replacement(e.0, e.1)));
        before.lemma_flatten_push(hashed_replacement(e.0, e.1));
        assert(entry_writes(s) =~= before.flatten() + hashed_replacement(e.0, e.1));
    }
}

/// The fingerprint covers all the data: every class range, in the order in which it was shipped,
/// and then every replacement, in ascending order of the character.
pub proof fn fingerprints_cover_all_data(t: &JvmCaseTables, r: u64, keys: Seq<char>)
    requires
        call_ensures(JvmCaseTables::fingerprint, (t,), r),
        forall|i: int, j: int|
            #![trigger keys[i], keys[j]]
            0 <= i < j < keys.len() ==> (keys[i] as int) < (keys[j] as int),
        forall|c: char| #[trigger] keys.contains(c) <==> t@.lower.contains_key(c),
    ensures
        r == DefaultHasher::spec_finish(
            t@.class_ranges.map_values(|r: ClassRange| hashed_range(r)).flatten()
                + keys.map_values(|c: char| hashed_replacement(c, t@.lower[c])).flatten(),
        ),
{
    let lower = t@.lower;
    let s = keys.map_values(|c: char| (c, lower[c]));
    assert(ascending(s)) by {
        assert forall|i: int, j: int|
            #![trigger s[i], s[j]]
            0 <= i < j < s.len() implies (s[i].0 as int) < (s[j].0 as int) by {
            assert((keys[i] as int) < (keys[j] as int));
        }
    }
    assert(entry_map(s) =~= lower) by {
        assert forall|c: char| entry_map(s).contains_key(c) == lower.contains_key(c) by {
            assert(keys.contains(c) <==> lower.contains_key(c));
            if has_key(s, c) {
                assert(keys[key_index(s, c)] == c);
            }
            if keys.contains(c) {
                assert(s[keys.index_of(c)].0 == c);
            }
        }
        assert forall|c: char| entry_map(s).contains_key(c) implies entry_map(s)[c]
            == lower[c] by {
            let i = key_index(s, c);
            lemma_entry_map(s, i);
        }
    }
    assert(ascending(s) && entry_map(s) == lower);
    lemma_entries_are_canonical(sorted_entries(lower), s);
    lemma_range_writes(t@.class_ranges);
    lemma_entry_writes(s);
    assert(s.map_values(|e: (char, Seq<char>)| hashed_replacement(e.0, e.1)) =~= keys.map_values(
        |c: char| hashed_replacement(c, lower[c]),
    ));
    assert(keys.map_values(|c: char| hashed_replacement(c, lower[c])) =~= keys.map_values(
        |c: char| hashed_replacement(c, t@.lower[c]),
    ));
}

/// Two tables are the same if and only if they hold the same replacements and the same ranges.
pub proof fn tables_agree_in_every_part(a: &JvmCaseTables, b: &JvmCaseTables, r: bool)
    requires
        call_ensures(JvmCaseTables::same_data, (a, b), r),
    ensures
        r <==> a@.lower == b@.lower && a@.class_ranges == b@.class_ranges,
{
}

} // verus!
