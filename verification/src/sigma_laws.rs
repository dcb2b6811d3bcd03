//! What holds of the forms of a capital sigma: how far its word reaches, and which characters do
//! not matter.

use crate::case_tables::{
    bisected_class, CaseData, ClassRange, CLASS_ALETTER, CLASS_ALETTER_CASED, CLASS_BOUNDARY,
    CLASS_DANDA, CLASS_EXTEND, CLASS_EXTEND_CASED, CLASS_FORMAT, CLASS_NUMERIC,
    CLASS_NUMERIC_CASED, CLASS_SUPP_CASED, CLASS_SUPP_MN, CLASS_SUPP_NUM,
};
use crate::lowercase::CAPITAL_SIGMA;
use crate::sigma::{
    anchor_of, below_marks, below_plain_marks, below_riders, beyond_plain_marks, cased_before,
    cased_from, cased_mark_between, is_mid,
};
use vstd::prelude::*;

verus! {

/// Whether a class is the absence of one, or a value that no class has.
pub open spec fn is_boundary(cls: u8) -> bool {
    cls == CLASS_BOUNDARY || cls > CLASS_SUPP_NUM
}

/// Whether two classes count alike: they are the same, or both are word boundaries.
spec fn alike(a: u8, b: u8) -> bool {
    a == b || (is_boundary(a) && is_boundary(b))
}

// ---------------------------------------------------------------------------------------------
// Looking back
// ---------------------------------------------------------------------------------------------

/// Whether `a`, from position `d` on, counts like the first `end` classes of `b`. `cut` says that
/// these begin with a word boundary; nothing else cuts off what stands before position `d`.
spec fn same_back(a: Seq<u8>, d: int, b: Seq<u8>, end: int, cut: bool) -> bool {
    &&& 0 <= d
    &&& 0 <= end <= b.len()
    &&& d + end <= a.len()
    &&& d > 0 ==> cut
    &&& cut ==> end > 0 && is_boundary(b[0])
    &&& forall|i: int| 0 <= i < end ==> alike(a[d + i], #[trigger] b[i])
}

proof fn lemma_same_back_below(a: Seq<u8>, d: int, b: Seq<u8>, end: int, cut: bool)
    requires
        same_back(a, d, b, end, cut),
    ensures
        below_plain_marks(b, end) < end || end == 0,
        below_marks(b, end) < end || end == 0,
        below_riders(b, end) < end || end == 0,
        -1 <= below_plain_marks(b, end),
        -1 <= below_marks(b, end),
        -1 <= below_riders(b, end),
        cut ==> 0 <= below_plain_marks(b, end) && 0 <= below_marks(b, end) && 0 <= below_riders(
            b,
            end,
        ),
        below_plain_marks(b, end) >= 0 ==> below_plain_marks(a, d + end) == d + below_plain_marks(
            b,
            end,
        ),
        below_marks(b, end) >= 0 ==> below_marks(a, d + end) == d + below_marks(b, end),
        below_riders(b, end) >= 0 ==> below_riders(a, d + end) == d + below_riders(b, end),
        below_plain_marks(b, end) < 0 ==> below_plain_marks(a, d + end) < 0,
        below_marks(b, end) < 0 ==> below_marks(a, d + end) < 0,
        below_riders(b, end) < 0 ==> below_riders(a, d + end) < 0,
    decreases end,
{
    if end > 0 {
        assert(alike(a[d + (end - 1)], b[end - 1]));
        if !cut || end > 1 {
            lemma_same_back_below(a, d, b, end - 1, cut);
        }
    }
}

proof fn lemma_same_back_marks(a: Seq<u8>, d: int, b: Seq<u8>, end: int, k: int, cut: bool)
    requires
        same_back(a, d, b, end, cut),
        0 <= k < end,
    ensures
        cased_mark_between(a, d + k, d + end) == cased_mark_between(b, k, end),
        alike(a[d + k], b[k]),
        b[k] == CLASS_SUPP_MN ==> anchor_of(a, d + k) == anchor_of(b, k),
{
    if cased_mark_between(a, d + k, d + end) {
        let m = choose|m: int| d + k < m < d + end && #[trigger] a[m] == CLASS_EXTEND_CASED;
        assert(alike(a[d + (m - d)], b[m - d]));
        assert(b[m - d] == CLASS_EXTEND_CASED);
    }
    if cased_mark_between(b, k, end) {
        let m = choose|m: int| k < m < end && #[trigger] b[m] == CLASS_EXTEND_CASED;
        assert(alike(a[d + m], b[m]));
        assert(a[d + m] == CLASS_EXTEND_CASED);
    }
    assert(alike(a[d + k], b[k]));
    if b[k] == CLASS_SUPP_MN {
        assert(same_back(a, d, b, k, cut));
        lemma_same_back_below(a, d, b, k, cut);
        let base = below_riders(b, k);
        if base >= 0 {
            assert(alike(a[d + base], b[base]));
        }
    }
}

/// Looking back sees only what counts alike.
proof fn lemma_same_back(
    a: Seq<u8>,
    d: int,
    b: Seq<u8>,
    end: int,
    last_letter: bool,
    leading_a: bool,
    leading_b: bool,
    cut: bool,
)
    requires
        same_back(a, d, b, end, cut),
        !cut ==> leading_a == leading_b,
    ensures
        cased_before(a, d + end, last_letter, leading_a) == cased_before(
            b,
            end,
            last_letter,
            leading_b,
        ),
    decreases end,
{
    if end > 0 {
        let j = end - 1;
        let c = b[j];
        assert(alike(a[d + j], b[j]));
        if cut && j == 0 {
            assert(is_boundary(c));
        } else {
            assert(same_back(a, d, b, j, cut));
            lemma_same_back_below(a, d, b, j, cut);
            if c == CLASS_ALETTER {
                lemma_same_back(a, d, b, j, true, leading_a, leading_b, cut);
            } else if c == CLASS_NUMERIC {
                lemma_same_back(a, d, b, j, false, leading_a, leading_b, cut);
            } else if c == CLASS_EXTEND {
                let k = below_plain_marks(b, j);
                if k >= 0 {
                    assert(alike(a[d + k], b[k]));
                    assert(same_back(a, d, b, k + 1, cut));
                    lemma_same_back(a, d, b, k + 1, last_letter, leading_a, leading_b, cut);
                }
            } else {
                let k = below_marks(b, j);
                if k >= 0 {
                    lemma_same_back_marks(a, d, b, j, k, cut);
                    assert(same_back(a, d, b, k + 1, cut));
                    lemma_same_back(a, d, b, k + 1, true, leading_a, leading_b, cut);
                    lemma_same_back(a, d, b, k + 1, last_letter, leading_a, leading_b, cut);
                }
            }
        }
    }
}

// ---------------------------------------------------------------------------------------------
// Looking ahead
// ---------------------------------------------------------------------------------------------

/// Whether `a`, from position `d` on, counts like `b` and then ends or meets a word boundary.
spec fn same_ahead(a: Seq<u8>, d: int, b: Seq<u8>) -> bool {
    &&& 0 <= d
    &&& d + b.len() <= a.len()
    &&& d + b.len() < a.len() ==> is_boundary(a[d + b.len()])
    &&& forall|i: int| 0 <= i < b.len() ==> alike(a[d + i], #[trigger] b[i])
}

proof fn lemma_same_ahead_marks(a: Seq<u8>, d: int, b: Seq<u8>, j: int)
    requires
        same_ahead(a, d, b),
        0 <= j <= b.len(),
    ensures
        j <= beyond_plain_marks(b, j) <= b.len(),
        beyond_plain_marks(a, d + j) == d + beyond_plain_marks(b, j),
    decreases b.len() - j,
{
    if j < b.len() {
        assert(alike(a[d + j], b[j]));
        lemma_same_ahead_marks(a, d, b, j + 1);
    }
}

/// Looking ahead sees only what counts alike.
proof fn lemma_same_ahead(a: Seq<u8>, d: int, b: Seq<u8>, j: int, last_letter: bool)
    requires
        same_ahead(a, d, b),
        0 <= j <= b.len(),
    ensures
        cased_from(a, d + j, last_letter) == cased_from(b, j, last_letter),
    decreases b.len() - j,
{
    if j < b.len() {
        let c = b[j];
        assert(alike(a[d + j], b[j]));
        if j + 1 < b.len() {
            assert(alike(a[d + (j + 1)], b[j + 1]));
        }
        if c == CLASS_ALETTER {
            lemma_same_ahead(a, d, b, j + 1, true);
        } else if c == CLASS_NUMERIC {
            lemma_same_ahead(a, d, b, j + 1, false);
        } else if c == CLASS_EXTEND {
            lemma_same_ahead_marks(a, d, b, j);
            let k = beyond_plain_marks(b, j);
            if j < k < b.len() {
                assert(alike(a[d + k], b[k]));
                lemma_same_ahead(a, d, b, k, last_letter);
            }
        } else if c == CLASS_DANDA {
            if j + 2 <= b.len() {
                lemma_same_ahead(a, d, b, j + 2, false);
            }
        } else if is_mid(c) {
            lemma_same_ahead(a, d, b, j + 1, last_letter);
        }
    }
}

// ---------------------------------------------------------------------------------------------
// Word boundaries
// ---------------------------------------------------------------------------------------------

proof fn lemma_concat(data: CaseData, a: Seq<char>, b: Seq<char>)
    ensures
        data.unformatted(a + b) == data.unformatted(a) + data.unformatted(b),
        data.classes_of(data.unformatted(a + b)) == data.classes_of(data.unformatted(a))
            + data.classes_of(data.unformatted(b)),
        data.unformatted(a + b).len() == data.unformatted(a).len() + data.unformatted(b).len(),
{
    Seq::filter_distributes_over_add(a, b, |c: char| data.is_visible(c));
    assert(data.classes_of(data.unformatted(a) + data.unformatted(b)) =~= data.classes_of(
        data.unformatted(a),
    ) + data.classes_of(data.unformatted(b)));
}

proof fn lemma_single(data: CaseData, c: char)
    requires
        data.is_visible(c),
    ensures
        data.unformatted(seq![c]) == seq![c],
        data.classes_of(seq![c]) == seq![data.class_of(c)],
{
    let visible = |c: char| data.is_visible(c);
    assert(seq![c] =~= Seq::<char>::empty().push(c));
    Seq::<char>::empty().lemma_filter_push(c, visible);
    assert(Seq::<char>::empty().filter(visible) =~= Seq::<char>::empty());
    assert(data.unformatted(seq![c]) =~= seq![c]);
    assert(data.classes_of(seq![c]) =~= seq![data.class_of(c)]);
}

/// Before a word boundary, nothing that follows it matters.
proof fn lemma_boundary_ends_words(data: CaseData, x: Seq<char>, b: char, y: Seq<char>, i: int)
    requires
        data.is_visible(CAPITAL_SIGMA),
        is_boundary(data.class_of(b)),
        0 <= i < x.len(),
    ensures
        data.lowered_char(x + seq![b] + y, i) == data.lowered_char(x, i),
{
    let s = x + seq![b] + y;
    if s[i] == CAPITAL_SIGMA {
        let cs = data.classes_of(data.unformatted(s));
        let cx = data.classes_of(data.unformatted(x));
        lemma_concat(data, x + seq![b], y);
        lemma_concat(data, x, seq![b]);
        lemma_single(data, b);
        assert(s.take(i) =~= x.take(i));
        let at = data.unformatted(x.take(i)).len() as int;
        assert(x =~= x.take(i) + x.skip(i));
        assert(x.skip(i) =~= seq![x[i]] + x.skip(i + 1));
        lemma_concat(data, x.take(i), x.skip(i));
        lemma_concat(data, seq![x[i]], x.skip(i + 1));
        lemma_single(data, x[i]);
        assert(at + 1 <= cx.len());
        let leading = data.class_of(s[0]) == CLASS_FORMAT;
        assert(same_back(cs, 0, cx, at, false));
        lemma_same_back(cs, 0, cx, at, true, leading, leading, false);
        assert(same_ahead(cs, 0, cx));
        lemma_same_ahead(cs, 0, cx, at + 1, true);
    }
}

/// After a word boundary, nothing that comes before it matters.
proof fn lemma_boundary_begins_words(data: CaseData, x: Seq<char>, b: char, y: Seq<char>, i: int)
    requires
        is_boundary(data.class_of(b)),
        b != CAPITAL_SIGMA,
        0 <= i <= y.len(),
    ensures
        data.lowered_char(x + (seq![b] + y), x.len() + i) == data.lowered_char(seq![b] + y, i),
{
    let t = seq![b] + y;
    let s = x + t;
    assert(s[x.len() + i] == t[i]);
    if t[i] == CAPITAL_SIGMA {
        let cs = data.classes_of(data.unformatted(s));
        let cx = data.classes_of(data.unformatted(x));
        let ct = data.classes_of(data.unformatted(t));
        lemma_concat(data, x, t);
        lemma_concat(data, seq![b], y);
        lemma_single(data, b);
        assert(s.take(x.len() + i) =~= x + t.take(i));
        lemma_concat(data, x, t.take(i));
        assert(t.take(i) =~= seq![b] + y.take(i - 1));
        lemma_concat(data, seq![b], y.take(i - 1));
        assert(y =~= y.take(i - 1) + y.skip(i - 1));
        lemma_concat(data, y.take(i - 1), y.skip(i - 1));
        let at = data.unformatted(t.take(i)).len() as int;
        assert(1 <= at <= ct.len());
        assert(same_back(cs, cx.len() as int, ct, at, true));
        lemma_same_back(
            cs,
            cx.len() as int,
            ct,
            at,
            true,
            data.class_of(s[0]) == CLASS_FORMAT,
            data.class_of(t[0]) == CLASS_FORMAT,
            true,
        );
        assert(same_ahead(cs, cx.len() as int, ct));
        if at + 1 <= ct.len() {
            lemma_same_ahead(cs, cx.len() as int, ct, at + 1, true);
        }
    }
}

/// Lowercasing splits at word boundaries: what stands before one and what stands after it do
/// not see each other.
pub proof fn lowercasing_splits_at_word_boundaries(
    data: CaseData,
    x: Seq<char>,
    b: char,
    y: Seq<char>,
)
    requires
        data.is_visible(CAPITAL_SIGMA),
        is_boundary(data.class_of(b)),
        b != CAPITAL_SIGMA,
    ensures
        data.lowercased(x + (seq![b] + y)) == data.lowercased(x) + data.lowercased(seq![b] + y),
{
    let t = seq![b] + y;
    let s = x + t;
    let ps = Seq::new(s.len(), |i: int| data.lowered_char(s, i));
    let px = Seq::new(x.len(), |i: int| data.lowered_char(x, i));
    let pt = Seq::new(t.len(), |i: int| data.lowered_char(t, i));
    assert forall|i: int| 0 <= i < s.len() implies ps[i] == (px + pt)[i] by {
        if i < x.len() {
            assert(x + seq![b] + y =~= s);
            lemma_boundary_ends_words(data, x, b, y, i);
        } else {
            lemma_boundary_begins_words(data, x, b, y, i - x.len());
        }
    }
    assert(ps =~= px + pt);
    vstd::seq_lib::lemma_flatten_concat(px, pt);
}

/// What stands next to a capital sigma decides in the plain cases. Nothing before it, or a word
/// boundary before it, or a cased letter after it: not final. A cased letter before it, and
/// nothing or a word boundary after it: final.
pub proof fn neighbors_decide_the_form_of_sigma(data: CaseData, s: Seq<char>, i: int)
    requires
        data.is_visible(CAPITAL_SIGMA),
        0 <= i < s.len(),
        s[i] == CAPITAL_SIGMA,
    ensures
        ({
            let before = data.unformatted(s.take(i));
            let after = data.unformatted(s.skip(i + 1));
            let b = data.class_of(before.last());
            let a = data.class_of(after[0]);
            let is_final = data.is_final_sigma(s, i);
            &&& before.len() == 0 ==> !is_final
            &&& before.len() > 0 && is_boundary(b) ==> !is_final
            &&& after.len() > 0 && (a == CLASS_ALETTER_CASED || a == CLASS_NUMERIC_CASED || a
                == CLASS_SUPP_CASED || a == CLASS_EXTEND_CASED) ==> !is_final
            &&& before.len() > 0 && (b == CLASS_ALETTER_CASED || b == CLASS_NUMERIC_CASED) && (
            after.len() == 0 || is_boundary(a)) ==> is_final
        }),
{
    let before = data.unformatted(s.take(i));
    let after = data.unformatted(s.skip(i + 1));
    assert(s =~= s.take(i) + (seq![s[i]] + s.skip(i + 1)));
    lemma_concat(data, s.take(i), seq![s[i]] + s.skip(i + 1));
    lemma_concat(data, seq![s[i]], s.skip(i + 1));
    lemma_single(data, s[i]);
    let cls = data.classes_of(data.unformatted(s));
    let at = before.len() as int;
    if at > 0 {
        assert(cls[at - 1] == data.class_of(before.last()));
    }
    if after.len() > 0 {
        assert(cls[at + 1] == data.class_of(after[0]));
    }
}

/// Whether no character of `s` is a format character.
pub open spec fn has_no_format(data: CaseData, s: Seq<char>) -> bool {
    forall|i: int| 0 <= i < s.len() ==> data.class_of(#[trigger] s[i]) != CLASS_FORMAT
}

proof fn lemma_unformatted_stays(data: CaseData, s: Seq<char>)
    requires
        has_no_format(data, s),
    ensures
        data.unformatted(s) == s,
    decreases s.len(),
{
    let visible = |c: char| data.is_visible(c);
    if s.len() == 0 {
        assert(s.filter(visible) =~= s);
    } else {
        let s0 = s.drop_last();
        assert(has_no_format(data, s0)) by {
            assert forall|i: int| 0 <= i < s0.len() implies data.class_of(#[trigger] s0[i])
                != CLASS_FORMAT by {
                assert(s0[i] == s[i]);
            }
        }
        lemma_unformatted_stays(data, s0);
        s0.lemma_filter_push(s.last(), visible);
        assert(s0.push(s.last()) =~= s);
        assert(data.class_of(s[s.len() - 1]) != CLASS_FORMAT);
    }
}

/// In a text without format characters, a capital sigma takes its final form if and only if
/// looking back from it over the classes of the text finds a cased letter, and looking ahead from
/// it finds none. A format character in front of the text changes only that the text does not
/// start at its first letter.
pub proof fn sigma_is_final_after_cased_letters_alone(
    data: CaseData,
    s: Seq<char>,
    f: char,
    i: int,
)
    requires
        has_no_format(data, s),
        data.class_of(f) == CLASS_FORMAT,
        0 <= i < s.len(),
        s[i] == CAPITAL_SIGMA,
    ensures
        ({
            let cls = Seq::new(s.len(), |k: int| data.class_of(s[k]));
            &&& data.is_final_sigma(s, i) == (cased_before(cls, i, true, false) && !cased_from(
                cls,
                i + 1,
                true,
            ))
            &&& data.is_final_sigma(seq![f] + s, i + 1) == (cased_before(cls, i, true, true)
                && !cased_from(cls, i + 1, true))
        }),
{
    let cls = Seq::new(s.len(), |k: int| data.class_of(s[k]));
    let with = seq![f] + s;
    let visible = |c: char| data.is_visible(c);
    let none = Seq::<char>::empty();
    assert(has_no_format(data, s.take(i))) by {
        assert forall|k: int| 0 <= k < i implies data.class_of(#[trigger] s.take(i)[k])
            != CLASS_FORMAT by {
            assert(s.take(i)[k] == s[k]);
        }
    }
    lemma_unformatted_stays(data, s);
    lemma_unformatted_stays(data, s.take(i));
    assert(data.classes_of(s) =~= cls);
    assert(seq![f] =~= none.push(f));
    none.lemma_filter_push(f, visible);
    assert(none.filter(visible) =~= none);
    lemma_concat(data, seq![f], s);
    lemma_concat(data, seq![f], s.take(i));
    assert(with.take(i + 1) =~= seq![f] + s.take(i));
    assert(data.unformatted(with) =~= s);
    assert(data.unformatted(with.take(i + 1)) =~= s.take(i));
    assert(data.class_of(s[0]) != CLASS_FORMAT);
}

// ---------------------------------------------------------------------------------------------
// Format characters
// ---------------------------------------------------------------------------------------------

/// Format characters are transparent: putting one into a text, anywhere but at its start, changes
/// nothing of what the other characters lowercase to.
pub proof fn format_characters_are_transparent(
    data: CaseData,
    s: Seq<char>,
    p: int,
    f: char,
    i: int,
)
    requires
        data.class_of(f) == CLASS_FORMAT,
        1 <= p <= s.len(),
        0 <= i < s.len(),
    ensures
        ({
            let with = s.insert(p, f);
            data.lowered_char(with, if i < p {
                i
            } else {
                i + 1
            }) == data.lowered_char(s, i)
        }),
{
    let with = s.insert(p, f);
    let k = if i < p {
        i
    } else {
        i + 1
    };
    let visible = |c: char| data.is_visible(c);
    let none = Seq::<char>::empty();
    assert(seq![f] =~= none.push(f));
    none.lemma_filter_push(f, visible);
    assert(none.filter(visible) =~= none);
    assert(data.unformatted(seq![f]) =~= none);
    let a = s.take(p);
    let b = s.skip(p);
    assert(s =~= a + b);
    assert(with =~= a + (seq![f] + b));
    lemma_concat(data, a, b);
    lemma_concat(data, a, seq![f] + b);
    lemma_concat(data, seq![f], b);
    assert(data.unformatted(with) =~= data.unformatted(s));
    if i < p {
        assert(with.take(k) =~= s.take(i));
    } else {
        assert(s.take(i) =~= a + b.take(i - p));
        assert(with.take(k) =~= a + (seq![f] + b.take(i - p)));
        lemma_concat(data, a, b.take(i - p));
        lemma_concat(data, a, seq![f] + b.take(i - p));
        lemma_concat(data, seq![f], b.take(i - p));
        assert(data.unformatted(with.take(k)) =~= data.unformatted(s.take(i)));
    }
    assert(with[k] == s[i]);
    assert(with[0] == s[0]);
}

// ---------------------------------------------------------------------------------------------
// Unknown classes
// ---------------------------------------------------------------------------------------------

/// A range with no class in place of a class value that no class has.
pub open spec fn known_class(r: ClassRange) -> ClassRange {
    (
        r.0,
        r.1,
        if is_boundary(r.2) {
            CLASS_BOUNDARY
        } else {
            r.2
        },
    )
}

/// The data with no class in place of class values that no class has.
pub open spec fn known_classes(data: CaseData) -> CaseData {
    CaseData {
        lower: data.lower,
        class_ranges: data.class_ranges.map_values(|r: ClassRange| known_class(r)),
    }
}

proof fn lemma_known_class(ranges: Seq<ClassRange>, cp: u32, lo: int, hi: int)
    requires
        0 <= lo <= hi <= ranges.len(),
    ensures
        ({
            let known = ranges.map_values(|r: ClassRange| known_class(r));
            let c = bisected_class(ranges, cp, lo, hi);
            bisected_class(known, cp, lo, hi) == if is_boundary(c) {
                CLASS_BOUNDARY
            } else {
                c
            }
        }),
    decreases hi - lo,
{
    if lo < hi {
        let mid = lo + (hi - lo) / 2;
        lemma_known_class(ranges, cp, lo, mid);
        lemma_known_class(ranges, cp, mid + 1, hi);
    }
}

/// A class value that no class has makes a character a word boundary, as if it had no class.
pub proof fn unknown_classes_count_as_boundaries(data: CaseData, s: Seq<char>)
    ensures
        data.lowercased(s) == known_classes(data).lowercased(s),
{
    let known = known_classes(data);
    let n = data.class_ranges.len() as int;
    assert forall|c: char|
        alike(#[trigger] data.class_of(c), known.class_of(c)) && data.is_visible(c)
            == known.is_visible(c) by {
        lemma_known_class(data.class_ranges, c as u32, 0, n);
    }
    assert((|c: char| data.is_visible(c)) =~= (|c: char| known.is_visible(c)));
    let a = data.classes_of(data.unformatted(s));
    let b = known.classes_of(known.unformatted(s));
    let pa = Seq::new(s.len(), |i: int| data.lowered_char(s, i));
    let pb = Seq::new(s.len(), |i: int| known.lowered_char(s, i));
    assert forall|i: int| 0 <= i < s.len() implies pa[i] == pb[i] by {
        let at = data.unformatted(s.take(i)).len() as int;
        assert(s =~= s.take(i) + s.skip(i));
        lemma_concat(data, s.take(i), s.skip(i));
        assert(data.is_visible(s[0]) == known.is_visible(s[0]));
        let leading = data.class_of(s[0]) == CLASS_FORMAT;
        assert(leading == (known.class_of(s[0]) == CLASS_FORMAT));
        assert forall|k: int| 0 <= k < a.len() implies alike(a[0 + k], #[trigger] b[k]) by {
            let c = data.unformatted(s)[k];
            assert(alike(data.class_of(c), known.class_of(c)));
        }
        assert(same_back(a, 0, b, at, false));
        lemma_same_back(a, 0, b, at, true, leading, leading, false);
        assert(same_ahead(a, 0, b));
        if at + 1 <= b.len() {
            lemma_same_ahead(a, 0, b, at + 1, true);
        }
    }
    assert(pa =~= pb);
}

} // verus!
