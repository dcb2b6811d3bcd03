//! What holds of the two scans around a capital sigma, class by class: which neighbor decides, and
//! where the scan goes on.

use crate::case_tables::{
    CLASS_ALETTER, CLASS_ALETTER_CASED, CLASS_BOUNDARY, CLASS_DANDA, CLASS_EXTEND,
    CLASS_EXTEND_CASED, CLASS_FORMAT, CLASS_MID_LETTER, CLASS_MID_NUM, CLASS_MID_NUM_LET,
    CLASS_NUMERIC, CLASS_NUMERIC_CASED, CLASS_SUPP_CASED, CLASS_SUPP_LETTER, CLASS_SUPP_MN,
    CLASS_SUPP_NUM,
};
use crate::sigma::{
    below_marks, below_plain_marks, below_riders, beyond_plain_marks, cased_before, cased_from,
    cased_mark_between,
};
use vstd::prelude::*;

verus! {

// ---------------------------------------------------------------------------------------------
// Classes
// ---------------------------------------------------------------------------------------------

/// The numbers of the classes, as they are shipped.
pub proof fn classes_have_their_numbers()
    ensures
        CLASS_BOUNDARY == 0,
        CLASS_ALETTER_CASED == 1,
        CLASS_ALETTER == 2,
        CLASS_NUMERIC == 3,
        CLASS_MID_LETTER == 4,
        CLASS_MID_NUM == 5,
        CLASS_MID_NUM_LET == 6,
        CLASS_SUPP_CASED == 7,
        CLASS_DANDA == 8,
        CLASS_EXTEND_CASED == 9,
        CLASS_NUMERIC_CASED == 10,
        CLASS_EXTEND == 11,
        CLASS_SUPP_LETTER == 12,
        CLASS_FORMAT == 13,
        CLASS_SUPP_MN == 14,
        CLASS_SUPP_NUM == 15,
{
}

/// Letters: with and without case, and their supplementary counterparts.
pub open spec fn is_letter(c: u8) -> bool {
    c == CLASS_ALETTER_CASED || c == CLASS_ALETTER || c == CLASS_SUPP_CASED || c
        == CLASS_SUPP_LETTER
}

/// Digits: with and without case, and supplementary ones.
pub open spec fn is_digit(c: u8) -> bool {
    c == CLASS_NUMERIC || c == CLASS_NUMERIC_CASED || c == CLASS_SUPP_NUM
}

/// Combining marks with and without case.
pub open spec fn is_combining(c: u8) -> bool {
    c == CLASS_EXTEND || c == CLASS_EXTEND_CASED
}

/// Whether `k` is where looking back from `end` over combining marks ends: at a character that is
/// none, or before the text.
pub open spec fn marks_lead_to(cls: Seq<u8>, k: int, end: int) -> bool {
    &&& -1 <= k < end <= cls.len()
    &&& forall|m: int| k < m < end ==> is_combining(#[trigger] cls[m])
    &&& k >= 0 ==> !is_combining(cls[k])
}

/// Whether `b` is where looking back from `k` over combining and supplementary marks ends.
pub open spec fn riders_lead_to(cls: Seq<u8>, b: int, k: int) -> bool {
    &&& -1 <= b < k <= cls.len()
    &&& forall|m: int|
        b < m < k ==> is_combining(#[trigger] cls[m]) || cls[m] == CLASS_SUPP_MN
    &&& b >= 0 ==> !is_combining(cls[b]) && cls[b] != CLASS_SUPP_MN
}

/// Whether a cased mark stands strictly between two positions.
pub open spec fn has_cased_mark(cls: Seq<u8>, k: int, end: int) -> bool {
    exists|m: int| k < m < end && #[trigger] cls[m] == CLASS_EXTEND_CASED
}

// ---------------------------------------------------------------------------------------------
// Looking back
// ---------------------------------------------------------------------------------------------

/// Looking back past the start finds nothing. A cased letter or digit is found; other letters and
/// digits are passed, and are what the word then begins with. A supplementary cased letter is found
/// only at the very start of the text. Everything else that is no mark, punctuation or danda ends
/// the word.
pub proof fn looking_back_at_letters_and_digits(
    cls: Seq<u8>,
    end: int,
    last_letter: bool,
    leading_format: bool,
)
    requires
        0 < end <= cls.len(),
    ensures
        ({
            let c = cls[end - 1];
            let found = cased_before(cls, end, last_letter, leading_format);
            &&& !cased_before(cls, 0, last_letter, leading_format)
            &&& c == CLASS_ALETTER_CASED || c == CLASS_NUMERIC_CASED ==> found
            &&& c == CLASS_ALETTER ==> found == cased_before(cls, end - 1, true, leading_format)
            &&& c == CLASS_NUMERIC ==> found == cased_before(cls, end - 1, false, leading_format)
            &&& c == CLASS_SUPP_CASED ==> found == (end == 1 && !leading_format)
            &&& c == CLASS_SUPP_LETTER || c == CLASS_SUPP_NUM || c == CLASS_SUPP_MN || c
                == CLASS_FORMAT || c == CLASS_BOUNDARY || c > CLASS_SUPP_NUM ==> !found
        }),
{
}

proof fn lemma_plain_marks_lead_to(cls: Seq<u8>, k: int, end: int)
    requires
        -1 <= k < end <= cls.len(),
        forall|m: int| k < m < end ==> #[trigger] cls[m] == CLASS_EXTEND,
        k >= 0 ==> cls[k] != CLASS_EXTEND,
    ensures
        below_plain_marks(cls, end) == k,
    decreases end,
{
    if k < end - 1 {
        assert(cls[end - 1] == CLASS_EXTEND);
        lemma_plain_marks_lead_to(cls, k, end - 1);
    }
}

proof fn lemma_marks_lead_to(cls: Seq<u8>, k: int, end: int)
    requires
        marks_lead_to(cls, k, end),
    ensures
        below_marks(cls, end) == k,
        cased_mark_between(cls, k, end) == has_cased_mark(cls, k, end),
    decreases end,
{
    if k < end - 1 {
        assert(is_combining(cls[end - 1]));
        lemma_marks_lead_to(cls, k, end - 1);
    }
}

proof fn lemma_riders_lead_to(cls: Seq<u8>, b: int, k: int)
    requires
        riders_lead_to(cls, b, k),
    ensures
        below_riders(cls, k) == b,
    decreases k,
{
    if b < k - 1 {
        assert(is_combining(cls[k - 1]) || cls[k - 1] == CLASS_SUPP_MN);
        lemma_riders_lead_to(cls, b, k - 1);
    }
}

/// Uncased marks are passed where they hang off a letter, a digit or a cased mark, and end the word
/// where they hang off anything else or nothing.
pub proof fn looking_back_over_uncased_marks(
    cls: Seq<u8>,
    k: int,
    end: int,
    last_letter: bool,
    leading_format: bool,
)
    requires
        -1 <= k < end - 1,
        end <= cls.len(),
        forall|m: int| k < m < end ==> #[trigger] cls[m] == CLASS_EXTEND,
        k >= 0 ==> cls[k] != CLASS_EXTEND,
    ensures
        cased_before(cls, end, last_letter, leading_format) == (k >= 0 && (is_letter(cls[k])
            || is_digit(cls[k]) || cls[k] == CLASS_EXTEND_CASED) && cased_before(
            cls,
            k + 1,
            last_letter,
            leading_format,
        )),
{
    assert(cls[end - 1] == CLASS_EXTEND);
    lemma_plain_marks_lead_to(cls, k, end - 1);
}

/// A cased mark is found where its marks hang off a letter or a digit, directly or through
/// supplementary marks, and nowhere else.
pub proof fn looking_back_at_a_cased_mark(
    cls: Seq<u8>,
    b: int,
    k: int,
    end: int,
    last_letter: bool,
    leading_format: bool,
)
    requires
        0 < end <= cls.len(),
        cls[end - 1] == CLASS_EXTEND_CASED,
        marks_lead_to(cls, k, end - 1),
        k >= 0 ==> riders_lead_to(cls, b, k),
    ensures
        cased_before(cls, end, last_letter, leading_format) == (k >= 0 && if cls[k]
            == CLASS_SUPP_MN {
            b >= 0 && (is_letter(cls[b]) || is_digit(cls[b]))
        } else {
            is_letter(cls[k]) || is_digit(cls[k])
        }),
{
    lemma_marks_lead_to(cls, k, end - 1);
    if k >= 0 {
        lemma_riders_lead_to(cls, b, k);
    }
}

/// A danda is passed only from digits back to letters: to a cased letter, to a letter with a cased
/// mark, to a supplementary cased letter at the start of the text, or on past letters without case.
pub proof fn looking_back_over_a_danda(
    cls: Seq<u8>,
    b: int,
    k: int,
    end: int,
    last_letter: bool,
    leading_format: bool,
)
    requires
        0 < end <= cls.len(),
        cls[end - 1] == CLASS_DANDA,
        marks_lead_to(cls, k, end - 1),
        k >= 0 ==> riders_lead_to(cls, b, k),
    ensures
        cased_before(cls, end, last_letter, leading_format) == (!last_letter && k >= 0 && {
            let marked = has_cased_mark(cls, k, end - 1);
            ||| cls[k] == CLASS_ALETTER_CASED
            ||| cls[k] == CLASS_ALETTER && (marked || cased_before(
                cls,
                k + 1,
                true,
                leading_format,
            ))
            ||| cls[k] == CLASS_SUPP_CASED && (marked || (k == 0 && !leading_format))
            ||| cls[k] == CLASS_SUPP_LETTER && marked
            ||| cls[k] == CLASS_SUPP_MN && marked && b >= 0 && is_letter(cls[b])
        }),
{
    lemma_marks_lead_to(cls, k, end - 1);
    if k >= 0 {
        lemma_riders_lead_to(cls, b, k);
    }
}

/// Punctuation inside a word is passed from letters back to letters, unless it joins digits alone,
/// and from digits back to digits, unless it joins letters alone. A cased mark on the way is found.
pub proof fn looking_back_over_punctuation(
    cls: Seq<u8>,
    b: int,
    k: int,
    end: int,
    last_letter: bool,
    leading_format: bool,
)
    requires
        0 < end <= cls.len(),
        cls[end - 1] == CLASS_MID_LETTER || cls[end - 1] == CLASS_MID_NUM || cls[end - 1]
            == CLASS_MID_NUM_LET,
        marks_lead_to(cls, k, end - 1),
        k >= 0 ==> riders_lead_to(cls, b, k),
    ensures
        cased_before(cls, end, last_letter, leading_format) == (k >= 0 && {
            let marked = has_cased_mark(cls, k, end - 1);
            let on = cased_before(cls, k + 1, last_letter, leading_format);
            let joins = if last_letter {
                cls[end - 1] != CLASS_MID_NUM
            } else {
                cls[end - 1] != CLASS_MID_LETTER
            };
            joins && if last_letter {
                ||| is_letter(cls[k]) && (marked || on)
                ||| cls[k] == CLASS_SUPP_MN && marked && b >= 0 && is_letter(cls[b])
            } else {
                ||| (cls[k] == CLASS_NUMERIC || cls[k] == CLASS_NUMERIC_CASED) && (marked || on)
                ||| cls[k] == CLASS_SUPP_NUM && marked
                ||| cls[k] == CLASS_SUPP_MN && marked && b >= 0 && is_digit(cls[b])
            }
        }),
{
    lemma_marks_lead_to(cls, k, end - 1);
    if k >= 0 {
        lemma_riders_lead_to(cls, b, k);
    }
}

// ---------------------------------------------------------------------------------------------
// Looking ahead
// ---------------------------------------------------------------------------------------------

/// Looking ahead past the end finds nothing. Cased letters, digits and marks are found; other
/// letters and digits are passed; what is no mark, punctuation or danda ends the word.
pub proof fn looking_ahead_at_letters_and_digits(cls: Seq<u8>, j: int, last_letter: bool)
    requires
        0 <= j < cls.len(),
    ensures
        ({
            let c = cls[j];
            let found = cased_from(cls, j, last_letter);
            &&& !cased_from(cls, cls.len() as int, last_letter)
            &&& c == CLASS_ALETTER_CASED || c == CLASS_NUMERIC_CASED || c == CLASS_SUPP_CASED || c
                == CLASS_EXTEND_CASED ==> found
            &&& c == CLASS_ALETTER ==> found == cased_from(cls, j + 1, true)
            &&& c == CLASS_NUMERIC ==> found == cased_from(cls, j + 1, false)
            &&& c == CLASS_SUPP_LETTER || c == CLASS_SUPP_NUM || c == CLASS_SUPP_MN || c
                == CLASS_FORMAT || c == CLASS_BOUNDARY || c > CLASS_SUPP_NUM ==> !found
        }),
{
}

proof fn lemma_plain_marks_lead_on(cls: Seq<u8>, j: int, k: int)
    requires
        0 <= j <= k <= cls.len(),
        forall|m: int| j <= m < k ==> #[trigger] cls[m] == CLASS_EXTEND,
        k < cls.len() ==> cls[k] != CLASS_EXTEND,
    ensures
        beyond_plain_marks(cls, j) == k,
    decreases k - j,
{
    if j < k {
        assert(cls[j] == CLASS_EXTEND);
        lemma_plain_marks_lead_on(cls, j + 1, k);
    }
}

/// Uncased marks are passed, onto whatever belongs to a word.
pub proof fn looking_ahead_over_uncased_marks(cls: Seq<u8>, j: int, k: int, last_letter: bool)
    requires
        0 <= j < k <= cls.len(),
        forall|m: int| j <= m < k ==> #[trigger] cls[m] == CLASS_EXTEND,
        k < cls.len() ==> cls[k] != CLASS_EXTEND,
    ensures
        cased_from(cls, j, last_letter) == (k < cls.len() && cased_from(cls, k, last_letter)),
{
    assert(cls[j] == CLASS_EXTEND);
    lemma_plain_marks_lead_on(cls, j, k);
}

/// A danda is passed only from letters to a digit right after it.
pub proof fn looking_ahead_over_a_danda(cls: Seq<u8>, j: int, last_letter: bool)
    requires
        0 <= j < cls.len(),
        cls[j] == CLASS_DANDA,
    ensures
        cased_from(cls, j, last_letter) == (last_letter && j + 1 < cls.len() && (cls[j + 1]
            == CLASS_NUMERIC_CASED || cls[j + 1] == CLASS_NUMERIC && cased_from(
            cls,
            j + 2,
            false,
        ))),
{
}

/// Punctuation inside a word is passed only to what follows it at once: from letters to a letter,
/// unless it joins digits alone, and from digits to a digit, unless it joins letters alone.
pub proof fn looking_ahead_over_punctuation(cls: Seq<u8>, j: int, last_letter: bool)
    requires
        0 <= j < cls.len(),
        cls[j] == CLASS_MID_LETTER || cls[j] == CLASS_MID_NUM || cls[j] == CLASS_MID_NUM_LET,
    ensures
        cased_from(cls, j, last_letter) == (j + 1 < cls.len() && (if last_letter {
            cls[j] != CLASS_MID_NUM && is_letter(cls[j + 1])
        } else {
            cls[j] != CLASS_MID_LETTER && (cls[j + 1] == CLASS_NUMERIC || cls[j + 1]
                == CLASS_NUMERIC_CASED)
        }) && cased_from(cls, j + 1, last_letter)),
{
}

} // verus!
