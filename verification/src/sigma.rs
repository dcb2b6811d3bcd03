//! The one contextual mapping of the root locale: a Greek capital sigma lowercases to its final
//! form when a cased letter comes before it in its word and none comes after it.
//!
//! Words are those of the JDK's legacy break iterator. Both scans run over the word-break
//! classes of a text from which the format characters have been taken out.

use crate::case_tables::{
    JvmCaseTables, CLASS_ALETTER, CLASS_ALETTER_CASED, CLASS_DANDA, CLASS_EXTEND,
    CLASS_EXTEND_CASED, CLASS_MID_LETTER, CLASS_MID_NUM, CLASS_MID_NUM_LET, CLASS_NUMERIC,
    CLASS_NUMERIC_CASED, CLASS_SUPP_CASED, CLASS_SUPP_LETTER, CLASS_SUPP_MN, CLASS_SUPP_NUM,
};
use vstd::prelude::*;

verus! {

/// What a run of supplementary marks hangs off.
#[derive(PartialEq, Eq, Structural, Clone, Copy, Debug)]
pub enum SuppMnAnchor {
    /// Nothing that forms a word.
    Unanchored,
    /// A letter.
    Letter,
    /// A digit.
    Digit,
}

// ---------------------------------------------------------------------------------------------
// Groups of classes
// ---------------------------------------------------------------------------------------------

/// Letters that mid-letter punctuation can hang off.
#[verifier::allow_in_spec]
pub fn is_letter_base(cls: u8) -> bool
    returns
        cls == CLASS_ALETTER_CASED || cls == CLASS_ALETTER || cls == CLASS_SUPP_CASED || cls
            == CLASS_SUPP_LETTER,
{
    cls == CLASS_ALETTER_CASED || cls == CLASS_ALETTER || cls == CLASS_SUPP_CASED || cls
        == CLASS_SUPP_LETTER
}

/// Digits that mid-num punctuation can hang off.
#[verifier::allow_in_spec]
pub fn is_digit_base(cls: u8) -> bool
    returns
        cls == CLASS_NUMERIC || cls == CLASS_NUMERIC_CASED,
{
    cls == CLASS_NUMERIC || cls == CLASS_NUMERIC_CASED
}

/// Combining marks, cased or not.
#[verifier::allow_in_spec]
pub fn is_mark(cls: u8) -> bool
    returns
        cls == CLASS_EXTEND || cls == CLASS_EXTEND_CASED,
{
    cls == CLASS_EXTEND || cls == CLASS_EXTEND_CASED
}

/// Combining marks and supplementary marks.
#[verifier::allow_in_spec]
pub fn is_rider(cls: u8) -> bool
    returns
        cls == CLASS_SUPP_MN || cls == CLASS_EXTEND || cls == CLASS_EXTEND_CASED,
{
    cls == CLASS_SUPP_MN || cls == CLASS_EXTEND || cls == CLASS_EXTEND_CASED
}

/// Punctuation that can join two parts of a word.
#[verifier::allow_in_spec]
pub fn is_mid(cls: u8) -> bool
    returns
        cls == CLASS_MID_LETTER || cls == CLASS_MID_NUM || cls == CLASS_MID_NUM_LET,
{
    cls == CLASS_MID_LETTER || cls == CLASS_MID_NUM || cls == CLASS_MID_NUM_LET
}

/// Characters that a combining mark attaches to.
#[verifier::allow_in_spec]
pub fn forms_word(cls: u8) -> bool
    returns
        is_letter_base(cls) || is_digit_base(cls) || cls == CLASS_SUPP_NUM,
{
    is_letter_base(cls) || is_digit_base(cls) || cls == CLASS_SUPP_NUM
}

/// What a run of marks can trail or lead to within a word, seen from behind.
#[verifier::allow_in_spec]
pub fn continues_backward(cls: u8) -> bool
    returns
        forms_word(cls) || cls == CLASS_EXTEND_CASED,
{
    forms_word(cls) || cls == CLASS_EXTEND_CASED
}

/// What can follow a run of marks within a word.
#[verifier::allow_in_spec]
pub fn continues_forward(cls: u8) -> bool
    returns
        forms_word(cls) || cls == CLASS_EXTEND_CASED || cls == CLASS_SUPP_MN || cls == CLASS_DANDA
            || is_mid(cls),
{
    forms_word(cls) || cls == CLASS_EXTEND_CASED || cls == CLASS_SUPP_MN || cls == CLASS_DANDA
        || is_mid(cls)
}

/// Whether the punctuation `mid` joins to the base `b`: letters across mid-letter punctuation,
/// digits across mid-num punctuation.
#[verifier::allow_in_spec]
pub fn bridges(mid: u8, last_letter: bool, b: u8) -> bool
    returns
        (last_letter && mid != CLASS_MID_NUM && is_letter_base(b)) || (!last_letter && mid
            != CLASS_MID_LETTER && is_digit_base(b)),
{
    (last_letter && mid != CLASS_MID_NUM && is_letter_base(b)) || (!last_letter && mid
        != CLASS_MID_LETTER && is_digit_base(b))
}

// ---------------------------------------------------------------------------------------------
// Runs of marks
// ---------------------------------------------------------------------------------------------

/// The last position before `end` that holds no uncased mark; `-1` if there is none.
pub open spec fn below_plain_marks(cls: Seq<u8>, end: int) -> int
    decreases end,
{
    if end <= 0 {
        -1
    } else if cls[end - 1] == CLASS_EXTEND {
        below_plain_marks(cls, end - 1)
    } else {
        end - 1
    }
}

/// The last position before `end` that holds no combining mark; `-1` if there is none.
pub open spec fn below_marks(cls: Seq<u8>, end: int) -> int
    decreases end,
{
    if end <= 0 {
        -1
    } else if is_mark(cls[end - 1]) {
        below_marks(cls, end - 1)
    } else {
        end - 1
    }
}

/// The last position before `end` that holds neither a combining nor a supplementary mark;
/// `-1` if there is none.
pub open spec fn below_riders(cls: Seq<u8>, end: int) -> int
    decreases end,
{
    if end <= 0 {
        -1
    } else if is_rider(cls[end - 1]) {
        below_riders(cls, end - 1)
    } else {
        end - 1
    }
}

/// The first position at or after `start` that holds no uncased mark; the length if there is
/// none.
pub open spec fn beyond_plain_marks(cls: Seq<u8>, start: int) -> int
    decreases cls.len() - start,
{
    if start >= cls.len() {
        cls.len() as int
    } else if cls[start] == CLASS_EXTEND {
        beyond_plain_marks(cls, start + 1)
    } else {
        start
    }
}

/// Whether a cased mark stands strictly between `after` and `before`.
pub open spec fn cased_mark_between(cls: Seq<u8>, after: int, before: int) -> bool {
    exists|m: int| after < m < before && #[trigger] cls[m] == CLASS_EXTEND_CASED
}

/// What the supplementary mark at `k` hangs off.
pub open spec fn anchor_of(cls: Seq<u8>, k: int) -> SuppMnAnchor {
    let base = below_riders(cls, k);
    if base < 0 {
        SuppMnAnchor::Unanchored
    } else if is_letter_base(cls[base]) {
        SuppMnAnchor::Letter
    } else if is_digit_base(cls[base]) || cls[base] == CLASS_SUPP_NUM {
        SuppMnAnchor::Digit
    } else {
        SuppMnAnchor::Unanchored
    }
}

// ---------------------------------------------------------------------------------------------
// The two scans
// ---------------------------------------------------------------------------------------------

/// Whether a cased letter stands before position `end` in the word that `end` continues.
///
/// `last_letter` says whether the part of the word seen so far begins with a letter (rather
/// than a digit), and `leading_format` whether format characters led the raw text.
pub open spec fn cased_before(
    cls: Seq<u8>,
    end: int,
    last_letter: bool,
    leading_format: bool,
) -> bool
    decreases end,
{
    if end <= 0 {
        false
    } else {
        let j = end - 1;
        let c = cls[j];
        if c == CLASS_ALETTER_CASED || c == CLASS_NUMERIC_CASED {
            true
        } else if c == CLASS_ALETTER {
            cased_before(cls, j, true, leading_format)
        } else if c == CLASS_NUMERIC {
            cased_before(cls, j, false, leading_format)
        } else if c == CLASS_EXTEND {
            // Uncased marks attach only to a real base below them.
            let k = below_plain_marks(cls, j);
            0 <= k < j && continues_backward(cls[k]) && cased_before(
                cls,
                k + 1,
                last_letter,
                leading_format,
            )
        } else if c == CLASS_SUPP_CASED {
            // Closes the preceding word, except at raw text start, where it stays joined to
            // what follows.
            j == 0 && !leading_format
        } else if c == CLASS_EXTEND_CASED {
            // Cased when its run hangs off a base.
            let k = below_marks(cls, j);
            0 <= k < j && (forms_word(cls[k]) || (cls[k] == CLASS_SUPP_MN && anchor_of(cls, k)
                != SuppMnAnchor::Unanchored))
        } else if c == CLASS_DANDA {
            // Letters, then a danda, then digits.
            let k = below_marks(cls, j);
            let cased_mark = cased_mark_between(cls, k, j);
            !last_letter && 0 <= k < j && if cls[k] == CLASS_ALETTER_CASED {
                true
            } else if cls[k] == CLASS_SUPP_CASED {
                cased_mark || (k == 0 && !leading_format)
            } else if cls[k] == CLASS_SUPP_LETTER {
                cased_mark
            } else if cls[k] == CLASS_SUPP_MN {
                cased_mark && anchor_of(cls, k) == SuppMnAnchor::Letter
            } else if cls[k] == CLASS_ALETTER {
                cased_mark || cased_before(cls, k + 1, true, leading_format)
            } else {
                false
            }
        } else if is_mid(c) {
            // Joins to a base before it, with the marks that trail that base.
            let k = below_marks(cls, j);
            let cased_mark = cased_mark_between(cls, k, j);
            let carried = if last_letter {
                c != CLASS_MID_NUM && cls[k] == CLASS_SUPP_MN && anchor_of(cls, k)
                    == SuppMnAnchor::Letter
            } else {
                c != CLASS_MID_LETTER && (cls[k] == CLASS_SUPP_NUM || (cls[k] == CLASS_SUPP_MN
                    && anchor_of(cls, k) == SuppMnAnchor::Digit))
            };
            0 <= k < j && ((cased_mark && carried) || (bridges(c, last_letter, cls[k]) && (
            cased_mark || cased_before(cls, k + 1, last_letter, leading_format))))
        } else {
            // Supplementary characters without case, boundaries and unknown classes.
            false
        }
    }
}

/// Whether a cased letter stands at or after position `j` in the word that `j` continues.
///
/// `last_letter` says whether the part of the word seen so far ends with a letter (rather than
/// a digit).
pub open spec fn cased_from(cls: Seq<u8>, j: int, last_letter: bool) -> bool
    decreases cls.len() - j,
{
    if j >= cls.len() {
        false
    } else {
        let c = cls[j];
        if c == CLASS_ALETTER_CASED || c == CLASS_NUMERIC_CASED {
            true
        } else if c == CLASS_ALETTER {
            cased_from(cls, j + 1, true)
        } else if c == CLASS_NUMERIC {
            cased_from(cls, j + 1, false)
        } else if c == CLASS_EXTEND {
            let k = beyond_plain_marks(cls, j);
            j < k < cls.len() && continues_forward(cls[k]) && cased_from(cls, k, last_letter)
        } else if c == CLASS_SUPP_CASED || c == CLASS_EXTEND_CASED {
            true
        } else if c == CLASS_DANDA {
            // Attaches to letters only, and continues only into a digit.
            last_letter && j + 1 < cls.len() && (cls[j + 1] == CLASS_NUMERIC_CASED || (cls[j + 1]
                == CLASS_NUMERIC && cased_from(cls, j + 2, false)))
        } else if is_mid(c) {
            // Joins only to a base that follows it immediately.
            j + 1 < cls.len() && bridges(c, last_letter, cls[j + 1]) && cased_from(
                cls,
                j + 1,
                last_letter,
            )
        } else {
            false
        }
    }
}

// ---------------------------------------------------------------------------------------------
// Running the scans
// ---------------------------------------------------------------------------------------------

impl JvmCaseTables {
    /// The last position before `end` whose class is not `CLASS_EXTEND`.
    fn skip_extends_backward(&self, cps: &[char], end: usize) -> (r: Option<usize>)
        requires
            end <= cps.len(),
        ensures
            match r {
                Some(k) => k < end && k == below_plain_marks(self@.classes_of(cps@), end as int),
                None => below_plain_marks(self@.classes_of(cps@), end as int) == -1,
            },
    {
        let ghost cls = self@.classes_of(cps@);
        let mut k: usize = end;
        while k > 0
            invariant
                k <= end <= cps.len(),
                cls == self@.classes_of(cps@),
                below_plain_marks(cls, k as int) == below_plain_marks(cls, end as int),
            decreases k,
        {
            assert(cls[k - 1] == self@.class_of(cps@[k - 1]));
            if self.class_of(cps[k - 1]) != CLASS_EXTEND {
                return Some(k - 1);
            }
            k = k - 1;
        }
        None
    }

    /// The first position at or after `start` whose class is not `CLASS_EXTEND`.
    fn skip_extends_forward(&self, cps: &[char], start: usize) -> (r: Option<usize>)
        requires
            start <= cps.len(),
        ensures
            match r {
                Some(k) => start <= k < cps.len() && k == beyond_plain_marks(
                    self@.classes_of(cps@),
                    start as int,
                ),
                None => beyond_plain_marks(self@.classes_of(cps@), start as int) == cps@.len(),
            },
    {
        let ghost cls = self@.classes_of(cps@);
        let mut k: usize = start;
        while k < cps.len()
            invariant
                start <= k <= cps.len(),
                cls == self@.classes_of(cps@),
                beyond_plain_marks(cls, k as int) == beyond_plain_marks(cls, start as int),
            decreases cps.len() - k,
        {
            assert(cls[k as int] == self@.class_of(cps@[k as int]));
            if self.class_of(cps[k]) != CLASS_EXTEND {
                return Some(k);
            }
            k = k + 1;
        }
        None
    }

    /// The last position before `end` that holds no combining mark, and whether a cased mark
    /// was walked over on the way there.
    fn skip_extends_tracking_cased(&self, cps: &[char], end: usize) -> (r: (Option<usize>, bool))
        requires
            end <= cps.len(),
        ensures
            match r.0 {
                Some(k) => k < end && k == below_marks(self@.classes_of(cps@), end as int),
                None => below_marks(self@.classes_of(cps@), end as int) == -1,
            },
            r.1 == cased_mark_between(
                self@.classes_of(cps@),
                below_marks(self@.classes_of(cps@), end as int),
                end as int,
            ),
    {
        let ghost cls = self@.classes_of(cps@);
        let mut k: usize = end;
        let mut saw_cased = false;
        while k > 0
            invariant
                k <= end <= cps.len(),
                cls == self@.classes_of(cps@),
                below_marks(cls, k as int) == below_marks(cls, end as int),
                saw_cased == cased_mark_between(cls, k - 1, end as int),
            decreases k,
        {
            assert(cls[k - 1] == self@.class_of(cps@[k - 1]));
            let c: u8 = self.class_of(cps[k - 1]);
            if !is_mark(c) {
                return (Some(k - 1), saw_cased);
            }
            if c == CLASS_EXTEND_CASED {
                saw_cased = true;
            }
            proof {
                if cased_mark_between(cls, k - 2, end as int) && !cased_mark_between(
                    cls,
                    k - 1,
                    end as int,
                ) {
                    let m = choose|m: int|
                        k - 2 < m < end && #[trigger] cls[m] == CLASS_EXTEND_CASED;
                    assert(m == k - 1);
                }
                assert(cased_mark_between(cls, k - 2, end as int) == saw_cased) by {
                    if c == CLASS_EXTEND_CASED {
                        assert(cls[k - 1] == CLASS_EXTEND_CASED);
                    } else if cased_mark_between(cls, k - 1, end as int) {
                        let m = choose|m: int|
                            k - 1 < m < end && #[trigger] cls[m] == CLASS_EXTEND_CASED;
                        assert(cls[m] == CLASS_EXTEND_CASED);
                    }
                }
            }
            k = k - 1;
        }
        (None, saw_cased)
    }

    /// What the supplementary mark at `k` hangs off, walking down through further marks.
    fn supp_mn_anchor(&self, cps: &[char], k: usize) -> (r: SuppMnAnchor)
        requires
            k <= cps.len(),
        ensures
            r == anchor_of(self@.classes_of(cps@), k as int),
    {
        let ghost cls = self@.classes_of(cps@);
        let mut m: usize = k;
        while m > 0
            invariant
                m <= k <= cps.len(),
                cls == self@.classes_of(cps@),
                below_riders(cls, m as int) == below_riders(cls, k as int),
            decreases m,
        {
            assert(cls[m - 1] == self@.class_of(cps@[m - 1]));
            let c: u8 = self.class_of(cps[m - 1]);
            if !is_rider(c) {
                return if is_letter_base(c) {
                    SuppMnAnchor::Letter
                } else if is_digit_base(c) || c == CLASS_SUPP_NUM {
                    SuppMnAnchor::Digit
                } else {
                    SuppMnAnchor::Unanchored
                };
            }
            m = m - 1;
        }
        SuppMnAnchor::Unanchored
    }

    /// Whether a cased letter stands before position `i` in the word that the sigma at `i`
    /// continues. Runs over text without format characters; `leading_format` says whether
    /// format characters led the raw text.
    pub fn scan_back_finds_cased(&self, cps: &[char], i: usize, leading_format: bool) -> (r: bool)
        requires
            i <= cps.len(),
        ensures
            r == cased_before(self@.classes_of(cps@), i as int, true, leading_format),
    {
        let ghost cls = self@.classes_of(cps@);
        let mut last_letter = true;  // the sigma itself is a letter
        let mut end: usize = i;
        while end > 0
            invariant
                end <= i <= cps.len(),
                cls == self@.classes_of(cps@),
                cls.len() == cps@.len(),
                forall|k: int| 0 <= k < cps@.len() ==> #[trigger] cls[k] == self@.class_of(cps@[k]),
                cased_before(cls, i as int, true, leading_format) == cased_before(
                    cls,
                    end as int,
                    last_letter,
                    leading_format,
                ),
            decreases end,
        {
            let j: usize = end - 1;
            let c: u8 = self.class_of(cps[j]);
            assert(c == cls[j as int]);
            if c == CLASS_ALETTER_CASED || c == CLASS_NUMERIC_CASED {
                return true;
            } else if c == CLASS_ALETTER {
                last_letter = true;
                end = j;
            } else if c == CLASS_NUMERIC {
                last_letter = false;
                end = j;
            } else if c == CLASS_EXTEND {
                let Some(k) = self.skip_extends_backward(cps, j) else {
                    return false;
                };
                let b: u8 = self.class_of(cps[k]);
                assert(b == cls[k as int]);
                if !continues_backward(b) {
                    return false;
                }
                end = k + 1;
            } else if c == CLASS_SUPP_CASED {
                return j == 0 && !leading_format;
            } else if c == CLASS_EXTEND_CASED {
                let (Some(k), _) = self.skip_extends_tracking_cased(cps, j) else {
                    return false;
                };
                let b: u8 = self.class_of(cps[k]);
                assert(b == cls[k as int]);
                return forms_word(b) || (b == CLASS_SUPP_MN && self.supp_mn_anchor(cps, k)
                    != SuppMnAnchor::Unanchored);
            } else if c == CLASS_DANDA {
                if last_letter {
                    return false;
                }
                let (Some(k), cased_mark) = self.skip_extends_tracking_cased(cps, j) else {
                    return false;
                };
                let b: u8 = self.class_of(cps[k]);
                assert(b == cls[k as int]);
                if b == CLASS_ALETTER_CASED {
                    return true;
                }
                if b == CLASS_SUPP_CASED {
                    return cased_mark || (k == 0 && !leading_format);
                }
                if b == CLASS_SUPP_LETTER {
                    return cased_mark;
                }
                if b == CLASS_SUPP_MN {
                    return cased_mark && self.supp_mn_anchor(cps, k) == SuppMnAnchor::Letter;
                }
                if b != CLASS_ALETTER {
                    return false;
                }
                if cased_mark {
                    return true;
                }
                last_letter = true;
                end = k + 1;
            } else if is_mid(c) {
                let (Some(k), cased_mark) = self.skip_extends_tracking_cased(cps, j) else {
                    return false;
                };
                let b: u8 = self.class_of(cps[k]);
                assert(b == cls[k as int]);
                if cased_mark && last_letter && c != CLASS_MID_NUM && b == CLASS_SUPP_MN
                    && self.supp_mn_anchor(cps, k) == SuppMnAnchor::Letter {
                    return true;
                }
                if cased_mark && !last_letter && c != CLASS_MID_LETTER && (b == CLASS_SUPP_NUM || (b
                    == CLASS_SUPP_MN && self.supp_mn_anchor(cps, k) == SuppMnAnchor::Digit)) {
                    return true;
                }
                if !bridges(c, last_letter, b) {
                    return false;
                }
                if cased_mark {
                    return true;
                }
                end = k + 1;
            } else {
                return false;
            }
        }
        false
    }

    /// Whether a cased letter stands after position `i` in the word that the sigma at `i`
    /// begins. Runs over text without format characters.
    pub fn scan_fwd_finds_cased(&self, cps: &[char], i: usize) -> (r: bool)
        requires
            i <= cps.len(),
        ensures
            r == cased_from(self@.classes_of(cps@), i + 1, true),
    {
        if i == cps.len() {
            return false;
        }
        let ghost cls = self@.classes_of(cps@);
        let mut last_letter = true;
        let mut j: usize = i + 1;
        while j < cps.len()
            invariant
                i < j <= cps.len(),
                cls == self@.classes_of(cps@),
                cls.len() == cps@.len(),
                forall|k: int| 0 <= k < cps@.len() ==> #[trigger] cls[k] == self@.class_of(cps@[k]),
                cased_from(cls, i + 1, true) == cased_from(cls, j as int, last_letter),
            decreases cps.len() - j,
        {
            let c: u8 = self.class_of(cps[j]);
            assert(c == cls[j as int]);
            if c == CLASS_ALETTER_CASED || c == CLASS_NUMERIC_CASED {
                return true;
            } else if c == CLASS_ALETTER {
                last_letter = true;
                j = j + 1;
            } else if c == CLASS_NUMERIC {
                last_letter = false;
                j = j + 1;
            } else if c == CLASS_EXTEND {
                assert(beyond_plain_marks(cls, j as int) == beyond_plain_marks(cls, j + 1));
                let Some(k) = self.skip_extends_forward(cps, j + 1) else {
                    return false;
                };
                let b: u8 = self.class_of(cps[k]);
                assert(b == cls[k as int]);
                if !continues_forward(b) {
                    return false;
                }
                j = k;
            } else if c == CLASS_SUPP_CASED || c == CLASS_EXTEND_CASED {
                return true;
            } else if c == CLASS_DANDA {
                if !last_letter || j + 1 >= cps.len() {
                    return false;
                }
                let b: u8 = self.class_of(cps[j + 1]);
                assert(b == cls[j + 1]);
                if b == CLASS_NUMERIC_CASED {
                    return true;
                }
                if b != CLASS_NUMERIC {
                    return false;
                }
                last_letter = false;
                j = j + 2;
            } else if is_mid(c) {
                if j + 1 >= cps.len() {
                    return false;
                }
                let b: u8 = self.class_of(cps[j + 1]);
                assert(b == cls[j + 1]);
                if !bridges(c, last_letter, b) {
                    return false;
                }
                j = j + 1;
            } else {
                return false;
            }
        }
        false
    }
}

} // verus!
