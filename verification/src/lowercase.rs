//! Lowercasing the way the planning JVM does it, and the name equality that follows from it.

use crate::case_tables::{CaseData, JvmCaseTables, CLASS_FORMAT};
use crate::sigma::{cased_before, cased_from};
use crate::text::{ascii_lower, chars_of, eq_ignore_ascii_case, equal_ignoring_ascii_case};
use vstd::prelude::*;
use vstd::string::*;
use vstd::utf8::*;

verus! {

/// Greek capital sigma.
pub const CAPITAL_SIGMA: char = '\u{03A3}';

/// Greek small sigma.
pub const SMALL_SIGMA: char = '\u{03C3}';

/// Greek small sigma at the end of a word.
pub const SMALL_FINAL_SIGMA: char = '\u{03C2}';

// ---------------------------------------------------------------------------------------------
// What lowercasing means
// ---------------------------------------------------------------------------------------------

impl CaseData {
    /// Whether `c` is anything but a format character.
    pub open spec fn is_visible(self, c: char) -> bool {
        self.class_of(c) != CLASS_FORMAT
    }

    /// `s` without its format characters.
    pub open spec fn unformatted(self, s: Seq<char>) -> Seq<char> {
        s.filter(|c: char| self.is_visible(c))
    }

    /// Whether the capital sigma at position `i` of `s` takes its final form: a cased letter
    /// comes before it in its word, and none comes after it.
    pub open spec fn is_final_sigma(self, s: Seq<char>, i: int) -> bool {
        let cls = self.classes_of(self.unformatted(s));
        let at = self.unformatted(s.take(i)).len() as int;
        let leading_format = self.class_of(s[0]) == CLASS_FORMAT;
        cased_before(cls, at, true, leading_format) && !cased_from(cls, at + 1, true)
    }

    /// What `c` lowercases to where its neighbors do not matter.
    pub open spec fn replacement_of(self, c: char) -> Seq<char> {
        if self.lower.contains_key(c) {
            self.lower[c]
        } else {
            seq![c]
        }
    }

    /// What the character at position `i` of `s` lowercases to.
    pub open spec fn lowered_char(self, s: Seq<char>, i: int) -> Seq<char> {
        if s[i] == CAPITAL_SIGMA {
            if self.is_final_sigma(s, i) {
                seq![SMALL_FINAL_SIGMA]
            } else {
                seq![SMALL_SIGMA]
            }
        } else {
            self.replacement_of(s[i])
        }
    }

    /// What `s` lowercases to.
    pub open spec fn lowercased(self, s: Seq<char>) -> Seq<char> {
        Seq::new(s.len(), |i: int| self.lowered_char(s, i)).flatten()
    }
}

impl JvmCaseTables {
    /// The text without its format characters, and for each position of the text how many
    /// characters before it are kept.
    fn without_format(&self, raw: &Vec<char>) -> (r: (Vec<char>, Vec<usize>))
        ensures
            r.0@ == self@.unformatted(raw@),
            r.1.len() == raw.len(),
            forall|k: int|
                0 <= k < raw.len() ==> (#[trigger] r.1@[k]) == self@.unformatted(
                    raw@.take(k),
                ).len(),
    {
        let mut kept: Vec<char> = Vec::new();
        let mut index: Vec<usize> = Vec::new();
        let ghost visible = |c: char| self@.is_visible(c);
        for k in 0..raw.len()
            invariant
                visible == (|c: char| self@.is_visible(c)),
                kept@ == raw@.take(k as int).filter(visible),
                index.len() == k,
                forall|m: int|
                    0 <= m < k ==> (#[trigger] index@[m]) == raw@.take(m).filter(visible).len(),
        {
            index.push(kept.len());
            let c: char = raw[k];
            if self.class_of(c) != CLASS_FORMAT {
                kept.push(c);
            }
            proof {
                assert(raw@.take(k + 1) =~= raw@.take(k as int).push(c));
                raw@.take(k as int).lemma_filter_push(c, visible);
            }
        }
        proof {
            assert(raw@.take(raw@.len() as int) =~= raw@);
        }
        (kept, index)
    }

    /// Lowercases `s` the way the planning JVM's `String.toLowerCase(Locale.ROOT)` does: every
    /// capital sigma takes the form that its word asks for, every other character its
    /// replacement, and characters without a replacement stay as they are.
    pub fn lowercase(&self, s: &str) -> (r: String)
        ensures
            r@ == self@.lowercased(s@),
    {
        let raw: Vec<char> = chars_of(s);
        let mut out = String::new();
        // Built on the first sigma only.
        let mut filtered: Option<(Vec<char>, Vec<usize>, bool)> = None;
        let ghost pieces = Seq::new(s@.len(), |i: int| self@.lowered_char(s@, i));
        for i in 0..raw.len()
            invariant
                raw@ == s@,
                pieces == Seq::new(s@.len(), |i: int| self@.lowered_char(s@, i)),
                out@ == pieces.take(i as int).flatten(),
                match filtered {
                    Some(f) => {
                        &&& f.0@ == self@.unformatted(raw@)
                        &&& f.1.len() == raw.len()
                        &&& forall|k: int|
                            0 <= k < raw.len() ==> (#[trigger] f.1@[k]) == self@.unformatted(
                                raw@.take(k),
                            ).len()
                        &&& f.2 == (self@.class_of(raw@[0]) == CLASS_FORMAT)
                    },
                    None => true,
                },
        {
            let c: char = raw[i];
            if c == CAPITAL_SIGMA {
                let parts = match filtered {
                    Some(parts) => parts,
                    None => {
                        let (kept, index) = self.without_format(&raw);
                        (kept, index, self.class_of(raw[0]) == CLASS_FORMAT)
                    },
                };
                let at: usize = parts.1[i];
                proof {
                    assert(raw@ =~= raw@.take(i as int) + raw@.skip(i as int));
                    Seq::filter_distributes_over_add(
                        raw@.take(i as int),
                        raw@.skip(i as int),
                        |c: char| self@.is_visible(c),
                    );
                }
                let is_final = self.scan_back_finds_cased(parts.0.as_slice(), at, parts.2)
                    && !self.scan_fwd_finds_cased(parts.0.as_slice(), at);
                if is_final {
                    out.push(SMALL_FINAL_SIGMA);
                } else {
                    out.push(SMALL_SIGMA);
                }
                filtered = Some(parts);
                proof {
                    assert(pieces[i as int] =~= seq![
                        if is_final {
                            SMALL_FINAL_SIGMA
                        } else {
                            SMALL_SIGMA
                        },
                    ]);
                }
            } else if let Some(repl) = self.replacement(c) {
                out.append(repl.as_str());
            } else {
                out.push(c);
            }
            proof {
                assert(pieces.take(i + 1) =~= pieces.take(i as int).push(pieces[i as int]));
                pieces.take(i as int).lemma_flatten_push(pieces[i as int]);
                assert(out@ =~= pieces.take(i as int).flatten() + pieces[i as int]);
            }
        }
        proof {
            assert(pieces.take(pieces.len() as int) =~= pieces);
        }
        out
    }
}

// ---------------------------------------------------------------------------------------------
// Lowercasing with or without tables
// ---------------------------------------------------------------------------------------------

/// What Unicode lowercasing, as std carries it, makes of a text.
pub uninterp spec fn unicode_lowercase(s: Seq<char>) -> Seq<char>;

/// `str::to_lowercase`: the result depends on the text alone, and is named
/// [`unicode_lowercase`]. ASCII text is lowercased letter by letter, `A` to `Z` becoming `a` to
/// `z`. Nothing is claimed of what it makes of any other text.
pub assume_specification[ str::to_lowercase ](s: &str) -> (r: String)
    ensures
        r@ == unicode_lowercase(s@),
        is_ascii_chars(s@) ==> r@ == s@.map_values(|c: char| ascii_lower(c)),
;

/// The data of tables that may be absent.
pub open spec fn data_of(tables: Option<&JvmCaseTables>) -> Option<CaseData> {
    match tables {
        Some(t) => Some(t@),
        None => None,
    }
}

/// What `s` lowercases to with these tables, or by Unicode without tables.
pub open spec fn lowercased_with(s: Seq<char>, tables: Option<CaseData>) -> Seq<char> {
    match tables {
        Some(data) => data.lowercased(s),
        None => unicode_lowercase(s),
    }
}

/// Lowercases `s` for case-insensitive field matching: with tables the way the planning JVM
/// does, without tables the way `str::to_lowercase` does.
pub fn java_lowercase(s: &str, tables: Option<&JvmCaseTables>) -> (r: String)
    ensures
        r@ == lowercased_with(s@, data_of(tables)),
        tables is None && is_ascii_chars(s@) ==> r@ == s@.map_values(|c: char| ascii_lower(c)),
{
    match tables {
        Some(t) => t.lowercase(s),
        None => s.to_lowercase(),
    }
}

/// Whether two names are the same up to case: ASCII names up to the case of ASCII letters,
/// other names when they lowercase to the same text.
pub open spec fn same_name(a: Seq<char>, b: Seq<char>, tables: Option<CaseData>) -> bool {
    if is_ascii_chars(a) && is_ascii_chars(b) {
        equal_ignoring_ascii_case(a, b)
    } else {
        lowercased_with(a, tables) == lowercased_with(b, tables)
    }
}

/// Case-insensitive name equality, as Spark matches the field names of a Parquet footer.
pub fn names_equal_ignore_case_java(a: &str, b: &str, tables: Option<&JvmCaseTables>) -> (r: bool)
    ensures
        r == same_name(a@, b@, data_of(tables)),
{
    if a.is_ascii() && b.is_ascii() {
        return eq_ignore_ascii_case(a, b);
    }
    java_lowercase(a, tables) == java_lowercase(b, tables)
}

} // verus!
