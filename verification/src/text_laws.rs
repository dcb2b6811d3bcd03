//! What holds of texts: how numbers are written and read, how lists are joined, and which ASCII
//! texts are the same up to case.

use crate::text::{
    all_digits, ascii_lower, decimal, digits_value, equal_ignoring_ascii_case, int_value, joined,
    lemma_decimal_reads_back, signed_decimal,
};
use vstd::prelude::*;
use vstd::utf8::*;

verus! {

// ---------------------------------------------------------------------------------------------
// Numbers
// ---------------------------------------------------------------------------------------------

/// The ten digits, in order.
pub open spec fn digit_chars() -> Seq<char> {
    seq!['0', '1', '2', '3', '4', '5', '6', '7', '8', '9']
}

/// A number is written digit by digit: a digit at the end makes it ten times as large and adds the
/// digit.
pub proof fn numbers_are_written_digit_by_digit(n: nat, d: nat)
    requires
        d < 10,
    ensures
        decimal(d) == seq![digit_chars()[d as int]],
        n > 0 ==> decimal(10 * n + d) == decimal(n).push(digit_chars()[d as int]),
{
    if n > 0 {
        assert((10 * n + d) / 10 == n);
        assert((10 * n + d) % 10 == d);
    }
}

/// A negative number is written as its magnitude after a minus sign.
pub proof fn negative_numbers_carry_a_sign(n: nat)
    ensures
        n > 0 ==> signed_decimal(-(n as int)) == seq!['-'] + decimal(n),
        signed_decimal(n as int) == decimal(n),
{
}

/// `n` zeros.
pub open spec fn zeros(n: nat) -> Seq<char> {
    Seq::new(n, |i: int| '0')
}

/// Whether `s` is a sign, or nothing, in front of zeros, or nothing, in front of the magnitude of
/// `v`.
pub open spec fn spells(s: Seq<char>, sign: Seq<char>, z: nat, v: int) -> bool {
    &&& s == sign + zeros(z) + decimal(if v < 0 {
        (-v) as nat
    } else {
        v as nat
    })
    &&& {
        ||| sign == seq!['-'] && v <= 0
        ||| sign == seq!['+'] && v >= 0
        ||| sign == Seq::<char>::empty() && v >= 0
    }
}

proof fn lemma_leading_zeros(z: nat, t: Seq<char>)
    requires
        all_digits(t),
    ensures
        all_digits(zeros(z) + t),
        digits_value(zeros(z) + t) == digits_value(t),
    decreases t.len() + z,
{
    let s = zeros(z) + t;
    if t.len() == 0 {
        if z > 0 {
            lemma_leading_zeros((z - 1) as nat, t);
            assert(s.drop_last() =~= zeros((z - 1) as nat) + t);
        } else {
            assert(s =~= t);
        }
    } else {
        assert(all_digits(t.drop_last())) by {
            assert forall|i: int| 0 <= i < t.len() - 1 implies '0' <= #[trigger] t.drop_last()[i]
                <= '9' by {
                assert(t.drop_last()[i] == t[i]);
            }
        }
        lemma_leading_zeros(z, t.drop_last());
        assert(s.drop_last() =~= zeros(z) + t.drop_last());
    }
    assert forall|i: int| 0 <= i < s.len() implies '0' <= #[trigger] s[i] <= '9' by {
        if i >= z {
            assert(s[i] == t[i - z]);
        }
    }
}

proof fn lemma_digits_are_zeros_and_a_number(b: Seq<char>) -> (z: nat)
    requires
        b.len() > 0,
        all_digits(b),
    ensures
        b == zeros(z) + decimal(digits_value(b)),
    decreases b.len(),
{
    reveal_with_fuel(digits_value, 2);
    let d = (b.last() as nat - 48) as nat;
    let last = b.last();
    assert('0' <= b[b.len() - 1] <= '9');
    assert(crate::text::digit(d as int) == last);
    if b.len() == 1 {
        assert(b.drop_last() =~= Seq::<char>::empty());
        assert(b =~= zeros(0) + decimal(d));
        0
    } else {
        let b0 = b.drop_last();
        assert(all_digits(b0)) by {
            assert forall|i: int| 0 <= i < b0.len() implies '0' <= #[trigger] b0[i] <= '9' by {
                assert(b0[i] == b[i]);
            }
        }
        let z0 = lemma_digits_are_zeros_and_a_number(b0);
        let n0 = digits_value(b0);
        assert(b =~= b0.push(last));
        if n0 == 0 {
            assert(b =~= zeros(z0 + 1) + decimal(d)) by {
                assert(b0 =~= zeros(z0) + seq!['0']);
                assert(decimal(d) =~= seq![last]);
            }
            z0 + 1
        } else {
            assert(digits_value(b) / 10 == n0);
            assert(digits_value(b) % 10 == d);
            assert(decimal(digits_value(b)) == decimal(n0).push(last));
            assert((zeros(z0) + decimal(n0)).push(last) =~= zeros(z0) + decimal(n0).push(last));
            z0
        }
    }
}

/// A text reads as a 32-bit number if and only if it spells that number: an optional sign, any
/// number of zeros, and the number itself.
pub proof fn texts_read_as_the_numbers_they_spell(s: Seq<char>, v: i32)
    ensures
        int_value(s) == Some(v) <==> exists|sign: Seq<char>, z: nat|
            #[trigger] spells(s, sign, z, v as int),
{
    let n: nat = if v < 0 {
        (-v) as nat
    } else {
        v as nat
    };
    if exists|sign: Seq<char>, z: nat| #[trigger] spells(s, sign, z, v as int) {
        let (sign, z) = choose|sign: Seq<char>, z: nat| #[trigger] spells(s, sign, z, v as int);
        let body = zeros(z) + decimal(n);
        lemma_decimal_reads_back(n);
        lemma_leading_zeros(z, decimal(n));
        if sign.len() == 0 {
            assert(s =~= body);
            assert('0' <= body[0] <= '9');
        } else {
            assert(s.skip(1) =~= body);
        }
    }
    if int_value(s) == Some(v) {
        let signed = s.len() > 0 && (s[0] == '-' || s[0] == '+');
        let body = if signed {
            s.skip(1)
        } else {
            s
        };
        let z = lemma_digits_are_zeros_and_a_number(body);
        assert(digits_value(body) == n);
        let sign = if signed {
            seq![s[0]]
        } else {
            Seq::<char>::empty()
        };
        assert(s =~= sign + body);
        assert(sign + (zeros(z) + decimal(n)) =~= sign + zeros(z) + decimal(n));
        assert(spells(s, sign, z, v as int));
    }
}

// ---------------------------------------------------------------------------------------------
// Lists
// ---------------------------------------------------------------------------------------------

/// Joining nothing gives nothing, joining one part gives that part, and a further part comes after
/// a separator.
pub proof fn parts_are_joined_by_separators(
    parts: Seq<Seq<char>>,
    next: Seq<char>,
    sep: Seq<char>,
)
    ensures
        joined(Seq::empty(), sep) == Seq::<char>::empty(),
        joined(seq![next], sep) == next,
        parts.len() > 0 ==> joined(parts.push(next), sep) == joined(parts, sep) + sep + next,
{
    assert(parts.push(next).drop_last() =~= parts);
}

// ---------------------------------------------------------------------------------------------
// ASCII
// ---------------------------------------------------------------------------------------------

/// Whether two characters are the same ASCII letter, one as capital and one as small letter.
pub open spec fn is_case_pair(capital: char, small: char) -> bool {
    'A' <= capital <= 'Z' && small as int == capital as int + 32
}

/// ASCII texts are the same up to case if and only if they are of one length and every two
/// characters at the same place are the same, or the capital and the small form of one letter.
pub proof fn ascii_texts_differ_in_case_alone(a: Seq<char>, b: Seq<char>)
    requires
        is_ascii_chars(a),
        is_ascii_chars(b),
    ensures
        equal_ignoring_ascii_case(a, b) <==> a.len() == b.len() && forall|i: int|
            0 <= i < a.len() ==> #[trigger] a[i] == b[i] || is_case_pair(a[i], b[i])
                || is_case_pair(b[i], a[i]),
{
    let x = a.map_values(|c: char| ascii_lower(c));
    let y = b.map_values(|c: char| ascii_lower(c));
    if a.len() == b.len() {
        assert forall|i: int| 0 <= i < a.len() implies (x[i] == y[i]) == (#[trigger] a[i] == b[i]
            || is_case_pair(a[i], b[i]) || is_case_pair(b[i], a[i])) by {
            assert('\0' <= b[i] <= '\u{7f}');
        }
        if forall|i: int|
            0 <= i < a.len() ==> #[trigger] a[i] == b[i] || is_case_pair(a[i], b[i])
                || is_case_pair(b[i], a[i]) {
            assert forall|i: int| 0 <= i < x.len() implies x[i] == y[i] by {
                assert(a[i] == a[i]);
            }
            assert(x =~= y);
        } else {
            assert(x.len() == y.len());
            let i = choose|i: int|
                0 <= i < a.len() && !(#[trigger] a[i] == b[i] || is_case_pair(a[i], b[i])
                    || is_case_pair(b[i], a[i]));
            assert(x[i] != y[i]);
        }
    } else {
        assert(x.len() != y.len());
    }
}

} // verus!
