//! Text building blocks: characters, decimal numbers, joined lists and ASCII folding.

use vstd::prelude::*;
use vstd::string::*;

verus! {

/// `String::push` appends one character to the end of the string.
pub assume_specification[ String::push ](s: &mut String, c: char)
    ensures
        final(s)@ == old(s)@.push(c),
;

/// `char::from_u32` gives the character with that code point, and `None` exactly when the
/// number is not a Unicode scalar value (a surrogate, or beyond `U+10FFFF`).
pub assume_specification[ char::from_u32 ](i: u32) -> (r: Option<char>)
    ensures
        match r {
            Some(c) => is_scalar_value(i) && c == i as char,
            None => !is_scalar_value(i),
        },
;

/// The numbers that are code points of characters.
pub open spec fn is_scalar_value(i: u32) -> bool {
    i <= 0xD7FF || 0xE000 <= i <= 0x10FFFF
}

/// The characters of `s`, in order.
pub fn chars_of(s: &str) -> (r: Vec<char>)
    ensures
        r@ == s@,
{
    let mut out: Vec<char> = Vec::new();
    for c in it: s.chars()
        invariant
            it.seq() == s@,
            out@ == s@.take(it.index()),
    {
        out.push(c);
    }
    proof {
        assert(s@.take(s@.len() as int) =~= s@);
    }
    out
}

// ---------------------------------------------------------------------------------------------
// Joined lists
// ---------------------------------------------------------------------------------------------

/// `parts` one after the other, with `sep` between neighbours.
pub open spec fn joined(parts: Seq<Seq<char>>, sep: Seq<char>) -> Seq<char>
    decreases parts.len(),
{
    if parts.len() == 0 {
        Seq::empty()
    } else if parts.len() == 1 {
        parts[0]
    } else {
        joined(parts.drop_last(), sep) + sep + parts.last()
    }
}

/// The characters of each string of a list.
pub open spec fn texts(list: Seq<String>) -> Seq<Seq<char>> {
    list.map_values(|s: String| s@)
}

/// Joins the strings of `list` with `sep` between neighbours.
pub fn join(list: &Vec<String>, sep: &str) -> (r: String)
    ensures
        r@ == joined(texts(list@), sep@),
{
    let mut out = String::new();
    let ghost parts = texts(list@);
    for i in 0..list.len()
        invariant
            parts == texts(list@),
            out@ == joined(parts.take(i as int), sep@),
    {
        if i > 0 {
            out.append(sep);
        }
        out.append(list[i].as_str());
        proof {
            assert(parts.take(i + 1).drop_last() =~= parts.take(i as int));
            assert(parts.take(i + 1).last() == list@[i as int]@);
        }
    }
    proof {
        assert(parts.take(parts.len() as int) =~= parts);
    }
    out
}

// ---------------------------------------------------------------------------------------------
// Decimal numbers
// ---------------------------------------------------------------------------------------------

/// The digit character of `d`.
pub open spec fn digit(d: int) -> char {
    (48 + d) as char
}

/// `n` in decimal, without leading zeros.
pub open spec fn decimal(n: nat) -> Seq<char>
    decreases n,
{
    if n < 10 {
        seq![digit(n as int)]
    } else {
        decimal(n / 10).push(digit((n % 10) as int))
    }
}

/// `i` in decimal, with a leading `-` when it is negative.
pub open spec fn signed_decimal(i: int) -> Seq<char> {
    if i < 0 {
        seq!['-'] + decimal((-i) as nat)
    } else {
        decimal(i as nat)
    }
}

fn digit_char(d: u8) -> (r: char)
    requires
        d < 10,
    ensures
        r == digit(d as int),
{
    (48 + d) as char
}

/// Appends `n` in decimal to `out`.
pub fn push_decimal(out: &mut String, n: u128)
    ensures
        final(out)@ == old(out)@ + decimal(n as nat),
    decreases n,
{
    if n >= 10 {
        push_decimal(out, n / 10);
    }
    out.push(digit_char((n % 10) as u8));
    proof {
        assert(out@ =~= old(out)@ + decimal(n as nat));
    }
}

/// Appends `i` in decimal to `out`.
pub fn push_signed_decimal(out: &mut String, i: i32)
    ensures
        final(out)@ == old(out)@ + signed_decimal(i as int),
{
    let magnitude: u128 = if i < 0 {
        out.push('-');
        (-(i as i64)) as u128
    } else {
        i as u128
    };
    push_decimal(out, magnitude);
    proof {
        assert(out@ =~= old(out)@ + signed_decimal(i as int));
    }
}

/// Whether every character of `s` is one of `0` to `9`.
pub open spec fn all_digits(s: Seq<char>) -> bool {
    forall|i: int| 0 <= i < s.len() ==> '0' <= #[trigger] s[i] <= '9'
}

/// The number that a sequence of digits stands for.
pub open spec fn digits_value(s: Seq<char>) -> nat
    decreases s.len(),
{
    if s.len() == 0 {
        0
    } else {
        digits_value(s.drop_last()) * 10 + (s.last() as nat - 48) as nat
    }
}

/// The 32-bit number that `s` reads as: an optional sign and one or more digits, whose value
/// is in range; anything else reads as no number.
pub open spec fn int_value(s: Seq<char>) -> Option<i32> {
    let negative = s.len() > 0 && s[0] == '-';
    let signed = s.len() > 0 && (s[0] == '-' || s[0] == '+');
    let body = if signed { s.skip(1) } else { s };
    let value = if negative { -digits_value(body) } else { digits_value(body) as int };
    if body.len() > 0 && all_digits(body) && i32::MIN <= value <= i32::MAX {
        Some(value as i32)
    } else {
        None
    }
}

proof fn lemma_digits_value_grows(s: Seq<char>, n: int)
    requires
        0 <= n <= s.len(),
    ensures
        digits_value(s.take(n)) <= digits_value(s),
    decreases s.len() - n,
{
    if n < s.len() {
        assert(s.take(n + 1).drop_last() =~= s.take(n));
        lemma_digits_value_grows(s, n + 1);
    } else {
        assert(s.take(n) =~= s);
    }
}

/// Reads `s` as a decimal 32-bit number.
pub fn parse_i32(s: &str) -> (r: Option<i32>)
    ensures
        r == int_value(s@),
{
    let chars = chars_of(s);
    let negative: bool = chars.len() > 0 && chars[0] == '-';
    let signed: bool = chars.len() > 0 && (chars[0] == '-' || chars[0] == '+');
    let start: usize = if signed { 1 } else { 0 };
    let ghost body = if signed { s@.skip(1) } else { s@ };
    if start == chars.len() {
        return None;
    }
    let mut magnitude: u64 = 0;
    for i in start..chars.len()
        invariant
            chars@ == s@,
            start <= chars.len(),
            start == (if signed { 1int } else { 0int }),
            signed == (s@.len() > 0 && (s@[0] == '-' || s@[0] == '+')),
            negative == (s@.len() > 0 && s@[0] == '-'),
            body == (if signed { s@.skip(1) } else { s@ }),
            body.len() == chars.len() - start,
            all_digits(body.take(i - start)),
            magnitude == digits_value(body.take(i - start)),
            magnitude <= 0x8000_0000,
    {
        let c: char = chars[i];
        let ghost n = i - start;
        assert(c == body[n]);
        if !('0' <= c && c <= '9') {
            assert(!all_digits(body));
            return None;
        }
        magnitude = magnitude * 10 + (c as u64 - 48);
        proof {
            assert(body.take(n + 1).drop_last() =~= body.take(n));
            assert(all_digits(body.take(n + 1))) by {
                assert forall|k: int| 0 <= k < n + 1 implies '0' <= #[trigger] body.take(n + 1)[k]
                    <= '9' by {
                    if k < n {
                        assert(body.take(n)[k] == body[k]);
                    }
                }
            }
        }
        if magnitude > 0x8000_0000 {
            proof {
                lemma_digits_value_grows(body, n + 1);
            }
            return None;
        }
    }
    proof {
        assert(body.take(body.len() as int) =~= body);
    }
    if negative {
        Some((-(magnitude as i64)) as i32)
    } else if magnitude <= 0x7FFF_FFFF {
        Some(magnitude as i32)
    } else {
        None
    }
}

pub(crate) proof fn lemma_decimal_reads_back(n: nat)
    ensures
        decimal(n).len() > 0,
        all_digits(decimal(n)),
        digits_value(decimal(n)) == n,
    decreases n,
{
    reveal_with_fuel(digits_value, 2);
    if n < 10 {
        assert(decimal(n).drop_last() =~= Seq::<char>::empty());
    } else {
        lemma_decimal_reads_back(n / 10);
        assert(decimal(n).drop_last() =~= decimal(n / 10));
        assert forall|i: int| 0 <= i < decimal(n).len() implies '0' <= #[trigger] decimal(n)[i]
            <= '9' by {
            if i < decimal(n / 10).len() {
                assert(decimal(n)[i] == decimal(n / 10)[i]);
            }
        }
    }
}

/// Different numbers have different decimal forms.
pub proof fn decimal_is_injective(a: nat, b: nat)
    requires
        decimal(a) == decimal(b),
    ensures
        a == b,
{
    lemma_decimal_reads_back(a);
    lemma_decimal_reads_back(b);
}

/// A 32-bit number that was written in decimal reads back as itself.
pub proof fn written_numbers_read_back(i: i32)
    ensures
        int_value(signed_decimal(i as int)) == Some(i),
{
    let s = signed_decimal(i as int);
    if i < 0 {
        lemma_decimal_reads_back((-i) as nat);
        assert(s.skip(1) =~= decimal((-i) as nat));
    } else {
        lemma_decimal_reads_back(i as nat);
        assert('0' <= s[0] <= '9');
    }
}

// ---------------------------------------------------------------------------------------------
// ASCII folding
// ---------------------------------------------------------------------------------------------

/// `c` with the ASCII capitals `A` to `Z` turned into `a` to `z`.
pub open spec fn ascii_lower(c: char) -> char {
    if 'A' <= c <= 'Z' {
        (c as u32 + 32) as char
    } else {
        c
    }
}

/// Whether two texts agree up to the case of ASCII letters.
pub open spec fn equal_ignoring_ascii_case(a: Seq<char>, b: Seq<char>) -> bool {
    a.map_values(|c: char| ascii_lower(c)) == b.map_values(|c: char| ascii_lower(c))
}

fn ascii_lower_byte(b: u8) -> (r: u8)
    requires
        b < 128,
    ensures
        r == ascii_lower(b as char) as u8,
        r < 128,
{
    if 65 <= b && b <= 90 {
        b + 32
    } else {
        b
    }
}

/// Compares two ASCII strings without regard to case.
pub fn eq_ignore_ascii_case(a: &str, b: &str) -> (r: bool)
    requires
        a.is_ascii(),
        b.is_ascii(),
    ensures
        r == equal_ignoring_ascii_case(a@, b@),
{
    broadcast use is_ascii_spec_bytes;

    let ghost fa = a@.map_values(|c: char| ascii_lower(c));
    let ghost fb = b@.map_values(|c: char| ascii_lower(c));
    let x = a.as_bytes();
    let y = b.as_bytes();
    if x.len() != y.len() {
        assert(fa.len() != fb.len());
        return false;
    }
    for i in 0..x.len()
        invariant
            a.is_ascii(),
            b.is_ascii(),
            x@ == a.spec_bytes(),
            y@ == b.spec_bytes(),
            x@.len() == y@.len(),
            x@.len() == a@.len(),
            y@.len() == b@.len(),
            fa == a@.map_values(|c: char| ascii_lower(c)),
            fb == b@.map_values(|c: char| ascii_lower(c)),
            forall|k: int| 0 <= k < i ==> fa[k] == fb[k],
    {
        assert(x@[i as int] == a@[i as int] as u8);
        assert(y@[i as int] == b@[i as int] as u8);
        assert('\0' <= a@[i as int] <= '\u{7f}' && '\0' <= b@[i as int] <= '\u{7f}');
        if ascii_lower_byte(x[i]) != ascii_lower_byte(y[i]) {
            assert(fa[i as int] != fb[i as int]);
            return false;
        }
    }
    assert(fa =~= fb);
    true
}

} // verus!
