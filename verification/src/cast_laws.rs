//! What holds of the rules for conversions.

use crate::casts::{
    cast_verdict, digits_needed, holds_float, holds_int, holds_text, is_complex, wide_decimal,
    CastVerdict,
};
use crate::schema::{same_field, same_type, DataType, Field};
use vstd::arithmetic::power::{lemma_pow_adds, lemma_pow_increases, lemma_pow_positive, pow};
use vstd::prelude::*;

verus! {

// ---------------------------------------------------------------------------------------------
// Equality of types
// ---------------------------------------------------------------------------------------------

/// Every type is the same as itself.
pub proof fn same_type_is_reflexive(a: &DataType)
    ensures
        same_type(*a, *a),
    decreases a,
{
    match a {
        DataType::List(x) => lemma_same_field_reflexive(x),
        DataType::ListView(x) => lemma_same_field_reflexive(x),
        DataType::FixedSizeList(x, _) => lemma_same_field_reflexive(x),
        DataType::LargeList(x) => lemma_same_field_reflexive(x),
        DataType::LargeListView(x) => lemma_same_field_reflexive(x),
        DataType::Mapping(x, _) => lemma_same_field_reflexive(x),
        DataType::RunEndEncoded(r, x) => {
            lemma_same_field_reflexive(r);
            lemma_same_field_reflexive(x);
        },
        DataType::Dictionary(k, v) => {
            same_type_is_reflexive(k);
            same_type_is_reflexive(v);
        },
        DataType::Struct(xs) => {
            assert forall|i: int| 0 <= i < xs@.len() implies same_field(
                *#[trigger] xs@[i],
                *xs@[i],
            ) by {
                assert(decreases_to!(xs => xs@));
                assert(decreases_to!(xs@ => xs@[i]));
                lemma_same_field_reflexive(&xs@[i]);
            }
        },
        DataType::Union(xs, _) => {
            assert forall|i: int| 0 <= i < xs@.len() implies (#[trigger] xs@[i]).0 == xs@[i].0
                && same_field(*xs@[i].1, *xs@[i].1) by {
                assert(decreases_to!(xs => xs@));
                assert(decreases_to!(xs@ => xs@[i]));
                assert(decreases_to!(xs@[i] => xs@[i].1));
                lemma_same_field_reflexive(&xs@[i].1);
            }
        },
        _ => {},
    }
}

proof fn lemma_same_field_reflexive(a: &Field)
    ensures
        same_field(*a, *a),
    decreases a,
{
    same_type_is_reflexive(&a.data_type);
}

/// A type that is the same as a second is so the other way round.
pub proof fn same_type_is_symmetric(a: &DataType, b: &DataType)
    requires
        same_type(*a, *b),
    ensures
        same_type(*b, *a),
    decreases a,
{
    match (a, b) {
        (DataType::List(x), DataType::List(y)) => lemma_same_field_symmetric(x, y),
        (DataType::ListView(x), DataType::ListView(y)) => lemma_same_field_symmetric(x, y),
        (DataType::FixedSizeList(x, _), DataType::FixedSizeList(y, _)) =>
            lemma_same_field_symmetric(x, y),
        (DataType::LargeList(x), DataType::LargeList(y)) => lemma_same_field_symmetric(x, y),
        (DataType::LargeListView(x), DataType::LargeListView(y)) => lemma_same_field_symmetric(
            x,
            y,
        ),
        (DataType::Mapping(x, _), DataType::Mapping(y, _)) => lemma_same_field_symmetric(x, y),
        (DataType::RunEndEncoded(r, x), DataType::RunEndEncoded(s, y)) => {
            lemma_same_field_symmetric(r, s);
            lemma_same_field_symmetric(x, y);
        },
        (DataType::Dictionary(k, v), DataType::Dictionary(l, w)) => {
            same_type_is_symmetric(k, l);
            same_type_is_symmetric(v, w);
        },
        (DataType::Struct(xs), DataType::Struct(ys)) => {
            assert forall|i: int| 0 <= i < ys@.len() implies same_field(
                *#[trigger] ys@[i],
                *xs@[i],
            ) by {
                assert(decreases_to!(xs => xs@));
                assert(decreases_to!(xs@ => xs@[i]));
                lemma_same_field_symmetric(&xs@[i], &ys@[i]);
            }
        },
        (DataType::Union(xs, _), DataType::Union(ys, _)) => {
            assert forall|i: int| 0 <= i < ys@.len() implies (#[trigger] ys@[i]).0 == xs@[i].0
                && same_field(*ys@[i].1, *xs@[i].1) by {
                assert(decreases_to!(xs => xs@));
                assert(decreases_to!(xs@ => xs@[i]));
                assert(decreases_to!(xs@[i] => xs@[i].1));
                lemma_same_field_symmetric(&xs@[i].1, &ys@[i].1);
            }
        },
        _ => {},
    }
}

proof fn lemma_same_field_symmetric(a: &Field, b: &Field)
    requires
        same_field(*a, *b),
    ensures
        same_field(*b, *a),
    decreases a,
{
    same_type_is_symmetric(&a.data_type, &b.data_type);
}

/// Types that are the same as a common type are the same.
pub proof fn same_type_is_transitive(a: &DataType, b: &DataType, c: &DataType)
    requires
        same_type(*a, *b),
        same_type(*b, *c),
    ensures
        same_type(*a, *c),
    decreases a,
{
    match (a, b, c) {
        (DataType::List(x), DataType::List(y), DataType::List(z)) => lemma_same_field_transitive(
            x,
            y,
            z,
        ),
        (DataType::ListView(x), DataType::ListView(y), DataType::ListView(z)) =>
            lemma_same_field_transitive(x, y, z),
        (
            DataType::FixedSizeList(x, _),
            DataType::FixedSizeList(y, _),
            DataType::FixedSizeList(z, _),
        ) => lemma_same_field_transitive(x, y, z),
        (DataType::LargeList(x), DataType::LargeList(y), DataType::LargeList(z)) =>
            lemma_same_field_transitive(x, y, z),
        (DataType::LargeListView(x), DataType::LargeListView(y), DataType::LargeListView(z)) =>
            lemma_same_field_transitive(x, y, z),
        (DataType::Mapping(x, _), DataType::Mapping(y, _), DataType::Mapping(z, _)) =>
            lemma_same_field_transitive(x, y, z),
        (
            DataType::RunEndEncoded(r, x),
            DataType::RunEndEncoded(s, y),
            DataType::RunEndEncoded(t, z),
        ) => {
            lemma_same_field_transitive(r, s, t);
            lemma_same_field_transitive(x, y, z);
        },
        (
            DataType::Dictionary(k, u),
            DataType::Dictionary(l, v),
            DataType::Dictionary(m, w),
        ) => {
            same_type_is_transitive(k, l, m);
            same_type_is_transitive(u, v, w);
        },
        (DataType::Struct(xs), DataType::Struct(ys), DataType::Struct(zs)) => {
            assert forall|i: int| 0 <= i < xs@.len() implies same_field(
                *#[trigger] xs@[i],
                *zs@[i],
            ) by {
                assert(decreases_to!(xs => xs@));
                assert(decreases_to!(xs@ => xs@[i]));
                assert(same_field(*ys@[i], *zs@[i]));
                lemma_same_field_transitive(&xs@[i], &ys@[i], &zs@[i]);
            }
        },
        (DataType::Union(xs, _), DataType::Union(ys, _), DataType::Union(zs, _)) => {
            assert forall|i: int| 0 <= i < xs@.len() implies (#[trigger] xs@[i]).0 == zs@[i].0
                && same_field(*xs@[i].1, *zs@[i].1) by {
                assert(decreases_to!(xs => xs@));
                assert(decreases_to!(xs@ => xs@[i]));
                assert(decreases_to!(xs@[i] => xs@[i].1));
                assert(ys@[i].0 == zs@[i].0);
                lemma_same_field_transitive(&xs@[i].1, &ys@[i].1, &zs@[i].1);
            }
        },
        _ => {},
    }
}

proof fn lemma_same_field_transitive(a: &Field, b: &Field, c: &Field)
    requires
        same_field(*a, *b),
        same_field(*b, *c),
    ensures
        same_field(*a, *c),
    decreases a,
{
    same_type_is_transitive(&a.data_type, &b.data_type, &c.data_type);
}

// ---------------------------------------------------------------------------------------------
// The rules
// ---------------------------------------------------------------------------------------------

/// Whether a conversion is refused, at once or on rows.
pub open spec fn is_refused(v: CastVerdict) -> bool {
    v is Refused || v is RefusedOnRows
}

/// A column of the requested type is never converted.
pub proof fn requested_types_are_read_as_they_are(
    t: &DataType,
    allow_type_promotion: bool,
    allow_timestamp_ltz_to_ntz: bool,
)
    ensures
        cast_verdict(*t, *t, allow_type_promotion, allow_timestamp_ltz_to_ntz) is Identity,
{
    same_type_is_reflexive(t);
}

/// The options only lift refusals: what is not refused without them comes out alike with them.
pub proof fn options_only_lift_refusals(
    physical: DataType,
    target: DataType,
    allow_type_promotion: bool,
    allow_timestamp_ltz_to_ntz: bool,
)
    ensures
        ({
            let strict = cast_verdict(physical, target, false, false);
            let lax = cast_verdict(
                physical,
                target,
                allow_type_promotion,
                allow_timestamp_ltz_to_ntz,
            );
            &&& !is_refused(strict) ==> lax == strict
            &&& is_refused(lax) ==> strict == lax
        }),
{
}

/// Text is never read as anything but text.
pub proof fn text_stays_text(
    physical: DataType,
    target: DataType,
    allow_type_promotion: bool,
    allow_timestamp_ltz_to_ntz: bool,
)
    requires
        holds_text(physical),
        !holds_text(target),
    ensures
        cast_verdict(
            physical,
            target,
            allow_type_promotion,
            allow_timestamp_ltz_to_ntz,
        ) is Refused,
{
}

/// Booleans and numbers are never read as text.
pub proof fn numbers_never_become_text(
    physical: DataType,
    target: DataType,
    allow_type_promotion: bool,
    allow_timestamp_ltz_to_ntz: bool,
)
    requires
        physical is Boolean || holds_int(physical) || holds_float(physical),
        holds_text(target),
    ensures
        cast_verdict(
            physical,
            target,
            allow_type_promotion,
            allow_timestamp_ltz_to_ntz,
        ) is RefusedOnRows,
{
}

/// A type that nests others is never read as one that does not, nor the other way round.
pub proof fn nesting_is_kept(
    physical: DataType,
    target: DataType,
    allow_type_promotion: bool,
    allow_timestamp_ltz_to_ntz: bool,
)
    requires
        is_complex(physical) != is_complex(target),
    ensures
        is_refused(
            cast_verdict(physical, target, allow_type_promotion, allow_timestamp_ltz_to_ntz),
        ),
{
}

/// Which of the two types decide what, rule by rule. The rules never overlap, so their order does
/// not matter.
pub proof fn each_conversion_has_one_rule(
    physical: DataType,
    target: DataType,
    allow_type_promotion: bool,
    allow_timestamp_ltz_to_ntz: bool,
)
    ensures
        ({
            let v = cast_verdict(
                physical,
                target,
                allow_type_promotion,
                allow_timestamp_ltz_to_ntz,
            );
            let from_text = physical is Utf8 || physical is LargeUtf8 || physical is Binary
                || physical is LargeBinary;
            let to_text = target is Utf8 || target is LargeUtf8 || target is Binary
                || target is LargeBinary;
            let from_nested = physical is Struct || physical is List || physical is Mapping;
            let to_nested = target is Struct || target is List || target is Mapping;
            let from_int32 = physical is Int8 || physical is Int16 || physical is Int32;
            let to_int32 = target is Int8 || target is Int16 || target is Int32;
            let lossy_decimal = {
                ||| physical matches DataType::Decimal128(p, s) && target
                    matches DataType::Decimal128(q, t) && (t < s || q - t < p - s)
                ||| from_int32 && (target matches DataType::Decimal128(q, t) && q - t < 10)
                ||| from_int32 && (target matches DataType::Decimal256(q, t) && q - t < 10)
                ||| physical is Int64 && (target matches DataType::Decimal128(q, t) && q - t < 20)
                ||| physical is Int64 && (target matches DataType::Decimal256(q, t) && q - t < 20)
            };
            let widening = {
                ||| physical is Int32 && target is Int64
                ||| physical is Int32 && target is Float64
                ||| physical is Float32 && target is Float64
            };
            let lossy_number = {
                ||| physical is Int64 && (to_int32 || target is Float32 || target is Float64)
                ||| from_int32 && target is Float32
                ||| physical is Float32 && (to_int32 || target is Int64)
                ||| physical is Float64 && (to_int32 || target is Int64 || target is Float32)
            };
            let lossy_time = {
                ||| physical is Int64 && (target is Date32 || target is Timestamp)
                ||| from_int32 && target is Timestamp
                ||| physical is Date32 && (target matches DataType::Timestamp(_, zone) && zone
                    is Some)
                ||| physical is Timestamp && target is Date32
            };
            let zone_dropped = physical matches DataType::Timestamp(_, from) && target
                matches DataType::Timestamp(_, to) && from is Some && to is None;
            let by_the_reader = {
                ||| physical is Struct && target is Struct
                ||| physical is List && target is List
                ||| physical is Mapping && target is Mapping
                ||| physical is Timestamp && target is Timestamp
                ||| physical is Timestamp && target is Int64
            };
            let same = same_type(physical, target);
            let number = physical is Boolean || from_int32 || physical is Int64 || physical
                is Float32 || physical is Float64;
            &&& v is Identity <==> same
            &&& v is Refused <==> !same && (from_text && !to_text || lossy_decimal || from_nested
                != to_nested)
            &&& v is RefusedOnRows <==> !same && (number && to_text || lossy_number || lossy_time
                || widening && !allow_type_promotion || zone_dropped
                && !allow_timestamp_ltz_to_ntz)
            &&& v is ParquetConvert <==> !same && by_the_reader && !(zone_dropped
                && !allow_timestamp_ltz_to_ntz)
        }),
{
}

/// The bits of the whole numbers that a type holds exactly: all values of an integer type, and all
/// whole numbers below a power of two for a floating-point type.
pub open spec fn exact_bits(dt: DataType) -> int {
    match dt {
        DataType::Int8 => 7,
        DataType::Int16 => 15,
        DataType::Int32 => 31,
        DataType::Int64 => 63,
        DataType::Float32 => 24,
        DataType::Float64 => 53,
        _ => 0,
    }
}

/// Whether a type holds numbers with a fraction.
pub open spec fn has_fractions(dt: DataType) -> bool {
    dt is Float32 || dt is Float64
}

/// A number is never read as a type that cannot hold it: a conversion between integers and
/// floating-point numbers that is not refused keeps fractions and all bits. The one exception are
/// integers that Parquet stores in 32 bits, which are read as any of these types.
pub proof fn accepted_numbers_are_held(
    physical: DataType,
    target: DataType,
    allow_type_promotion: bool,
    allow_timestamp_ltz_to_ntz: bool,
)
    requires
        exact_bits(physical) > 0,
        exact_bits(target) > 0,
        !is_refused(
            cast_verdict(physical, target, allow_type_promotion, allow_timestamp_ltz_to_ntz),
        ),
    ensures
        has_fractions(physical) ==> has_fractions(target),
        exact_bits(physical) <= exact_bits(target) || (exact_bits(physical) < 32 && exact_bits(
            target,
        ) < 32 && !has_fractions(physical) && !has_fractions(target)),
{
}

/// Numbers are not read as dates or timestamps. A date is read as a timestamp only without a time
/// zone, and a timestamp never as a date.
pub proof fn numbers_and_times_stay_apart(
    physical: DataType,
    target: DataType,
    allow_type_promotion: bool,
    allow_timestamp_ltz_to_ntz: bool,
)
    ensures
        ({
            let v = cast_verdict(
                physical,
                target,
                allow_type_promotion,
                allow_timestamp_ltz_to_ntz,
            );
            &&& exact_bits(physical) > 0 && !has_fractions(physical) && target is Timestamp ==> v
                is RefusedOnRows
            &&& physical is Int64 && target is Date32 ==> v is RefusedOnRows
            &&& physical is Timestamp && target is Date32 ==> v is RefusedOnRows
            &&& physical is Date32 && (target matches DataType::Timestamp(_, zone) && zone is Some)
                ==> v is RefusedOnRows
            &&& physical is Date32 && (target matches DataType::Timestamp(_, zone) && zone is None)
                ==> v is SparkCast
        }),
{
}

// ---------------------------------------------------------------------------------------------
// No digit is lost
// ---------------------------------------------------------------------------------------------

/// Whether `w` units of `10^-t` are as much as `v` units of `10^-s`.
pub open spec fn same_value(v: int, s: int, w: int, t: int) -> bool {
    if t >= s {
        w == v * pow(10, (t - s) as nat)
    } else {
        v == w * pow(10, (s - t) as nat)
    }
}

/// Whether `v` has at most `p` digits.
pub open spec fn has_digits(v: int, p: int) -> bool {
    -pow(10, p as nat) < v < pow(10, p as nat)
}

/// Whether a decimal of precision `q` and scale `t` holds exactly what `v` units of `10^-s` are.
pub open spec fn can_hold(q: int, t: int, v: int, s: int) -> bool {
    exists|w: int| #[trigger] has_digits(w, q) && same_value(v, s, w, t)
}

proof fn lemma_scaled_digits(v: int, p: int, d: int, q: int)
    requires
        0 <= p,
        0 <= d,
        p + d <= q,
        has_digits(v, p),
    ensures
        has_digits(v * pow(10, d as nat), q),
{
    let a = pow(10, p as nat);
    let b = pow(10, d as nat);
    lemma_pow_positive(10, d as nat);
    lemma_pow_adds(10, p as nat, d as nat);
    lemma_pow_increases(10, (p + d) as nat, q as nat);
    assert(-(a * b) < v * b && v * b < a * b) by (nonlinear_arith)
        requires
            -a < v < a,
            b > 0,
    ;
}

proof fn lemma_largest_does_not_fit(p: int, d: int, q: int)
    requires
        1 <= p,
        0 <= d,
        0 <= q < p + d,
    ensures
        (pow(10, p as nat) - 1) * pow(10, d as nat) >= pow(10, q as nat),
{
    let a = pow(10, p as nat);
    let b = pow(10, d as nat);
    let c = pow(10, (p + d - 1) as nat);
    lemma_pow_adds(10, p as nat, d as nat);
    lemma_pow_adds(10, (p + d - 1) as nat, 1);
    vstd::arithmetic::power::lemma_pow1(10);
    lemma_pow_increases(10, q as nat, (p + d - 1) as nat);
    lemma_pow_increases(10, d as nat, (p + d - 1) as nat);
    lemma_pow_positive(10, (p + d - 1) as nat);
    assert((a - 1) * b == a * b - b) by (nonlinear_arith);
}

/// A decimal is read as a wider decimal if and only if every value that it can hold is held
/// exactly.
pub proof fn decimals_are_read_iff_no_digit_is_lost(
    p: u8,
    s: i8,
    q: u8,
    t: i8,
    allow_type_promotion: bool,
    allow_timestamp_ltz_to_ntz: bool,
)
    requires
        p >= 1,
    ensures
        is_refused(
            cast_verdict(
                DataType::Decimal128(p, s),
                DataType::Decimal128(q, t),
                allow_type_promotion,
                allow_timestamp_ltz_to_ntz,
            ),
        ) <==> !(forall|v: int|
            #[trigger] has_digits(v, p as int) ==> can_hold(q as int, t as int, v, s as int)),
{
    let d = t - s;
    if s <= t && p + d <= q {
        assert forall|v: int| #[trigger] has_digits(v, p as int) implies can_hold(
            q as int,
            t as int,
            v,
            s as int,
        ) by {
            lemma_scaled_digits(v, p as int, d, q as int);
            assert(has_digits(v * pow(10, d as nat), q as int));
        }
    } else if s <= t {
        let v = pow(10, p as nat) - 1;
        lemma_pow_positive(10, p as nat);
        lemma_largest_does_not_fit(p as int, d, q as int);
        assert(has_digits(v, p as int));
        assert(!can_hold(q as int, t as int, v, s as int));
    } else {
        let e = (s - t) as nat;
        lemma_pow_increases(10, 1, p as nat);
        vstd::arithmetic::power::lemma_pow1(10);
        lemma_pow_increases(10, 1, e);
        assert(has_digits(1, p as int));
        assert forall|w: int| has_digits(w, q as int) implies !same_value(
            1,
            s as int,
            w,
            t as int,
        ) by {
            let b = pow(10, e);
            assert(1 != w * b) by (nonlinear_arith)
                requires
                    b >= 10,
            ;
        }
        assert(!can_hold(q as int, t as int, 1, s as int));
    }
}

/// The values of the signed integer types.
pub open spec fn is_int_value(dt: DataType, v: int) -> bool {
    match dt {
        DataType::Int8 => i8::MIN <= v <= i8::MAX,
        DataType::Int16 => i16::MIN <= v <= i16::MAX,
        DataType::Int32 => i32::MIN <= v <= i32::MAX,
        DataType::Int64 => i64::MIN <= v <= i64::MAX,
        _ => false,
    }
}

/// An integer that is read as a decimal with digits after the point, or with none, is held
/// exactly.
pub proof fn integers_read_as_decimals_are_held(
    physical: DataType,
    target: DataType,
    allow_type_promotion: bool,
    allow_timestamp_ltz_to_ntz: bool,
    v: int,
)
    requires
        is_int_value(physical, v),
        wide_decimal(target) matches Some((p, s)) && s >= 0,
        !is_refused(
            cast_verdict(physical, target, allow_type_promotion, allow_timestamp_ltz_to_ntz),
        ),
    ensures
        wide_decimal(target) matches Some((p, s)) && can_hold(p as int, s as int, v, 0),
{
    let (p, s) = wide_decimal(target)->0;
    let n = digits_needed(physical)->0;
    assert(pow(10, 10) == 10_000_000_000) by {
        reveal_with_fuel(pow, 11);
    }
    assert(pow(10, 20) == 100_000_000_000_000_000_000) by {
        lemma_pow_adds(10, 10, 10);
    }
    assert(has_digits(v, n));
    lemma_scaled_digits(v, n, s as int, p as int);
    assert(has_digits(v * pow(10, s as nat), p as int));
}

} // verus!
