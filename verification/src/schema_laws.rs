//! What holds of schemas: when two types are the same, and which field a name or an identifier
//! leads to.

use crate::schema::{
    field_id, fields_equal, index_of, is_named, parse_field_id, same_field, same_type,
    schema_has_field_ids, types_equal, DataType, Field, FieldRef, FieldView, Schema,
};
use crate::search::first_index_is_least;
use crate::string_map::{pair_texts, StringMap};
use crate::text_laws::{spells, texts_read_as_the_numbers_they_spell};
use vstd::prelude::*;

verus! {

// ---------------------------------------------------------------------------------------------
// Types
// ---------------------------------------------------------------------------------------------

/// Whether two fields agree in name, nullability and metadata, and their types are the same.
pub open spec fn agree(a: Field, b: Field) -> bool {
    &&& a.name@ == b.name@
    &&& a.nullable == b.nullable
    &&& a.metadata@ == b.metadata@
    &&& same_type(*a.data_type, *b.data_type)
}

/// Two types are the same only if they are of one kind and agree in every part: units and time
/// zones, sizes, precisions and scales, and in nested types every field with its name,
/// nullability and metadata.
pub proof fn same_types_agree_in_every_part(a: DataType, b: DataType)
    ensures
        same_type(a, b) == match a {
            DataType::Null => b is Null,
            DataType::Boolean => b is Boolean,
            DataType::Int8 => b is Int8,
            DataType::Int16 => b is Int16,
            DataType::Int32 => b is Int32,
            DataType::Int64 => b is Int64,
            DataType::UInt8 => b is UInt8,
            DataType::UInt16 => b is UInt16,
            DataType::UInt32 => b is UInt32,
            DataType::UInt64 => b is UInt64,
            DataType::Float16 => b is Float16,
            DataType::Float32 => b is Float32,
            DataType::Float64 => b is Float64,
            DataType::Date32 => b is Date32,
            DataType::Date64 => b is Date64,
            DataType::Binary => b is Binary,
            DataType::LargeBinary => b is LargeBinary,
            DataType::BinaryView => b is BinaryView,
            DataType::Utf8 => b is Utf8,
            DataType::LargeUtf8 => b is LargeUtf8,
            DataType::Utf8View => b is Utf8View,
            DataType::Time32(x) => b matches DataType::Time32(y) && x == y,
            DataType::Time64(x) => b matches DataType::Time64(y) && x == y,
            DataType::Duration(x) => b matches DataType::Duration(y) && x == y,
            DataType::Interval(x) => b matches DataType::Interval(y) && x == y,
            DataType::FixedSizeBinary(x) => b matches DataType::FixedSizeBinary(y) && x == y,
            DataType::Decimal32(p, s) => b matches DataType::Decimal32(q, t) && p == q && s == t,
            DataType::Decimal64(p, s) => b matches DataType::Decimal64(q, t) && p == q && s == t,
            DataType::Decimal128(p, s) => b matches DataType::Decimal128(q, t) && p == q && s == t,
            DataType::Decimal256(p, s) => b matches DataType::Decimal256(q, t) && p == q && s == t,
            DataType::List(x) => b matches DataType::List(y) && agree(*x, *y),
            DataType::ListView(x) => b matches DataType::ListView(y) && agree(*x, *y),
            DataType::LargeList(x) => b matches DataType::LargeList(y) && agree(*x, *y),
            DataType::LargeListView(x) => b matches DataType::LargeListView(y) && agree(*x, *y),
            DataType::Timestamp(u, from) => b matches DataType::Timestamp(v, to) && u == v && (from
                is Some) == (to is Some) && (from matches Some(f) ==> f@ == (to->0)@),
            DataType::FixedSizeList(x, n) => b matches DataType::FixedSizeList(y, m) && n == m
                && agree(*x, *y),
            DataType::Struct(xs) => b matches DataType::Struct(ys) && xs@.len() == ys@.len() && (
            forall|i: int| 0 <= i < xs@.len() ==> agree(*#[trigger] xs@[i], *ys@[i])),
            DataType::Union(xs, m) => b matches DataType::Union(ys, n) && m == n && xs@.len()
                == ys@.len() && (forall|i: int|
                0 <= i < xs@.len() ==> (#[trigger] xs@[i]).0 == ys@[i].0 && agree(
                    *xs@[i].1,
                    *ys@[i].1,
                )),
            DataType::Dictionary(k, v) => b matches DataType::Dictionary(l, w) && same_type(*k, *l)
                && same_type(*v, *w),
            DataType::Mapping(x, m) => b matches DataType::Mapping(y, n) && m == n && agree(*x, *y),
            DataType::RunEndEncoded(r, x) => b matches DataType::RunEndEncoded(s, y) && agree(
                *r,
                *s,
            ) && agree(*x, *y),
        },
{
    match (a, b) {
        (DataType::Struct(xs), DataType::Struct(ys)) => {
            let same = forall|i: int|
                0 <= i < xs@.len() ==> same_field(*#[trigger] xs@[i], *ys@[i]);
            let agreeing = forall|i: int|
                0 <= i < xs@.len() ==> agree(*#[trigger] xs@[i], *ys@[i]);
            assert(same == agreeing);
            assert(same_type(a, b) == (xs@.len() == ys@.len() && same));
        },
        (DataType::Union(xs, m), DataType::Union(ys, n)) => {
            let same = forall|i: int|
                0 <= i < xs@.len() ==> (#[trigger] xs@[i]).0 == ys@[i].0 && same_field(
                    *xs@[i].1,
                    *ys@[i].1,
                );
            let agreeing = forall|i: int|
                0 <= i < xs@.len() ==> (#[trigger] xs@[i]).0 == ys@[i].0 && agree(
                    *xs@[i].1,
                    *ys@[i].1,
                );
            assert(same == agreeing);
            assert(same_type(a, b) == (m == n && xs@.len() == ys@.len() && same));
        },
        (DataType::List(x), DataType::List(y)) => {
            assert(same_field(*x, *y) == agree(*x, *y));
        },
        (DataType::ListView(x), DataType::ListView(y)) => {
            assert(same_field(*x, *y) == agree(*x, *y));
        },
        (DataType::LargeList(x), DataType::LargeList(y)) => {
            assert(same_field(*x, *y) == agree(*x, *y));
        },
        (DataType::LargeListView(x), DataType::LargeListView(y)) => {
            assert(same_field(*x, *y) == agree(*x, *y));
        },
        (DataType::FixedSizeList(x, _), DataType::FixedSizeList(y, _)) => {
            assert(same_field(*x, *y) == agree(*x, *y));
        },
        (DataType::Mapping(x, _), DataType::Mapping(y, _)) => {
            assert(same_field(*x, *y) == agree(*x, *y));
        },
        (DataType::RunEndEncoded(r, x), DataType::RunEndEncoded(s, y)) => {
            assert(same_field(*r, *s) == agree(*r, *s));
            assert(same_field(*x, *y) == agree(*x, *y));
        },
        _ => {},
    }
}

/// Two fields are the same if and only if they agree in name, nullability, metadata and type.
pub proof fn same_fields_agree_in_every_part(a: Field, b: Field)
    ensures
        same_field(a, b) == (a.name@ == b.name@ && a.nullable == b.nullable && a.metadata@
            == b.metadata@ && same_type(*a.data_type, *b.data_type)),
{
}

// ---------------------------------------------------------------------------------------------
// Fields
// ---------------------------------------------------------------------------------------------

/// A field is seen whole: its name, type, nullability and metadata.
pub proof fn fields_are_seen_whole(f: Field)
    ensures
        f@.name == f.name@,
        f@.data_type == *f.data_type,
        f@.nullable == f.nullable,
        f@.metadata == f.metadata@,
{
}

/// A new field has the name, type and nullability that it is given, and no metadata.
pub proof fn new_fields_have_no_metadata(
    name: &str,
    data_type: DataType,
    nullable: bool,
    f: Field,
)
    requires
        call_ensures(Field::new, (name, data_type, nullable), f),
    ensures
        f.name@ == name@,
        *f.data_type == data_type,
        f.nullable == nullable,
        forall|key: Seq<char>| !#[trigger] f.metadata@.contains_key(key),
{
    assert(f@.metadata == f.metadata@);
}

/// Under other metadata, a field keeps all but its metadata.
pub proof fn metadata_are_replaced_alone(f: Field, metadata: StringMap, g: Field)
    requires
        call_ensures(Field::with_metadata, (f, metadata), g),
    ensures
        g.name@ == f.name@,
        *g.data_type == *f.data_type,
        g.nullable == f.nullable,
        g.metadata@ == metadata@,
{
    assert(g@ == (FieldView { metadata: metadata@, ..f@ }));
    assert(g@.name == g.name@ && g@.metadata == g.metadata@);
}

/// Under another name, a field keeps all but its name, and with it its identifier.
pub proof fn names_are_replaced_alone(f: &Field, name: String, g: Field)
    requires
        call_ensures(Field::renamed, (f, name), g),
    ensures
        g.name@ == name@,
        *g.data_type == *f.data_type,
        g.nullable == f.nullable,
        g.metadata@ == f.metadata@,
        field_id(g) == field_id(*f),
{
    assert(g@ == f@.renamed(name@));
    assert(g@.name == g.name@ && g@.metadata == g.metadata@);
}

/// A new schema holds the fields that it is given, in order.
pub proof fn new_schemas_hold_their_fields(fields: Vec<Field>, s: Schema)
    requires
        call_ensures(Schema::new, (fields,), s),
    ensures
        s.fields@.len() == fields@.len(),
        forall|i: int| 0 <= i < fields@.len() ==> (#[trigger] s.fields@[i])@ == fields@[i]@,
{
}

/// The entries of a map are listed with every key once: a pair is listed if and only if the map
/// leads from the one to the other.
pub proof fn every_entry_is_listed_once(
    map: &StringMap,
    list: &Vec<(String, String)>,
    key: Seq<char>,
    value: Seq<char>,
)
    requires
        call_ensures(StringMap::entries, (map,), list),
    ensures
        forall|i: int, j: int|
            #![trigger list@[i], list@[j]]
            0 <= i < j < list@.len() ==> list@[i].0@ != list@[j].0@,
        (map@.contains_key(key) && map@[key] == value) <==> exists|i: int|
            0 <= i < list@.len() && (#[trigger] list@[i]).0@ == key && list@[i].1@ == value,
{
    let pairs = pair_texts(list@);
    assert forall|i: int| 0 <= i < list@.len() implies pairs[i] == (
        (#[trigger] list@[i]).0@,
        list@[i].1@,
    ) by {}
    assert forall|i: int, j: int|
        #![trigger list@[i], list@[j]]
        0 <= i < j < list@.len() implies list@[i].0@ != list@[j].0@ by {
        assert(pairs[i].0 != pairs[j].0);
    }
    if map@.contains_key(key) && map@[key] == value {
        let i = choose|i: int| 0 <= i < pairs.len() && (#[trigger] pairs[i]).0 == key;
        assert(list@[i].0@ == key && list@[i].1@ == value);
    }
    if exists|i: int|
        0 <= i < list@.len() && (#[trigger] list@[i]).0@ == key && list@[i].1@ == value {
        let i = choose|i: int|
            0 <= i < list@.len() && (#[trigger] list@[i]).0@ == key && list@[i].1@ == value;
        assert(pairs[i].0 == key && pairs[i].1 == value);
    }
}

/// A map leads from a key to the value that is looked up under it, and from no other key.
pub proof fn values_are_looked_up_by_key(map: &StringMap, key: &str, r: Option<&String>)
    requires
        call_ensures(StringMap::get, (map, key), r),
    ensures
        r is Some <==> map@.contains_key(key@),
        r matches Some(v) ==> v@ == map@[key@],
{
}

// ---------------------------------------------------------------------------------------------
// Names and identifiers
// ---------------------------------------------------------------------------------------------

/// A name leads to the first field that has exactly this name, and nowhere if none has it.
pub proof fn names_lead_to_the_first_field(
    schema: &Schema,
    name: &String,
    r: Option<usize>,
    k: int,
)
    requires
        call_ensures(index_of, (schema, name), r),
    ensures
        (r matches Some(i) && i == k) <==> {
            &&& 0 <= k < schema.fields@.len()
            &&& schema.fields@[k].name@ == name@
            &&& forall|j: int| 0 <= j < k ==> (#[trigger] schema.fields@[j]).name@ != name@
        },
        r is None <==> forall|j: int|
            0 <= j < schema.fields@.len() ==> (#[trigger] schema.fields@[j]).name@ != name@,
{
    let n = name@;
    let fields = schema.fields@;
    let p = |f: FieldRef| is_named(f, n);
    first_index_is_least(fields, p);
    assert forall|j: int| 0 <= j < fields.len() implies p(fields[j]) == (
    (#[trigger] fields[j]).name@ == n) by {}
    match r {
        Some(i) => {
            assert(p(fields[i as int]));
            if 0 <= k < i {
                assert(!p(fields[k]));
            }
        },
        None => {
            if 0 <= k < fields.len() {
                assert(!p(fields[k]));
            }
        },
    }
}

/// The metadata key under which Parquet keeps identifiers.
pub open spec fn identifier_key() -> Seq<char> {
    "PARQUET:field_id"@
}

/// A field carries an identifier if and only if its metadata have, under Parquet's key, a text that
/// spells a 32-bit number: an optional sign, any number of zeros, and the identifier itself.
pub proof fn identifiers_are_read_from_the_metadata(field: &Field, r: Option<i32>, id: i32)
    requires
        call_ensures(parse_field_id, (field,), r),
    ensures
        r == Some(id) <==> field.metadata@.contains_key(identifier_key()) && exists|
            sign: Seq<char>,
            z: nat,
        | #[trigger]
            spells(field.metadata@[identifier_key()], sign, z, id as int),
        r == field_id(*field),
{
    texts_read_as_the_numbers_they_spell(field.metadata@[identifier_key()], id);
}

/// A schema has identifiers if and only if one of its fields carries one.
pub proof fn one_identifier_is_enough(schema: &Schema, r: bool)
    requires
        call_ensures(schema_has_field_ids, (schema,), r),
    ensures
        r <==> exists|i: int|
            0 <= i < schema.fields@.len() && field_id(*#[trigger] schema.fields@[i]) is Some,
{
}

/// Comparing types and fields gives what holds of them.
pub proof fn comparisons_give_what_holds(a: &DataType, b: &DataType, f: &Field, g: &Field, r: bool)
    ensures
        call_ensures(types_equal, (a, b), r) ==> r == same_type(*a, *b),
        call_ensures(fields_equal, (f, g), r) ==> r == same_field(*f, *g),
{
}

} // verus!
