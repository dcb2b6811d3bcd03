//! Schemas: the types, fields and field identifiers that decide how a Parquet column is read.

use crate::search::{first_index, lemma_found, lemma_not_found};
use crate::string_map::StringMap;
use crate::text::{int_value, parse_i32};
use std::sync::Arc;
use vstd::prelude::*;

verus! {

/// Unit of a time, timestamp or duration.
#[derive(PartialEq, Eq, Structural, Clone, Copy, Debug)]
pub enum TimeUnit {
    Second,
    Millisecond,
    Microsecond,
    Nanosecond,
}

/// Unit of an interval.
#[derive(PartialEq, Eq, Structural, Clone, Copy, Debug)]
pub enum IntervalUnit {
    YearMonth,
    DayTime,
    MonthDayNano,
}

/// Layout of a union.
#[derive(PartialEq, Eq, Structural, Clone, Copy, Debug)]
pub enum UnionMode {
    Sparse,
    Dense,
}

/// The type of a column.
#[derive(Debug)]
pub enum DataType {
    Null,
    Boolean,
    Int8,
    Int16,
    Int32,
    Int64,
    UInt8,
    UInt16,
    UInt32,
    UInt64,
    Float16,
    Float32,
    Float64,
    /// Unit, and the time zone of a timestamp that has one.
    Timestamp(TimeUnit, Option<String>),
    Date32,
    Date64,
    Time32(TimeUnit),
    Time64(TimeUnit),
    Duration(TimeUnit),
    Interval(IntervalUnit),
    Binary,
    FixedSizeBinary(i32),
    LargeBinary,
    BinaryView,
    Utf8,
    LargeUtf8,
    Utf8View,
    List(FieldRef),
    ListView(FieldRef),
    FixedSizeList(FieldRef, i32),
    LargeList(FieldRef),
    LargeListView(FieldRef),
    Struct(Vec<FieldRef>),
    Union(Vec<(i8, FieldRef)>, UnionMode),
    Dictionary(Box<DataType>, Box<DataType>),
    /// Precision and scale.
    Decimal32(u8, i8),
    /// Precision and scale.
    Decimal64(u8, i8),
    /// Precision and scale.
    Decimal128(u8, i8),
    /// Precision and scale.
    Decimal256(u8, i8),
    /// The entries, and whether the keys are sorted.
    Mapping(FieldRef, bool),
    RunEndEncoded(FieldRef, FieldRef),
}

/// A column of a schema, or a part of a nested type.
#[derive(Debug)]
pub struct Field {
    pub name: String,
    pub data_type: Arc<DataType>,
    pub nullable: bool,
    pub metadata: Arc<StringMap>,
}

/// A shared field.
pub type FieldRef = Arc<Field>;

/// The columns of a file or of a query, in order.
#[derive(Debug)]
pub struct Schema {
    pub fields: Vec<FieldRef>,
}

/// A shared schema.
pub type SchemaRef = Arc<Schema>;

// ---------------------------------------------------------------------------------------------
// Equality of types
// ---------------------------------------------------------------------------------------------

/// Whether two time zones are the same.
pub open spec fn same_zone(a: Option<String>, b: Option<String>) -> bool {
    match (a, b) {
        (Some(x), Some(y)) => x@ == y@,
        (None, None) => true,
        _ => false,
    }
}

/// Whether two types are the same, down to the names, nullability and metadata of the fields
/// nested in them.
pub open spec fn same_type(a: DataType, b: DataType) -> bool
    decreases a,
{
    match (a, b) {
        (DataType::Null, DataType::Null) => true,
        (DataType::Boolean, DataType::Boolean) => true,
        (DataType::Int8, DataType::Int8) => true,
        (DataType::Int16, DataType::Int16) => true,
        (DataType::Int32, DataType::Int32) => true,
        (DataType::Int64, DataType::Int64) => true,
        (DataType::UInt8, DataType::UInt8) => true,
        (DataType::UInt16, DataType::UInt16) => true,
        (DataType::UInt32, DataType::UInt32) => true,
        (DataType::UInt64, DataType::UInt64) => true,
        (DataType::Float16, DataType::Float16) => true,
        (DataType::Float32, DataType::Float32) => true,
        (DataType::Float64, DataType::Float64) => true,
        (DataType::Timestamp(u, z), DataType::Timestamp(v, w)) => u == v && same_zone(z, w),
        (DataType::Date32, DataType::Date32) => true,
        (DataType::Date64, DataType::Date64) => true,
        (DataType::Time32(u), DataType::Time32(v)) => u == v,
        (DataType::Time64(u), DataType::Time64(v)) => u == v,
        (DataType::Duration(u), DataType::Duration(v)) => u == v,
        (DataType::Interval(u), DataType::Interval(v)) => u == v,
        (DataType::Binary, DataType::Binary) => true,
        (DataType::FixedSizeBinary(m), DataType::FixedSizeBinary(n)) => m == n,
        (DataType::LargeBinary, DataType::LargeBinary) => true,
        (DataType::BinaryView, DataType::BinaryView) => true,
        (DataType::Utf8, DataType::Utf8) => true,
        (DataType::LargeUtf8, DataType::LargeUtf8) => true,
        (DataType::Utf8View, DataType::Utf8View) => true,
        (DataType::List(x), DataType::List(y)) => same_field(*x, *y),
        (DataType::ListView(x), DataType::ListView(y)) => same_field(*x, *y),
        (DataType::FixedSizeList(x, m), DataType::FixedSizeList(y, n)) => same_field(*x, *y) && m
            == n,
        (DataType::LargeList(x), DataType::LargeList(y)) => same_field(*x, *y),
        (DataType::LargeListView(x), DataType::LargeListView(y)) => same_field(*x, *y),
        (DataType::Struct(xs), DataType::Struct(ys)) => {
            &&& xs@.len() == ys@.len()
            &&& forall|i: int| 0 <= i < xs@.len() ==> same_field(*#[trigger] xs@[i], *ys@[i])
        },
        (DataType::Union(xs, m), DataType::Union(ys, n)) => {
            &&& m == n
            &&& xs@.len() == ys@.len()
            &&& forall|i: int|
                0 <= i < xs@.len() ==> (#[trigger] xs@[i]).0 == ys@[i].0 && same_field(
                    *xs@[i].1,
                    *ys@[i].1,
                )
        },
        (DataType::Dictionary(k, v), DataType::Dictionary(l, w)) => same_type(*k, *l) && same_type(
            *v,
            *w,
        ),
        (DataType::Decimal32(p, s), DataType::Decimal32(q, t)) => p == q && s == t,
        (DataType::Decimal64(p, s), DataType::Decimal64(q, t)) => p == q && s == t,
        (DataType::Decimal128(p, s), DataType::Decimal128(q, t)) => p == q && s == t,
        (DataType::Decimal256(p, s), DataType::Decimal256(q, t)) => p == q && s == t,
        (DataType::Mapping(x, m), DataType::Mapping(y, n)) => same_field(*x, *y) && m == n,
        (DataType::RunEndEncoded(r, x), DataType::RunEndEncoded(s, y)) => same_field(*r, *s)
            && same_field(*x, *y),
        _ => false,
    }
}

/// Whether two fields are the same: name, type, nullability and metadata.
pub open spec fn same_field(a: Field, b: Field) -> bool
    decreases a,
{
    &&& a.name@ == b.name@
    &&& same_type(*a.data_type, *b.data_type)
    &&& a.nullable == b.nullable
    &&& a.metadata@ == b.metadata@
}

fn zones_equal(a: &Option<String>, b: &Option<String>) -> (r: bool)
    ensures
        r == same_zone(*a, *b),
{
    match (a, b) {
        (Some(x), Some(y)) => *x == *y,
        (None, None) => true,
        _ => false,
    }
}

/// Whether two types are the same.
pub fn types_equal(a: &DataType, b: &DataType) -> (r: bool)
    ensures
        r == same_type(*a, *b),
    decreases a,
{
    match (a, b) {
        (DataType::Null, DataType::Null) => true,
        (DataType::Boolean, DataType::Boolean) => true,
        (DataType::Int8, DataType::Int8) => true,
        (DataType::Int16, DataType::Int16) => true,
        (DataType::Int32, DataType::Int32) => true,
        (DataType::Int64, DataType::Int64) => true,
        (DataType::UInt8, DataType::UInt8) => true,
        (DataType::UInt16, DataType::UInt16) => true,
        (DataType::UInt32, DataType::UInt32) => true,
        (DataType::UInt64, DataType::UInt64) => true,
        (DataType::Float16, DataType::Float16) => true,
        (DataType::Float32, DataType::Float32) => true,
        (DataType::Float64, DataType::Float64) => true,
        (DataType::Timestamp(u, z), DataType::Timestamp(v, w)) => *u == *v && zones_equal(z, w),
        (DataType::Date32, DataType::Date32) => true,
        (DataType::Date64, DataType::Date64) => true,
        (DataType::Time32(u), DataType::Time32(v)) => *u == *v,
        (DataType::Time64(u), DataType::Time64(v)) => *u == *v,
        (DataType::Duration(u), DataType::Duration(v)) => *u == *v,
        (DataType::Interval(u), DataType::Interval(v)) => *u == *v,
        (DataType::Binary, DataType::Binary) => true,
        (DataType::FixedSizeBinary(m), DataType::FixedSizeBinary(n)) => *m == *n,
        (DataType::LargeBinary, DataType::LargeBinary) => true,
        (DataType::BinaryView, DataType::BinaryView) => true,
        (DataType::Utf8, DataType::Utf8) => true,
        (DataType::LargeUtf8, DataType::LargeUtf8) => true,
        (DataType::Utf8View, DataType::Utf8View) => true,
        (DataType::List(x), DataType::List(y)) => fields_equal(x, y),
        (DataType::ListView(x), DataType::ListView(y)) => fields_equal(x, y),
        (DataType::FixedSizeList(x, m), DataType::FixedSizeList(y, n)) => fields_equal(x, y) && *m
            == *n,
        (DataType::LargeList(x), DataType::LargeList(y)) => fields_equal(x, y),
        (DataType::LargeListView(x), DataType::LargeListView(y)) => fields_equal(x, y),
        (DataType::Struct(xs), DataType::Struct(ys)) => members_equal(xs, ys),
        (DataType::Union(xs, m), DataType::Union(ys, n)) => *m == *n && branches_equal(xs, ys),
        (DataType::Dictionary(k, v), DataType::Dictionary(l, w)) => types_equal(k, l)
            && types_equal(v, w),
        (DataType::Decimal32(p, s), DataType::Decimal32(q, t)) => *p == *q && *s == *t,
        (DataType::Decimal64(p, s), DataType::Decimal64(q, t)) => *p == *q && *s == *t,
        (DataType::Decimal128(p, s), DataType::Decimal128(q, t)) => *p == *q && *s == *t,
        (DataType::Decimal256(p, s), DataType::Decimal256(q, t)) => *p == *q && *s == *t,
        (DataType::Mapping(x, m), DataType::Mapping(y, n)) => fields_equal(x, y) && *m == *n,
        (DataType::RunEndEncoded(p, x), DataType::RunEndEncoded(q, y)) => fields_equal(p, q)
            && fields_equal(x, y),
        _ => false,
    }
}

/// Whether two lists hold the same fields.
fn members_equal(xs: &Vec<FieldRef>, ys: &Vec<FieldRef>) -> (r: bool)
    ensures
        r == (xs@.len() == ys@.len() && forall|i: int|
            0 <= i < xs@.len() ==> same_field(*#[trigger] xs@[i], *ys@[i])),
    decreases xs,
{
    if xs.len() != ys.len() {
        return false;
    }
    for i in 0..xs.len()
        invariant
            xs@.len() == ys@.len(),
            forall|k: int| 0 <= k < i ==> same_field(*#[trigger] xs@[k], *ys@[k]),
    {
        proof {
            assert(decreases_to!(*xs => xs@));
            assert(decreases_to!(xs@ => xs@[i as int]));
        }
        if !fields_equal(&xs[i], &ys[i]) {
            return false;
        }
    }
    true
}

/// Whether two lists hold the same type identifiers and fields.
fn branches_equal(xs: &Vec<(i8, FieldRef)>, ys: &Vec<(i8, FieldRef)>) -> (r: bool)
    ensures
        r == (xs@.len() == ys@.len() && forall|i: int|
            0 <= i < xs@.len() ==> (#[trigger] xs@[i]).0 == ys@[i].0 && same_field(
                *xs@[i].1,
                *ys@[i].1,
            )),
    decreases xs,
{
    if xs.len() != ys.len() {
        return false;
    }
    for i in 0..xs.len()
        invariant
            xs@.len() == ys@.len(),
            forall|k: int|
                0 <= k < i ==> (#[trigger] xs@[k]).0 == ys@[k].0 && same_field(
                    *xs@[k].1,
                    *ys@[k].1,
                ),
    {
        proof {
            assert(decreases_to!(*xs => xs@));
            assert(decreases_to!(xs@ => xs@[i as int]));
            assert(decreases_to!(xs@[i as int] => xs@[i as int].1));
        }
        if xs[i].0 != ys[i].0 || !fields_equal(&xs[i].1, &ys[i].1) {
            return false;
        }
    }
    true
}

/// Whether two fields are the same.
pub fn fields_equal(a: &Field, b: &Field) -> (r: bool)
    ensures
        r == same_field(*a, *b),
    decreases a,
{
    a.name == b.name && types_equal(&a.data_type, &b.data_type) && a.nullable == b.nullable
        && a.metadata.same_entries(&b.metadata)
}

// ---------------------------------------------------------------------------------------------
// Fields and schemas
// ---------------------------------------------------------------------------------------------

/// A field, with its texts as sequences of characters.
pub struct FieldView {
    pub name: Seq<char>,
    pub data_type: DataType,
    pub nullable: bool,
    pub metadata: Map<Seq<char>, Seq<char>>,
}

impl View for Field {
    type V = FieldView;

    open spec fn view(&self) -> FieldView {
        FieldView {
            name: self.name@,
            data_type: *self.data_type,
            nullable: self.nullable,
            metadata: self.metadata@,
        }
    }
}

impl FieldView {
    /// This field under another name.
    pub open spec fn renamed(self, name: Seq<char>) -> FieldView {
        FieldView {
            name,
            data_type: self.data_type,
            nullable: self.nullable,
            metadata: self.metadata,
        }
    }
}

/// A nullable or non-nullable field without metadata.
pub open spec fn plain_field(name: Seq<char>, data_type: DataType, nullable: bool) -> FieldView {
    FieldView { name, data_type, nullable, metadata: Map::empty() }
}

impl Field {
    /// A field without metadata.
    pub fn new(name: &str, data_type: DataType, nullable: bool) -> (r: Self)
        ensures
            r@ == plain_field(name@, data_type, nullable),
    {
        Field {
            name: name.to_owned(),
            data_type: Arc::new(data_type),
            nullable,
            metadata: Arc::new(StringMap::new()),
        }
    }

    /// The field with this metadata.
    pub fn with_metadata(self, metadata: StringMap) -> (r: Self)
        ensures
            r@ == (FieldView { metadata: metadata@, ..self@ }),
    {
        Field {
            name: self.name,
            data_type: self.data_type,
            nullable: self.nullable,
            metadata: Arc::new(metadata),
        }
    }

    /// The field under another name: type, nullability and metadata stay.
    pub fn renamed(&self, name: String) -> (r: Self)
        ensures
            r@ == self@.renamed(name@),
    {
        Field {
            name,
            data_type: Arc::clone(&self.data_type),
            nullable: self.nullable,
            metadata: Arc::clone(&self.metadata),
        }
    }
}

impl Schema {
    /// The schema of these fields.
    pub fn new(fields: Vec<Field>) -> (r: Self)
        ensures
            r.fields@.len() == fields@.len(),
            forall|i: int| 0 <= i < fields@.len() ==> *(#[trigger] r.fields@[i]) == fields@[i],
    {
        let mut shared: Vec<FieldRef> = Vec::new();
        let ghost all = fields@;
        for field in it: fields
            invariant
                it.seq() == all,
                shared@.len() == it.index(),
                forall|i: int| 0 <= i < it.index() ==> *(#[trigger] shared@[i]) == all[i],
        {
            shared.push(Arc::new(field));
        }
        Schema { fields: shared }
    }
}

/// Whether `field` has exactly this name.
pub open spec fn is_named(field: FieldRef, name: Seq<char>) -> bool {
    field.name@ == name
}

/// The position of the first field with exactly this name.
pub open spec fn index_by_name(fields: Seq<FieldRef>, name: Seq<char>) -> Option<int> {
    first_index(fields, |f: FieldRef| is_named(f, name))
}

/// A position in a list, as a mathematical number.
pub open spec fn as_position(i: Option<usize>) -> Option<int> {
    match i {
        Some(i) => Some(i as int),
        None => None,
    }
}

/// The position of the first field with exactly this name.
pub fn index_of(schema: &Schema, name: &String) -> (r: Option<usize>)
    ensures
        as_position(r) == index_by_name(schema.fields@, name@),
{
    let ghost named = |f: FieldRef| is_named(f, name@);
    for i in 0..schema.fields.len()
        invariant
            named == (|f: FieldRef| is_named(f, name@)),
            forall|j: int| 0 <= j < i ==> !named(#[trigger] schema.fields@[j]),
    {
        if schema.fields[i].name == *name {
            proof {
                lemma_found(schema.fields@, named, i as int);
            }
            return Some(i);
        }
    }
    proof {
        lemma_not_found(schema.fields@, named);
    }
    None
}

// ---------------------------------------------------------------------------------------------
// Field identifiers
// ---------------------------------------------------------------------------------------------

/// The constant `parquet::arrow::PARQUET_FIELD_ID_META_KEY`: the metadata key under which the
/// Parquet reader and writer keep field identifiers.
#[verifier::external_body]
fn field_id_meta_key() -> (r: &'static str)
    ensures
        r@ == field_id_key(),
{
    parquet::arrow::PARQUET_FIELD_ID_META_KEY
}

/// The metadata key of field identifiers.
pub open spec fn field_id_key() -> Seq<char> {
    "PARQUET:field_id"@
}

/// The Parquet field identifier of a field: the number under the identifier's metadata key.
pub open spec fn field_id(field: Field) -> Option<i32> {
    if field.metadata@.contains_key(field_id_key()) {
        int_value(field.metadata@[field_id_key()])
    } else {
        None
    }
}

/// Whether any field carries an identifier.
pub open spec fn has_field_ids(fields: Seq<FieldRef>) -> bool {
    exists|i: int| 0 <= i < fields.len() && field_id(*#[trigger] fields[i]) is Some
}

/// The Parquet field identifier of `field`.
pub fn parse_field_id(field: &Field) -> (r: Option<i32>)
    ensures
        r == field_id(*field),
{
    match field.metadata.get(field_id_meta_key()) {
        Some(v) => parse_i32(v.as_str()),
        None => None,
    }
}

/// Whether any field of the schema carries an identifier.
pub fn schema_has_field_ids(schema: &Schema) -> (r: bool)
    ensures
        r == has_field_ids(schema.fields@),
{
    for i in 0..schema.fields.len()
        invariant
            forall|j: int| 0 <= j < i ==> field_id(*#[trigger] schema.fields@[j]) is None,
    {
        if parse_field_id(&schema.fields[i]).is_some() {
            return true;
        }
    }
    false
}

} // verus!
