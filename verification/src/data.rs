//! Application values, described by their shape.

use crate::error::{Error, Fault};
use crate::text::{
    bool_text, char_to_string, copy_str, decimal, signed_decimal, signed_to_string,
    unsigned_to_string,
};
use vstd::prelude::*;

verus! {

/// A floating-point number: the bits of its IEEE 754 double and its
/// canonical decimal text.
#[derive(Clone, Debug, PartialEq, Eq)]
pub struct Float {
    pub bits: u64,
    pub text: String,
}

/// An application value, described by its shape: a scalar, an optional
/// value, a sequence, a map, a record, or a case of an enumeration.
#[derive(Debug, PartialEq, Eq)]
pub enum Data {
    Bool(bool),
    /// A signed integer of at most 64 bits.
    Signed(i64),
    /// An unsigned integer of at most 64 bits.
    Unsigned(u64),
    /// A signed integer of 128 bits.
    WideSigned(i128),
    /// An unsigned integer of 128 bits.
    WideUnsigned(u128),
    Float(Float),
    Char(char),
    Str(String),
    Bytes(Vec<u8>),
    /// An absent optional value.
    Absent,
    /// A present optional value.
    Present(Box<Data>),
    Unit,
    /// A record without fields.
    UnitStruct,
    /// A case without fields, by its name.
    UnitVariant(String),
    /// A record that wraps one value.
    NewtypeStruct(Box<Data>),
    /// A case that wraps one value, by its name.
    NewtypeVariant(String, Box<Data>),
    Sequence(Vec<Data>),
    Tuple(Vec<Data>),
    /// A record of unnamed fields.
    TupleStruct(Vec<Data>),
    /// A case of unnamed fields, by its name.
    TupleVariant(String, Vec<Data>),
    /// A map, as its entries in order.
    Mapping(Vec<(Data, Data)>),
    /// A record of named fields.
    Struct(Vec<(String, Data)>),
    /// A case of named fields, by its name.
    StructVariant(String, Vec<(String, Data)>),
}

/// Whether `bits` are those of a finite double: the exponent is not all
/// ones.
pub open spec fn is_finite_bits(bits: u64) -> bool {
    (bits >> 52) & 0x7ff != 0x7ff
}

/// Whether `bits` are those of a finite double.
pub fn finite_bits(bits: u64) -> (r: bool)
    ensures
        r == is_finite_bits(bits),
{
    (bits >> 52) & 0x7ff != 0x7ff
}

/// What becomes of a value that is written as one string.
pub enum Scalar {
    /// The value is this string.
    Text(Seq<char>),
    /// The value stands for nothing: it is absent, or a unit.
    Absent,
    /// The value cannot be written.
    Fails(Fault),
    /// The value is not a scalar.
    Composite,
}

/// The string that a scalar value is written as: `0` or `1` for a boolean,
/// decimal digits for an integer, its own text for a finite float, the
/// character, the string, or the name of a case without fields.
pub open spec fn scalar_of(data: Data) -> Scalar {
    match data {
        Data::Bool(b) => Scalar::Text(bool_text(b)),
        Data::Signed(v) => Scalar::Text(signed_decimal(v as int)),
        Data::Unsigned(v) => Scalar::Text(decimal(v as nat)),
        Data::WideSigned(_) => Scalar::Fails(Fault::UnsupportedType("i128"@)),
        Data::WideUnsigned(_) => Scalar::Fails(Fault::UnsupportedType("u128"@)),
        Data::Float(x) => if is_finite_bits(x.bits) {
            Scalar::Text(x.text@)
        } else {
            Scalar::Fails(Fault::NonFiniteFloat(x.bits))
        },
        Data::Char(c) => Scalar::Text(seq![c]),
        Data::Str(s) => Scalar::Text(s@),
        Data::Bytes(_) => Scalar::Fails(Fault::UnsupportedType("bytes"@)),
        Data::Absent => Scalar::Absent,
        Data::Unit => Scalar::Absent,
        Data::UnitStruct => Scalar::Absent,
        Data::UnitVariant(name) => Scalar::Text(name@),
        _ => Scalar::Composite,
    }
}

/// The text of a value used as the key of a map entry, or why it has none.
///
/// Booleans, integers of at most 64 bits, finite floats, characters and
/// strings are keys by their canonical text; an optional value or a wrapping
/// record is a key if what it holds is one; nothing else is.
pub open spec fn key_text(data: Data) -> Result<Seq<char>, Fault>
    decreases data,
{
    match data {
        Data::Bool(b) => Ok(bool_text(b)),
        Data::Signed(v) => Ok(signed_decimal(v as int)),
        Data::Unsigned(v) => Ok(decimal(v as nat)),
        Data::WideSigned(_) => Err(Fault::UnsupportedType("i128"@)),
        Data::WideUnsigned(_) => Err(Fault::UnsupportedType("u128"@)),
        Data::Float(x) => if is_finite_bits(x.bits) {
            Ok(x.text@)
        } else {
            Err(Fault::NonFiniteFloat(x.bits))
        },
        Data::Char(c) => Ok(seq![c]),
        Data::Str(s) => Ok(s@),
        Data::Bytes(_) => Err(Fault::KeyMustBeAString("bytes"@)),
        Data::Absent => Err(Fault::KeyMustBeAString("none"@)),
        Data::Present(inner) => key_text(*inner),
        Data::Unit => Err(Fault::KeyMustBeAString("unit"@)),
        Data::UnitStruct => Err(Fault::KeyMustBeAString("unit struct"@)),
        Data::UnitVariant(_) => Err(Fault::KeyMustBeAString("unit variant"@)),
        Data::NewtypeStruct(inner) => key_text(*inner),
        Data::NewtypeVariant(_, _) => Err(Fault::KeyMustBeAString("newtype variant"@)),
        Data::Sequence(_) => Err(Fault::KeyMustBeAString("sequence"@)),
        Data::Tuple(_) => Err(Fault::KeyMustBeAString("tuple"@)),
        Data::TupleStruct(_) => Err(Fault::KeyMustBeAString("tuple struct"@)),
        Data::TupleVariant(_, _) => Err(Fault::KeyMustBeAString("tuple variant"@)),
        Data::Mapping(_) => Err(Fault::KeyMustBeAString("map"@)),
        Data::Struct(_) => Err(Fault::KeyMustBeAString("struct"@)),
        Data::StructVariant(_, _) => Err(Fault::KeyMustBeAString("struct variant"@)),
    }
}

/// How a result with a string relates to one with the string's content.
pub open spec fn text_result(
    res: Result<String, Error>,
    expected: Result<Seq<char>, Fault>,
) -> bool {
    match expected {
        Ok(text) => res matches Ok(s) && s@ == text,
        Err(fault) => res matches Err(e) && e@ == fault,
    }
}

fn key_fault(kind: &str) -> (res: Result<String, Error>)
    ensures
        text_result(res, Err(Fault::KeyMustBeAString(kind@))),
{
    Err(Error::KeyMustBeAString(copy_str(kind)))
}

/// The text of `data` as the key of a map entry.
pub fn key_string(data: &Data) -> (res: Result<String, Error>)
    ensures
        text_result(res, key_text(*data)),
    decreases data,
{
    match data {
        Data::Bool(b) => Ok(bool_string(*b)),
        Data::Signed(v) => Ok(signed_to_string(*v)),
        Data::Unsigned(v) => Ok(unsigned_to_string(*v)),
        Data::WideSigned(_) => Err(Error::UnsupportedType(copy_str("i128"))),
        Data::WideUnsigned(_) => Err(Error::UnsupportedType(copy_str("u128"))),
        Data::Float(x) => if finite_bits(x.bits) {
            Ok(copy_str(x.text.as_str()))
        } else {
            Err(Error::NonFiniteFloat(x.bits))
        },
        Data::Char(c) => Ok(char_to_string(*c)),
        Data::Str(s) => Ok(copy_str(s.as_str())),
        Data::Bytes(_) => key_fault("bytes"),
        Data::Absent => key_fault("none"),
        Data::Present(inner) => key_string(inner),
        Data::Unit => key_fault("unit"),
        Data::UnitStruct => key_fault("unit struct"),
        Data::UnitVariant(_) => key_fault("unit variant"),
        Data::NewtypeStruct(inner) => key_string(inner),
        Data::NewtypeVariant(_, _) => key_fault("newtype variant"),
        Data::Sequence(_) => key_fault("sequence"),
        Data::Tuple(_) => key_fault("tuple"),
        Data::TupleStruct(_) => key_fault("tuple struct"),
        Data::TupleVariant(_, _) => key_fault("tuple variant"),
        Data::Mapping(_) => key_fault("map"),
        Data::Struct(_) => key_fault("struct"),
        Data::StructVariant(_, _) => key_fault("struct variant"),
    }
}

/// The canonical text of a boolean: `1` for true, `0` for false.
pub fn bool_string(b: bool) -> (s: String)
    ensures
        s@ == bool_text(b),
{
    if b {
        char_to_string('1')
    } else {
        char_to_string('0')
    }
}

/// The mathematical content of a [`Data`].
pub enum DataView {
    Bool(bool),
    Signed(i64),
    Unsigned(u64),
    WideSigned(i128),
    WideUnsigned(u128),
    Float { bits: u64, text: Seq<char> },
    Char(char),
    Str(Seq<char>),
    Bytes(Seq<u8>),
    Absent,
    Present(Box<DataView>),
    Unit,
    UnitStruct,
    UnitVariant(Seq<char>),
    NewtypeStruct(Box<DataView>),
    NewtypeVariant(Seq<char>, Box<DataView>),
    Sequence(Seq<DataView>),
    Tuple(Seq<DataView>),
    TupleStruct(Seq<DataView>),
    TupleVariant(Seq<char>, Seq<DataView>),
    Mapping(Seq<(DataView, DataView)>),
    Struct(Seq<(Seq<char>, DataView)>),
    StructVariant(Seq<char>, Seq<(Seq<char>, DataView)>),
}

/// The contents of the values `items`.
pub open spec fn views_of(items: Seq<Data>) -> Seq<DataView> {
    Seq::new(items.len(), |i: int| items[i]@)
}

/// The contents of the named values `fields`.
pub open spec fn field_views_of(fields: Seq<(String, Data)>) -> Seq<(Seq<char>, DataView)> {
    Seq::new(fields.len(), |i: int| (fields[i].0@, fields[i].1@))
}

/// The contents of the pairs `entries`.
pub open spec fn entry_views_of(entries: Seq<(Data, Data)>) -> Seq<(DataView, DataView)> {
    Seq::new(entries.len(), |i: int| (entries[i].0@, entries[i].1@))
}

/// The mathematical content of `data`.
pub open spec fn view_of(data: Data) -> DataView
    decreases data,
{
    match data {
        Data::Bool(v) => DataView::Bool(v),
        Data::Signed(v) => DataView::Signed(v),
        Data::Unsigned(v) => DataView::Unsigned(v),
        Data::WideSigned(v) => DataView::WideSigned(v),
        Data::WideUnsigned(v) => DataView::WideUnsigned(v),
        Data::Float(v) => DataView::Float { bits: v.bits, text: v.text@ },
        Data::Char(v) => DataView::Char(v),
        Data::Str(v) => DataView::Str(v@),
        Data::Bytes(v) => DataView::Bytes(v@),
        Data::Absent => DataView::Absent,
        Data::Present(inner) => DataView::Present(Box::new(view_of(*inner))),
        Data::Unit => DataView::Unit,
        Data::UnitStruct => DataView::UnitStruct,
        Data::UnitVariant(name) => DataView::UnitVariant(name@),
        Data::NewtypeStruct(inner) => DataView::NewtypeStruct(Box::new(view_of(*inner))),
        Data::NewtypeVariant(name, inner) => DataView::NewtypeVariant(
            name@,
            Box::new(view_of(*inner)),
        ),
        Data::Sequence(items) => DataView::Sequence(
            Seq::new(
                items@.len(),
                |i: int|
                    if 0 <= i < items@.len() {
                        view_of(items@[i])
                    } else {
                        DataView::Unit
                    },
            ),
        ),
        Data::Tuple(items) => DataView::Tuple(
            Seq::new(
                items@.len(),
                |i: int|
                    if 0 <= i < items@.len() {
                        view_of(items@[i])
                    } else {
                        DataView::Unit
                    },
            ),
        ),
        Data::TupleStruct(items) => DataView::TupleStruct(
            Seq::new(
                items@.len(),
                |i: int|
                    if 0 <= i < items@.len() {
                        view_of(items@[i])
                    } else {
                        DataView::Unit
                    },
            ),
        ),
        Data::TupleVariant(name, items) => DataView::TupleVariant(
            name@,
            Seq::new(
                items@.len(),
                |i: int|
                    if 0 <= i < items@.len() {
                        view_of(items@[i])
                    } else {
                        DataView::Unit
                    },
            ),
        ),
        Data::Mapping(entries) => DataView::Mapping(
            Seq::new(
                entries@.len(),
                |i: int|
                    if 0 <= i < entries@.len() {
                        (view_of(entries@[i].0), view_of(entries@[i].1))
                    } else {
                        (DataView::Unit, DataView::Unit)
                    },
            ),
        ),
        Data::Struct(fields) => DataView::Struct(
            Seq::new(
                fields@.len(),
                |i: int|
                    if 0 <= i < fields@.len() {
                        (fields@[i].0@, view_of(fields@[i].1))
                    } else {
                        (Seq::empty(), DataView::Unit)
                    },
            ),
        ),
        Data::StructVariant(name, fields) => DataView::StructVariant(
            name@,
            Seq::new(
                fields@.len(),
                |i: int|
                    if 0 <= i < fields@.len() {
                        (fields@[i].0@, view_of(fields@[i].1))
                    } else {
                        (Seq::empty(), DataView::Unit)
                    },
            ),
        ),
    }
}

impl View for Data {
    type V = DataView;

    open spec fn view(&self) -> DataView {
        view_of(*self)
    }
}

/// The content of a character.
pub proof fn view_of_char(c: char)
    ensures
        Data::Char(c)@ == DataView::Char(c),
{
}

/// The content of a sequence is the contents of its items.
pub proof fn view_of_items(items: Vec<Data>)
    ensures
        Data::Sequence(items)@ == DataView::Sequence(views_of(items@)),
        Data::Tuple(items)@ == DataView::Tuple(views_of(items@)),
        Data::TupleStruct(items)@ == DataView::TupleStruct(views_of(items@)),
{
    assert(Data::Sequence(items)@->Sequence_0 =~= views_of(items@));
    assert(Data::Tuple(items)@->Tuple_0 =~= views_of(items@));
    assert(Data::TupleStruct(items)@->TupleStruct_0 =~= views_of(items@));
}

/// The content of a case of unnamed fields is its name and the contents of
/// its fields.
pub proof fn view_of_tuple_variant(name: String, items: Vec<Data>)
    ensures
        Data::TupleVariant(name, items)@ == DataView::TupleVariant(name@, views_of(items@)),
{
    assert(Data::TupleVariant(name, items)@->TupleVariant_1 =~= views_of(items@));
}

/// The content of a record is the names and contents of its fields.
pub proof fn view_of_fields(fields: Vec<(String, Data)>)
    ensures
        Data::Struct(fields)@ == DataView::Struct(field_views_of(fields@)),
{
    assert(Data::Struct(fields)@->Struct_0 =~= field_views_of(fields@));
}

/// The content of a case of named fields is its name and the names and
/// contents of its fields.
pub proof fn view_of_struct_variant(name: String, fields: Vec<(String, Data)>)
    ensures
        Data::StructVariant(name, fields)@ == DataView::StructVariant(
            name@,
            field_views_of(fields@),
        ),
{
    assert(Data::StructVariant(name, fields)@->StructVariant_1 =~= field_views_of(fields@));
}

/// The content of a map is the contents of its entries.
pub proof fn view_of_entries(entries: Vec<(Data, Data)>)
    ensures
        Data::Mapping(entries)@ == DataView::Mapping(entry_views_of(entries@)),
{
    assert(Data::Mapping(entries)@->Mapping_0 =~= entry_views_of(entries@));
}

} // verus!
