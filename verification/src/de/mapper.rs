//! The mapper: from the generic tree to a value of a declared shape.

use crate::data::{
    Data, DataView, entry_views_of, field_views_of, view_of_char, view_of_entries, view_of_fields,
    view_of_items, view_of_struct_variant, view_of_tuple_variant, views_of,
};
use crate::error::{Error, Fault, Reason, path_of};
use crate::text::{Magnitude, chars_of, copy_str, parse_signed, parse_unsigned, read_magnitude};
use crate::value::{Entries, Node, Object, Value, nodes_of, position_of};
use vstd::prelude::*;
use vstd::slice::slice_subrange;

verus! {

/// A named field of a record.
#[derive(Debug, PartialEq, Eq)]
pub struct Field {
    pub name: String,
    pub shape: Shape,
}

/// What a case of an enumeration holds.
#[derive(Debug, PartialEq, Eq)]
pub enum VariantShape {
    /// Nothing.
    Unit,
    /// One value, read from an object whose only key is the name of the
    /// case.
    Newtype(Shape),
    /// Unnamed fields.
    Tuple(Vec<Shape>),
    /// Named fields.
    Struct(Vec<Field>),
}

/// A named case of an enumeration.
#[derive(Debug, PartialEq, Eq)]
pub struct Variant {
    pub name: String,
    pub shape: VariantShape,
}

/// The declared shape of a value.
#[derive(Debug, PartialEq, Eq)]
pub enum Shape {
    Bool,
    /// A signed integer between `min` and `max`.
    Signed { min: i64, max: i64 },
    /// An unsigned integer of at most `limit`.
    Unsigned { limit: u64 },
    Char,
    Str,
    Unit,
    /// A record without fields.
    UnitStruct,
    /// A value that may be absent.
    Optional(Box<Shape>),
    /// A record that wraps one value.
    Newtype(Box<Shape>),
    /// Any number of values of one shape.
    Sequence(Box<Shape>),
    /// One value of each shape.
    Tuple(Vec<Shape>),
    /// A record of unnamed fields.
    TupleStruct(Vec<Shape>),
    /// A map from keys of the first shape, which is that of a scalar, to
    /// values of the second.
    Mapping(Box<Shape>, Box<Shape>),
    /// A record of named fields.
    Struct(Vec<Field>),
    /// An enumeration.
    Enum(Vec<Variant>),
}

/// What is done with a key of an object that the record does not have.
#[derive(Copy, Clone, Debug, PartialEq, Eq, Structural)]
pub enum UnknownFields {
    /// The key is passed over.
    Ignore,
    /// The object is refused.
    Reject,
}

/// The fault of a tree that goes wrong behind the keys `path`.
pub open spec fn mismatch(path: Seq<Seq<char>>, reason: Reason) -> Fault {
    Fault::Mismatch { path, reason }
}

/// The first place at or behind `from` where a field called `name` stands
/// in `fields`, or the length of `fields`.
pub open spec fn field_from(fields: Seq<Field>, name: Seq<char>, from: int) -> int
    decreases fields.len() - from,
{
    if from < 0 || from >= fields.len() {
        fields.len() as int
    } else if fields[from].name@ == name {
        from
    } else {
        field_from(fields, name, from + 1)
    }
}

/// The first place at or behind `from` where a case called `name` stands in
/// `variants`, or the length of `variants`.
pub open spec fn variant_from(variants: Seq<Variant>, name: Seq<char>, from: int) -> int
    decreases variants.len() - from,
{
    if from < 0 || from >= variants.len() {
        variants.len() as int
    } else if variants[from].name@ == name {
        from
    } else {
        variant_from(variants, name, from + 1)
    }
}

/// The first place at or behind `from` of a key in `entries` that is the
/// name of no field, or the length of `entries`.
pub open spec fn unknown_from(entries: Entries, fields: Seq<Field>, from: int) -> int
    decreases entries.len() - from,
{
    if from < 0 || from >= entries.len() {
        entries.len() as int
    } else if field_from(fields, entries[from].0, 0) >= fields.len() {
        from
    } else {
        unknown_from(entries, fields, from + 1)
    }
}

/// The values that stand under `key` in `entries`; none where the key does
/// not stand.
pub open spec fn values_under(entries: Entries, key: Seq<char>) -> Seq<Node> {
    let at = position_of(entries, key);
    if at < entries.len() {
        entries[at].1
    } else {
        Seq::empty()
    }
}

/// The value of the shape `shape` that the string `text` stands for.
///
/// A boolean is a run of digits, false where it stands for zero. An integer
/// is a run of digits, perhaps behind a minus sign, within the range of the
/// shape. A character is a string of one character. A case without fields
/// is its name.
pub open spec fn text_value(shape: Shape, text: Seq<char>, path: Seq<Seq<char>>) -> Result<
    DataView,
    Fault,
> {
    match shape {
        Shape::Bool => match parse_unsigned(text) {
            Some(n) => Ok(DataView::Bool(n != 0)),
            None => Err(mismatch(path, Reason::InvalidBool)),
        },
        Shape::Signed { min, max } => match parse_signed(text) {
            Some(v) => if min <= v <= max {
                Ok(DataView::Signed(v as i64))
            } else {
                Err(mismatch(path, Reason::OutOfRange))
            },
            None => Err(mismatch(path, Reason::InvalidNumber)),
        },
        Shape::Unsigned { limit } => match parse_unsigned(text) {
            Some(v) => if v <= limit {
                Ok(DataView::Unsigned(v as u64))
            } else {
                Err(mismatch(path, Reason::OutOfRange))
            },
            None => Err(mismatch(path, Reason::InvalidNumber)),
        },
        Shape::Char => if text.len() == 1 {
            Ok(DataView::Char(text[0]))
        } else {
            Err(mismatch(path, Reason::InvalidChar))
        },
        Shape::Str => Ok(DataView::Str(text)),
        Shape::Enum(variants) => {
            let at = variant_from(variants@, text, 0);
            if 0 <= at < variants@.len() && variants@[at].shape is Unit {
                Ok(DataView::UnitVariant(text))
            } else {
                Err(mismatch(path, Reason::UnknownVariant))
            }
        },
        _ => Err(mismatch(path, Reason::ExpectedObject)),
    }
}

/// The value of the shape `shape` that the values `nodes` of one key stand
/// for.
///
/// An optional value is absent where the key has no value. A sequence takes
/// every value of the key, in order, and a tuple one value for each of its
/// fields. A unit takes none. Any other shape takes exactly one value.
pub open spec fn slot_value(
    shape: Shape,
    nodes: Seq<Node>,
    path: Seq<Seq<char>>,
    policy: UnknownFields,
) -> Result<DataView, Fault>
    decreases shape, 2int, 0int,
{
    match shape {
        Shape::Optional(inner) => if nodes.len() == 0 {
            Ok(DataView::Absent)
        } else {
            match slot_value(*inner, nodes, path, policy) {
                Ok(v) => Ok(DataView::Present(Box::new(v))),
                Err(fault) => Err(fault),
            }
        },
        Shape::Unit => if nodes.len() == 0 {
            Ok(DataView::Unit)
        } else {
            Err(mismatch(path, Reason::UnexpectedValue))
        },
        Shape::UnitStruct => if nodes.len() == 0 {
            Ok(DataView::UnitStruct)
        } else {
            Err(mismatch(path, Reason::UnexpectedValue))
        },
        Shape::Newtype(inner) => match slot_value(*inner, nodes, path, policy) {
            Ok(v) => Ok(DataView::NewtypeStruct(Box::new(v))),
            Err(fault) => Err(fault),
        },
        Shape::Sequence(item) => match items_value(*item, nodes, path, policy, Seq::empty()) {
            Ok(items) => Ok(DataView::Sequence(items)),
            Err(fault) => Err(fault),
        },
        Shape::Tuple(shapes) => if shapes@.len() != nodes.len() {
            Err(mismatch(path, Reason::WrongArity))
        } else {
            match tuple_value(shapes@, nodes, path, policy, Seq::empty()) {
                Ok(items) => Ok(DataView::Tuple(items)),
                Err(fault) => Err(fault),
            }
        },
        Shape::TupleStruct(shapes) => if shapes@.len() != nodes.len() {
            Err(mismatch(path, Reason::WrongArity))
        } else {
            match tuple_value(shapes@, nodes, path, policy, Seq::empty()) {
                Ok(items) => Ok(DataView::TupleStruct(items)),
                Err(fault) => Err(fault),
            }
        },
        _ => if nodes.len() == 0 {
            Err(mismatch(path, Reason::MissingValue))
        } else if nodes.len() > 1 {
            Err(mismatch(path, Reason::RepeatedValue))
        } else {
            node_value(shape, nodes[0], path, policy)
        },
    }
}

/// The value of the shape `shape` that the one value `node` stands for.
///
/// A string stands for a scalar or for a case without fields. An object
/// stands for a record, by the values under the names of the fields; for a
/// map, by its keys and their values; or for a case with fields, by its only
/// key, which is the name of the case.
pub open spec fn node_value(
    shape: Shape,
    node: Node,
    path: Seq<Seq<char>>,
    policy: UnknownFields,
) -> Result<DataView, Fault>
    decreases shape, 1int, 0int,
{
    match node {
        Node::Text(text) => text_value(shape, text, path),
        Node::Object(entries) => match shape {
            Shape::Struct(fields) => match record_value(fields@, entries, path, policy) {
                Ok(values) => Ok(DataView::Struct(values)),
                Err(fault) => Err(fault),
            },
            Shape::Mapping(key, value) => match entries_value(
                *key,
                *value,
                entries,
                path,
                policy,
                Seq::empty(),
            ) {
                Ok(values) => Ok(DataView::Mapping(values)),
                Err(fault) => Err(fault),
            },
            Shape::Enum(variants) => if entries.len() != 1 {
                Err(mismatch(path, Reason::ExpectedVariant))
            } else {
                let name = entries[0].0;
                let nodes = entries[0].1;
                let inner = path.push(name);
                let at = variant_from(variants@, name, 0);
                if at < 0 || at >= variants@.len() {
                    Err(mismatch(inner, Reason::UnknownVariant))
                } else {
                    match variants@[at].shape {
                        VariantShape::Unit => Err(mismatch(inner, Reason::UnknownVariant)),
                        VariantShape::Newtype(held) => match slot_value(
                            held,
                            nodes,
                            inner,
                            policy,
                        ) {
                            Ok(v) => Ok(DataView::NewtypeVariant(name, Box::new(v))),
                            Err(fault) => Err(fault),
                        },
                        VariantShape::Tuple(shapes) => if shapes@.len() != nodes.len() {
                            Err(mismatch(inner, Reason::WrongArity))
                        } else {
                            match tuple_value(shapes@, nodes, inner, policy, Seq::empty()) {
                                Ok(items) => Ok(DataView::TupleVariant(name, items)),
                                Err(fault) => Err(fault),
                            }
                        },
                        VariantShape::Struct(fields) => if nodes.len() == 0 {
                            Err(mismatch(inner, Reason::MissingValue))
                        } else if nodes.len() > 1 {
                            Err(mismatch(inner, Reason::RepeatedValue))
                        } else {
                            match nodes[0] {
                                Node::Text(_) => Err(mismatch(inner, Reason::ExpectedObject)),
                                Node::Object(held) => match record_value(
                                    fields@,
                                    held,
                                    inner,
                                    policy,
                                ) {
                                    Ok(values) => Ok(DataView::StructVariant(name, values)),
                                    Err(fault) => Err(fault),
                                },
                            }
                        },
                    }
                }
            },
            _ => Err(mismatch(path, Reason::ExpectedString)),
        },
    }
}

/// The fields of a record that the object of `entries` stands for: where
/// unknown keys are refused, the first of them is the fault; otherwise each
/// field is read from the values under its name.
pub open spec fn record_value(
    fields: Seq<Field>,
    entries: Entries,
    path: Seq<Seq<char>>,
    policy: UnknownFields,
) -> Result<Seq<(Seq<char>, DataView)>, Fault>
    decreases fields, 1int, 0int,
{
    if policy == UnknownFields::Reject && unknown_from(entries, fields, 0) < entries.len() {
        Err(mismatch(path.push(entries[unknown_from(entries, fields, 0)].0), Reason::UnknownField))
    } else {
        fields_value(fields, 0, entries, path, policy, Seq::empty())
    }
}

/// The values behind `acc` of the fields at and behind `from`.
pub open spec fn fields_value(
    fields: Seq<Field>,
    from: int,
    entries: Entries,
    path: Seq<Seq<char>>,
    policy: UnknownFields,
    acc: Seq<(Seq<char>, DataView)>,
) -> Result<Seq<(Seq<char>, DataView)>, Fault>
    decreases fields, 0int, fields.len() - from,
{
    if from < 0 || from >= fields.len() {
        Ok(acc)
    } else {
        let name = fields[from].name@;
        match slot_value(fields[from].shape, values_under(entries, name), path.push(name), policy) {
            Ok(v) => fields_value(fields, from + 1, entries, path, policy, acc.push((name, v))),
            Err(fault) => Err(fault),
        }
    }
}

/// The items behind `acc` that `nodes` stand for, each of the shape `item`.
pub open spec fn items_value(
    item: Shape,
    nodes: Seq<Node>,
    path: Seq<Seq<char>>,
    policy: UnknownFields,
    acc: Seq<DataView>,
) -> Result<Seq<DataView>, Fault>
    decreases item, 3int, nodes.len(),
{
    if nodes.len() == 0 {
        Ok(acc)
    } else {
        match slot_value(item, seq![nodes[0]], path, policy) {
            Ok(v) => items_value(item, nodes.drop_first(), path, policy, acc.push(v)),
            Err(fault) => Err(fault),
        }
    }
}

/// The items behind `acc` that `nodes` stand for, one of each of `shapes`.
pub open spec fn tuple_value(
    shapes: Seq<Shape>,
    nodes: Seq<Node>,
    path: Seq<Seq<char>>,
    policy: UnknownFields,
    acc: Seq<DataView>,
) -> Result<Seq<DataView>, Fault>
    decreases shapes, 0int, shapes.len() - acc.len(),
{
    let at = acc.len() as int;
    if at >= shapes.len() || at >= nodes.len() {
        Ok(acc)
    } else {
        match slot_value(shapes[at], seq![nodes[at]], path, policy) {
            Ok(v) => tuple_value(shapes, nodes, path, policy, acc.push(v)),
            Err(fault) => Err(fault),
        }
    }
}

/// The entries behind `acc` of a map that `entries` stand for: each key is
/// read as a scalar of the shape `key`, and its values as a value of the
/// shape `value`.
pub open spec fn entries_value(
    key: Shape,
    value: Shape,
    entries: Entries,
    path: Seq<Seq<char>>,
    policy: UnknownFields,
    acc: Seq<(DataView, DataView)>,
) -> Result<Seq<(DataView, DataView)>, Fault>
    decreases value, 3int, entries.len(),
{
    if entries.len() == 0 {
        Ok(acc)
    } else {
        let inner = path.push(entries[0].0);
        match text_value(key, entries[0].0, inner) {
            Ok(k) => match slot_value(value, entries[0].1, inner, policy) {
                Ok(v) => entries_value(
                    key,
                    value,
                    entries.drop_first(),
                    path,
                    policy,
                    acc.push((k, v)),
                ),
                Err(fault) => Err(fault),
            },
            Err(fault) => Err(fault),
        }
    }
}

/// How a value that was decoded relates to the one that the tree stands
/// for.
pub open spec fn decoded(res: Result<Data, Error>, expected: Result<DataView, Fault>) -> bool {
    match expected {
        Ok(v) => res matches Ok(d) && d@ == v,
        Err(fault) => res matches Err(e) && e@ == fault,
    }
}

/// A copy of the keys `path`.
fn copy_path(path: &Vec<String>) -> (copy: Vec<String>)
    ensures
        path_of(copy@) == path_of(path@),
{
    let mut copy: Vec<String> = Vec::new();
    let mut i: usize = 0;
    while i < path.len()
        invariant
            i <= path.len(),
            copy@.len() == i,
            forall|k: int| 0 <= k < i ==> (#[trigger] copy@[k])@ == path@[k]@,
        decreases path.len() - i,
    {
        copy.push(copy_str(path[i].as_str()));
        i += 1;
    }
    assert(path_of(copy@) =~= path_of(path@));
    copy
}

/// The error of a tree that goes wrong behind the keys `path`.
fn fail(path: &Vec<String>, reason: Reason) -> (e: Error)
    ensures
        e@ == mismatch(path_of(path@), reason),
{
    Error::Mismatch { path: copy_path(path), reason }
}

/// The place of the case called `name`.
fn find_variant(variants: &Vec<Variant>, name: &str) -> (at: usize)
    ensures
        at == variant_from(variants@, name@, 0),
        at <= variants.len(),
{
    let v = chars_of(name);
    let mut i: usize = 0;
    while i < variants.len()
        invariant
            i <= variants.len(),
            v@ == name@,
            variant_from(variants@, name@, 0) == variant_from(variants@, name@, i as int),
        decreases variants.len() - i,
    {
        if crate::text::same_text(variants[i].name.as_str(), name) {
            return i;
        }
        i += 1;
    }
    i
}

/// The place of the field called `name`.
fn find_field(fields: &Vec<Field>, name: &str) -> (at: usize)
    ensures
        at == field_from(fields@, name@, 0),
        at <= fields.len(),
{
    let mut i: usize = 0;
    while i < fields.len()
        invariant
            i <= fields.len(),
            field_from(fields@, name@, 0) == field_from(fields@, name@, i as int),
        decreases fields.len() - i,
    {
        if crate::text::same_text(fields[i].name.as_str(), name) {
            return i;
        }
        i += 1;
    }
    i
}

/// The place of the first key of `object` that is the name of no field.
fn find_unknown(object: &Object, fields: &Vec<Field>) -> (at: usize)
    ensures
        at == unknown_from(object@, fields@, 0),
        at <= object@.len(),
{
    let mut i: usize = 0;
    while i < object.len()
        invariant
            i <= object@.len(),
            unknown_from(object@, fields@, 0) == unknown_from(object@, fields@, i as int),
        decreases object@.len() - i,
    {
        if find_field(fields, object.key_at(i)) >= fields.len() {
            return i;
        }
        i += 1;
    }
    i
}

/// Decodes the string `text` as a boolean.
fn decode_bool(text: &str, path: &Vec<String>) -> (res: Result<Data, Error>)
    ensures
        decoded(res, text_value(Shape::Bool, text@, path_of(path@))),
{
    let v = chars_of(text);
    assert(v@.skip(0) =~= v@);
    match read_magnitude(&v, 0) {
        Magnitude::Invalid => Err(fail(path, Reason::InvalidBool)),
        Magnitude::TooLarge => Ok(Data::Bool(true)),
        Magnitude::Value(n) => Ok(Data::Bool(n != 0)),
    }
}

/// Decodes the string `text` as a signed integer between `min` and `max`.
fn decode_signed(text: &str, min: i64, max: i64, path: &Vec<String>) -> (res: Result<Data, Error>)
    ensures
        decoded(res, text_value(Shape::Signed { min, max }, text@, path_of(path@))),
{
    let v = chars_of(text);
    assert(v@.skip(0) =~= v@);
    if v.len() > 0 && v[0] == '-' {
        match read_magnitude(&v, 1) {
            Magnitude::Invalid => Err(fail(path, Reason::InvalidNumber)),
            Magnitude::TooLarge => Err(fail(path, Reason::OutOfRange)),
            Magnitude::Value(n) => {
                if n > 0x8000_0000_0000_0000u64 {
                    Err(fail(path, Reason::OutOfRange))
                } else {
                    let value: i64 = if n == 0x8000_0000_0000_0000u64 {
                        i64::MIN
                    } else {
                        -(n as i64)
                    };
                    if min <= value && value <= max {
                        Ok(Data::Signed(value))
                    } else {
                        Err(fail(path, Reason::OutOfRange))
                    }
                }
            },
        }
    } else {
        match read_magnitude(&v, 0) {
            Magnitude::Invalid => Err(fail(path, Reason::InvalidNumber)),
            Magnitude::TooLarge => Err(fail(path, Reason::OutOfRange)),
            Magnitude::Value(n) => {
                if n > 0x7fff_ffff_ffff_ffffu64 {
                    Err(fail(path, Reason::OutOfRange))
                } else {
                    let value: i64 = n as i64;
                    if min <= value && value <= max {
                        Ok(Data::Signed(value))
                    } else {
                        Err(fail(path, Reason::OutOfRange))
                    }
                }
            },
        }
    }
}

/// Decodes the string `text` as an unsigned integer of at most `limit`.
fn decode_unsigned(text: &str, limit: u64, path: &Vec<String>) -> (res: Result<Data, Error>)
    ensures
        decoded(res, text_value(Shape::Unsigned { limit }, text@, path_of(path@))),
{
    let v = chars_of(text);
    assert(v@.skip(0) =~= v@);
    match read_magnitude(&v, 0) {
        Magnitude::Invalid => Err(fail(path, Reason::InvalidNumber)),
        Magnitude::TooLarge => Err(fail(path, Reason::OutOfRange)),
        Magnitude::Value(n) => {
            if n <= limit {
                Ok(Data::Unsigned(n))
            } else {
                Err(fail(path, Reason::OutOfRange))
            }
        },
    }
}

/// Decodes the string `text` as a case without fields.
fn decode_unit_variant(variants: &Vec<Variant>, text: &str, path: &Vec<String>) -> (res: Result<
    Data,
    Error,
>)
    ensures
        ({
            let at = variant_from(variants@, text@, 0);
            if 0 <= at < variants@.len() && variants@[at].shape is Unit {
                res matches Ok(d) && d@ == DataView::UnitVariant(text@)
            } else {
                res matches Err(e) && e@ == mismatch(path_of(path@), Reason::UnknownVariant)
            }
        }),
{
    let at = find_variant(variants, text);
    if at < variants.len() {
        match &variants[at].shape {
            VariantShape::Unit => Ok(Data::UnitVariant(copy_str(text))),
            _ => Err(fail(path, Reason::UnknownVariant)),
        }
    } else {
        Err(fail(path, Reason::UnknownVariant))
    }
}

/// Decodes the string `text` as a character.
fn decode_char(text: &str, path: &Vec<String>) -> (res: Result<Data, Error>)
    ensures
        decoded(res, text_value(Shape::Char, text@, path_of(path@))),
{
    let v = chars_of(text);
    if v.len() == 1 {
        let c: char = v[0];
        proof {
            view_of_char(c);
        }
        Ok(Data::Char(c))
    } else {
        Err(fail(path, Reason::InvalidChar))
    }
}

/// Decodes the string `text` as a string.
fn decode_str(text: &str, path: &Vec<String>) -> (res: Result<Data, Error>)
    ensures
        decoded(res, text_value(Shape::Str, text@, path_of(path@))),
{
    Ok(Data::Str(copy_str(text)))
}

/// Decodes the string `text` as a value of the shape `shape`.
pub fn decode_string(shape: &Shape, text: &str, path: &Vec<String>) -> (res: Result<Data, Error>)
    ensures
        decoded(res, text_value(*shape, text@, path_of(path@))),
{
    match shape {
        Shape::Bool => decode_bool(text, path),
        Shape::Signed { min, max } => decode_signed(text, *min, *max, path),
        Shape::Unsigned { limit } => decode_unsigned(text, *limit, path),
        Shape::Char => decode_char(text, path),
        Shape::Str => decode_str(text, path),
        Shape::Enum(variants) => decode_unit_variant(variants, text, path),
        _ => Err(fail(path, Reason::ExpectedObject)),
    }
}

/// How items that were decoded relate to those that the tree stands for.
pub open spec fn decoded_items(
    res: Result<Vec<Data>, Error>,
    expected: Result<Seq<DataView>, Fault>,
) -> bool {
    match expected {
        Ok(views) => res matches Ok(items) && views_of(items@) == views,
        Err(fault) => res matches Err(e) && e@ == fault,
    }
}

/// How fields that were decoded relate to those that the tree stands for.
pub open spec fn decoded_fields(
    res: Result<Vec<(String, Data)>, Error>,
    expected: Result<Seq<(Seq<char>, DataView)>, Fault>,
) -> bool {
    match expected {
        Ok(views) => res matches Ok(fields) && field_views_of(fields@) == views,
        Err(fault) => res matches Err(e) && e@ == fault,
    }
}

/// How entries that were decoded relate to those that the tree stands for.
pub open spec fn decoded_entries(
    res: Result<Vec<(Data, Data)>, Error>,
    expected: Result<Seq<(DataView, DataView)>, Fault>,
) -> bool {
    match expected {
        Ok(views) => res matches Ok(entries) && entry_views_of(entries@) == views,
        Err(fault) => res matches Err(e) && e@ == fault,
    }
}

/// The keys `path` and behind them `key`.
fn extend_path(path: &Vec<String>, key: &str) -> (inner: Vec<String>)
    ensures
        path_of(inner@) == path_of(path@).push(key@),
{
    let mut inner = copy_path(path);
    let ghost before = inner@;
    inner.push(copy_str(key));
    assert(path_of(inner@) =~= path_of(before).push(key@));
    inner
}

/// The one value among `nodes`: a key that has no value is a fault, and so
/// is one that has several.
pub fn single_node<'a>(nodes: &'a [Value], path: &Vec<String>) -> (res: Result<&'a Value, Error>)
    ensures
        match res {
            Ok(node) => nodes@.len() == 1 && *node == nodes@[0],
            Err(e) => if nodes@.len() == 0 {
                e@ == mismatch(path_of(path@), Reason::MissingValue)
            } else {
                nodes@.len() > 1 && e@ == mismatch(path_of(path@), Reason::RepeatedValue)
            },
        },
{
    if nodes.len() == 0 {
        Err(fail(path, Reason::MissingValue))
    } else if nodes.len() > 1 {
        Err(fail(path, Reason::RepeatedValue))
    } else {
        Ok(&nodes[0])
    }
}

/// The string that `node` is: an object is a fault.
pub fn as_text<'a>(node: &'a Value, path: &Vec<String>) -> (res: Result<&'a str, Error>)
    ensures
        match res {
            Ok(text) => node@ == Node::Text(text@),
            Err(e) => node@ is Object && e@ == mismatch(path_of(path@), Reason::ExpectedString),
        },
{
    match node {
        Value::String(text) => Ok(text.as_str()),
        Value::Object(_) => Err(fail(path, Reason::ExpectedString)),
    }
}

/// The object that `node` is: a string is a fault.
pub fn as_object<'a>(node: &'a Value, path: &Vec<String>) -> (res: Result<&'a Object, Error>)
    ensures
        match res {
            Ok(object) => node@ == Node::Object(object@),
            Err(e) => node@ is Text && e@ == mismatch(path_of(path@), Reason::ExpectedObject),
        },
{
    match node {
        Value::String(_) => Err(fail(path, Reason::ExpectedObject)),
        Value::Object(object) => Ok(object),
    }
}

/// Decodes the values `nodes` of one key as a value of the shape `shape`.
/// `path` holds the keys that lead to the values, outermost first.
pub fn decode_slot(
    shape: &Shape,
    nodes: &[Value],
    path: &Vec<String>,
    policy: UnknownFields,
) -> (res: Result<Data, Error>)
    ensures
        decoded(res, slot_value(*shape, nodes_of(nodes@), path_of(path@), policy)),
    decreases shape, 2int, 0int,
{
    match shape {
        Shape::Optional(inner) => {
            if nodes.len() == 0 {
                Ok(Data::Absent)
            } else {
                match decode_slot(inner, nodes, path, policy) {
                    Ok(v) => Ok(Data::Present(Box::new(v))),
                    Err(e) => Err(e),
                }
            }
        },
        Shape::Unit => {
            if nodes.len() == 0 {
                Ok(Data::Unit)
            } else {
                Err(fail(path, Reason::UnexpectedValue))
            }
        },
        Shape::UnitStruct => {
            if nodes.len() == 0 {
                Ok(Data::UnitStruct)
            } else {
                Err(fail(path, Reason::UnexpectedValue))
            }
        },
        Shape::Newtype(inner) => {
            match decode_slot(inner, nodes, path, policy) {
                Ok(v) => Ok(Data::NewtypeStruct(Box::new(v))),
                Err(e) => Err(e),
            }
        },
        Shape::Sequence(item) => {
            match decode_items(item, nodes, path, policy) {
                Ok(items) => {
                    proof {
                        view_of_items(items);
                    }
                    Ok(Data::Sequence(items))
                },
                Err(e) => Err(e),
            }
        },
        Shape::Tuple(shapes) => {
            if shapes.len() != nodes.len() {
                Err(fail(path, Reason::WrongArity))
            } else {
                match decode_tuple(shapes, nodes, path, policy) {
                    Ok(items) => {
                        proof {
                            view_of_items(items);
                        }
                        Ok(Data::Tuple(items))
                    },
                    Err(e) => Err(e),
                }
            }
        },
        Shape::TupleStruct(shapes) => {
            if shapes.len() != nodes.len() {
                Err(fail(path, Reason::WrongArity))
            } else {
                match decode_tuple(shapes, nodes, path, policy) {
                    Ok(items) => {
                        proof {
                            view_of_items(items);
                        }
                        Ok(Data::TupleStruct(items))
                    },
                    Err(e) => Err(e),
                }
            }
        },
        _ => {
            match single_node(nodes, path) {
                Ok(node) => decode_node(shape, node, path, policy),
                Err(e) => Err(e),
            }
        },
    }
}

/// Decodes each of `nodes` as a value of the shape `item`.
fn decode_items(
    item: &Shape,
    nodes: &[Value],
    path: &Vec<String>,
    policy: UnknownFields,
) -> (res: Result<Vec<Data>, Error>)
    ensures
        decoded_items(
            res,
            items_value(*item, nodes_of(nodes@), path_of(path@), policy, Seq::empty()),
        ),
    decreases item, 3int, nodes@.len(),
{
    let mut items: Vec<Data> = Vec::new();
    let mut i: usize = 0;
    assert(nodes_of(nodes@).skip(0) =~= nodes_of(nodes@));
    assert(views_of(items@) =~= Seq::<DataView>::empty());
    while i < nodes.len()
        invariant
            i <= nodes.len(),
            items_value(*item, nodes_of(nodes@), path_of(path@), policy, Seq::empty())
                == items_value(*item,
                nodes_of(nodes@).skip(i as int),
                path_of(path@),
                policy,
                views_of(items@),
            ),
        decreases nodes.len() - i,
    {
        let one = slice_subrange(nodes, i, i + 1);
        proof {
            assert(nodes_of(one@) =~= seq![nodes_of(nodes@).skip(i as int)[0]]);
            assert(nodes_of(nodes@).skip(i as int).drop_first() =~= nodes_of(nodes@).skip(i + 1));
        }
        match decode_slot(item, one, path, policy) {
            Ok(v) => {
                let ghost before = items@;
                items.push(v);
                assert(views_of(items@) =~= views_of(before).push(v@));
            },
            Err(e) => {
                return Err(e);
            },
        }
        i += 1;
    }
    Ok(items)
}

/// Decodes `nodes` as one value of each of `shapes`.
fn decode_tuple(
    shapes: &Vec<Shape>,
    nodes: &[Value],
    path: &Vec<String>,
    policy: UnknownFields,
) -> (res: Result<Vec<Data>, Error>)
    requires
        shapes@.len() == nodes@.len(),
    ensures
        decoded_items(
            res,
            tuple_value(shapes@, nodes_of(nodes@), path_of(path@), policy, Seq::empty()),
        ),
    decreases shapes, 0int, shapes@.len(),
{
    let mut items: Vec<Data> = Vec::new();
    let mut i: usize = 0;
    assert(views_of(items@) =~= Seq::<DataView>::empty());
    while i < shapes.len()
        invariant
            i <= shapes.len(),
            shapes@.len() == nodes@.len(),
            items@.len() == i,
            tuple_value(shapes@, nodes_of(nodes@), path_of(path@), policy, Seq::empty())
                == tuple_value(shapes@,
                nodes_of(nodes@),
                path_of(path@),
                policy,
                views_of(items@),
            ),
        decreases shapes.len() - i,
    {
        let one = slice_subrange(nodes, i, i + 1);
        proof {
            assert(nodes_of(one@) =~= seq![nodes_of(nodes@)[i as int]]);
        }
        match decode_slot(&shapes[i], one, path, policy) {
            Ok(v) => {
                let ghost before = items@;
                items.push(v);
                assert(views_of(items@) =~= views_of(before).push(v@));
            },
            Err(e) => {
                return Err(e);
            },
        }
        i += 1;
    }
    Ok(items)
}

/// Decodes the one value `node` as a value of the shape `shape`.
pub fn decode_node(
    shape: &Shape,
    node: &Value,
    path: &Vec<String>,
    policy: UnknownFields,
) -> (res: Result<Data, Error>)
    ensures
        decoded(res, node_value(*shape, node@, path_of(path@), policy)),
    decreases shape, 1int, 1int,
{
    match node {
        Value::String(text) => decode_string(shape, text.as_str(), path),
        Value::Object(object) => decode_object(shape, object, path, policy),
    }
}

/// Decodes `object` as a value of the shape `shape`: a record, a map, or a
/// case with fields.
pub fn decode_object(
    shape: &Shape,
    object: &Object,
    path: &Vec<String>,
    policy: UnknownFields,
) -> (res: Result<Data, Error>)
    ensures
        decoded(res, node_value(*shape, Node::Object(object@), path_of(path@), policy)),
    decreases shape, 1int, 0int,
{
    match shape {
        Shape::Struct(fields) => {
            match decode_record(fields, object, path, policy) {
                Ok(values) => {
                    proof {
                        view_of_fields(values);
                    }
                    Ok(Data::Struct(values))
                },
                Err(e) => Err(e),
            }
        },
        Shape::Mapping(key, value) => {
            match decode_entries(key, value, object, path, policy) {
                Ok(values) => {
                    proof {
                        view_of_entries(values);
                    }
                    Ok(Data::Mapping(values))
                },
                Err(e) => Err(e),
            }
        },
        Shape::Enum(variants) => decode_variant(variants, object, path, policy),
        _ => Err(fail(path, Reason::ExpectedString)),
    }
}

/// Decodes `object` as a case with fields: its only key names the case.
fn decode_variant(
    variants: &Vec<Variant>,
    object: &Object,
    path: &Vec<String>,
    policy: UnknownFields,
) -> (res: Result<Data, Error>)
    ensures
        decoded(
            res,
            node_value(Shape::Enum(*variants), Node::Object(object@), path_of(path@), policy),
        ),
    decreases variants, 0int, 0int,
{
    if object.len() != 1 {
        return Err(fail(path, Reason::ExpectedVariant));
    }
    let name = object.key_at(0);
    let values = object.values_at(0);
    let nodes = values.as_slice();
    let inner = extend_path(path, name);
    let at = find_variant(variants, name);
    if at >= variants.len() {
        return Err(fail(&inner, Reason::UnknownVariant));
    }
    match &variants[at].shape {
        VariantShape::Unit => Err(fail(&inner, Reason::UnknownVariant)),
        VariantShape::Newtype(held) => {
            match decode_slot(held, nodes, &inner, policy) {
                Ok(v) => Ok(Data::NewtypeVariant(copy_str(name), Box::new(v))),
                Err(e) => Err(e),
            }
        },
        VariantShape::Tuple(shapes) => {
            if shapes.len() != nodes.len() {
                Err(fail(&inner, Reason::WrongArity))
            } else {
                match decode_tuple(shapes, nodes, &inner, policy) {
                    Ok(items) => {
                        let label = copy_str(name);
                        proof {
                            view_of_tuple_variant(label, items);
                        }
                        Ok(Data::TupleVariant(label, items))
                    },
                    Err(e) => Err(e),
                }
            }
        },
        VariantShape::Struct(fields) => {
            let node = match single_node(nodes, &inner) {
                Ok(node) => node,
                Err(e) => {
                    return Err(e);
                },
            };
            let held = match as_object(node, &inner) {
                Ok(held) => held,
                Err(e) => {
                    return Err(e);
                },
            };
            match decode_record(fields, held, &inner, policy) {
                Ok(values) => {
                    let label = copy_str(name);
                    proof {
                        view_of_struct_variant(label, values);
                    }
                    Ok(Data::StructVariant(label, values))
                },
                Err(e) => Err(e),
            }
        },
    }
}

/// Decodes `object` as the fields of a record.
fn decode_record(
    fields: &Vec<Field>,
    object: &Object,
    path: &Vec<String>,
    policy: UnknownFields,
) -> (res: Result<Vec<(String, Data)>, Error>)
    ensures
        decoded_fields(res, record_value(fields@, object@, path_of(path@), policy)),
    decreases fields, 1int, 0int,
{
    match policy {
        UnknownFields::Reject => {
            let at = find_unknown(object, fields);
            if at < object.len() {
                let inner = extend_path(path, object.key_at(at));
                return Err(fail(&inner, Reason::UnknownField));
            }
        },
        UnknownFields::Ignore => {},
    }
    let mut values: Vec<(String, Data)> = Vec::new();
    let none: Vec<Value> = Vec::new();
    let mut i: usize = 0;
    assert(field_views_of(values@) =~= Seq::<(Seq<char>, DataView)>::empty());
    while i < fields.len()
        invariant
            i <= fields.len(),
            none@.len() == 0,
            record_value(fields@, object@, path_of(path@), policy) == fields_value(
                fields@,
                0,
                object@,
                path_of(path@),
                policy,
                Seq::empty(),
            ),
            fields_value(fields@, 0, object@, path_of(path@), policy, Seq::empty())
                == fields_value(fields@,
                i as int,
                object@,
                path_of(path@),
                policy,
                field_views_of(values@),
            ),
        decreases fields.len() - i,
    {
        let name = fields[i].name.as_str();
        let nodes = match object.get(name) {
            Some(found) => found.as_slice(),
            None => none.as_slice(),
        };
        assert(nodes_of(nodes@) =~= values_under(object@, name@));
        let inner = extend_path(path, name);
        match decode_slot(&fields[i].shape, nodes, &inner, policy) {
            Ok(v) => {
                let ghost before = values@;
                values.push((copy_str(name), v));
                assert(field_views_of(values@) =~= field_views_of(before).push((name@, v@)));
            },
            Err(e) => {
                return Err(e);
            },
        }
        i += 1;
    }
    Ok(values)
}

/// Decodes `object` as the entries of a map.
fn decode_entries(
    key: &Shape,
    value: &Shape,
    object: &Object,
    path: &Vec<String>,
    policy: UnknownFields,
) -> (res: Result<Vec<(Data, Data)>, Error>)
    ensures
        decoded_entries(
            res,
            entries_value(*key, *value, object@, path_of(path@), policy, Seq::empty()),
        ),
    decreases value, 3int, object@.len(),
{
    let mut values: Vec<(Data, Data)> = Vec::new();
    let mut i: usize = 0;
    assert(object@.skip(0) =~= object@);
    assert(entry_views_of(values@) =~= Seq::<(DataView, DataView)>::empty());
    while i < object.len()
        invariant
            i <= object@.len(),
            entries_value(*key, *value, object@, path_of(path@), policy, Seq::empty())
                == entries_value(*key,
                *value,
                object@.skip(i as int),
                path_of(path@),
                policy,
                entry_views_of(values@),
            ),
        decreases object@.len() - i,
    {
        let name = object.key_at(i);
        let nodes = object.values_at(i).as_slice();
        let inner = extend_path(path, name);
        proof {
            assert(object@.skip(i as int)[0] == object@[i as int]);
            assert(object@.skip(i as int).drop_first() =~= object@.skip(i + 1));
        }
        let k = match decode_string(key, name, &inner) {
            Ok(k) => k,
            Err(e) => {
                return Err(e);
            },
        };
        match decode_slot(value, nodes, &inner, policy) {
            Ok(v) => {
                let ghost before = values@;
                values.push((k, v));
                assert(entry_views_of(values@) =~= entry_views_of(before).push((k@, v@)));
            },
            Err(e) => {
                return Err(e);
            },
        }
        i += 1;
    }
    Ok(values)
}

} // verus!
