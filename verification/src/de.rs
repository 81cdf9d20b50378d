//! Decoding KeyValues text.

pub mod mapper;
pub mod parser;

pub use mapper::{Field, Shape, UnknownFields, Variant, VariantShape};
pub use parser::{parse, parse_from, parse_text, parse_with_limit, DEFAULT_NESTING_LIMIT};

use crate::data::{Data, DataView};
use crate::error::{Error, Fault, Reason, path_of};
use crate::text::{copy_str, same_text};
use crate::value::{Entries, KeyValues, Node, Value};
use mapper::{decode_object, decode_slot, mismatch, node_value, slot_value};
use vstd::prelude::*;

verus! {

/// How text is decoded: what is done with keys that a record does not have,
/// and how many objects may be open around an object.
#[derive(Copy, Clone, Debug, PartialEq, Eq)]
pub struct DecodeOpts {
    pub unknown_fields: UnknownFields,
    pub nesting_limit: usize,
}

impl Default for DecodeOpts {
    fn default() -> (opts: Self)
        ensures
            opts.unknown_fields == UnknownFields::Ignore,
            opts.nesting_limit == DEFAULT_NESTING_LIMIT,
    {
        DecodeOpts { unknown_fields: UnknownFields::Ignore, nesting_limit: DEFAULT_NESTING_LIMIT }
    }
}

/// The value of the shape `shape` that the document of `entries` stands
/// for, where the entries of the root are the fields of the value.
pub open spec fn flattened_value(shape: Shape, entries: Entries, policy: UnknownFields) -> Result<
    DataView,
    Fault,
> {
    node_value(shape, Node::Object(entries), Seq::empty(), policy)
}

/// The root key of the document of `entries` and the value of the shape
/// `shape` that stands under it: the document must hold exactly one root
/// key.
pub open spec fn nested_value(shape: Shape, entries: Entries, policy: UnknownFields) -> Result<
    (Seq<char>, DataView),
    Fault,
> {
    if entries.len() > 1 {
        Err(Fault::MultipleRootKeys)
    } else if entries.len() == 0 {
        Err(mismatch(Seq::empty(), Reason::MissingValue))
    } else {
        match slot_value(shape, entries[0].1, seq![entries[0].0], policy) {
            Ok(v) => Ok((entries[0].0, v)),
            Err(fault) => Err(fault),
        }
    }
}

/// The value of the shape `shape` that stands under the root key `key` of
/// the document of `entries`: the document must hold this root key and no
/// other.
pub open spec fn expected_value(
    shape: Shape,
    key: Seq<char>,
    entries: Entries,
    policy: UnknownFields,
) -> Result<DataView, Fault> {
    if entries.len() > 1 {
        Err(Fault::MultipleRootKeys)
    } else if entries.len() == 0 {
        Err(mismatch(Seq::empty(), Reason::MissingValue))
    } else if entries[0].0 != key {
        Err(Fault::UnsupportedKey(entries[0].0))
    } else {
        slot_value(shape, entries[0].1, seq![key], policy)
    }
}

/// The value of the shape `shape` that the text `s` stands for, where the
/// entries of the root are the fields of the value.
pub open spec fn flattened_text_value(s: Seq<char>, shape: Shape, opts: DecodeOpts) -> Result<
    DataView,
    Fault,
> {
    match parse_text(s, opts.nesting_limit as nat) {
        Ok(entries) => flattened_value(shape, entries, opts.unknown_fields),
        Err(fault) => Err(fault),
    }
}

/// The only root key of the text `s` and the value of the shape `shape`
/// that stands under it.
pub open spec fn nested_text_value(s: Seq<char>, shape: Shape, opts: DecodeOpts) -> Result<
    (Seq<char>, DataView),
    Fault,
> {
    match parse_text(s, opts.nesting_limit as nat) {
        Ok(entries) => nested_value(shape, entries, opts.unknown_fields),
        Err(fault) => Err(fault),
    }
}

/// The value of the shape `shape` that stands under the only root key of
/// the text `s`, which must be `key`.
pub open spec fn expected_text_value(
    s: Seq<char>,
    key: Seq<char>,
    shape: Shape,
    opts: DecodeOpts,
) -> Result<DataView, Fault> {
    match parse_text(s, opts.nesting_limit as nat) {
        Ok(entries) => expected_value(shape, key, entries, opts.unknown_fields),
        Err(fault) => Err(fault),
    }
}

/// How a key and a value that were decoded relate to those that the text
/// stands for.
pub open spec fn decoded_pair(
    res: Result<(String, Data), Error>,
    expected: Result<(Seq<char>, DataView), Fault>,
) -> bool {
    match expected {
        Ok((key, v)) => res matches Ok((k, d)) && k@ == key && d@ == v,
        Err(fault) => res matches Err(e) && e@ == fault,
    }
}

/// Decodes `text` as a value of the shape `shape` whose fields are the
/// entries of the root. Keys that the shape does not have are passed over.
pub fn from_str(text: &str, shape: &Shape) -> (res: Result<Data, Error>)
    ensures
        mapper::decoded(
            res,
            flattened_text_value(
                text@,
                *shape,
                DecodeOpts {
                    unknown_fields: UnknownFields::Ignore,
                    nesting_limit: DEFAULT_NESTING_LIMIT,
                },
            ),
        ),
{
    from_str_with(text, shape, DecodeOpts::default())
}

/// Decodes `text` as a value of the shape `shape` whose fields are the
/// entries of the root.
pub fn from_str_with(text: &str, shape: &Shape, opts: DecodeOpts) -> (res: Result<Data, Error>)
    ensures
        mapper::decoded(res, flattened_text_value(text@, *shape, opts)),
{
    match parse_with_limit(text, opts.nesting_limit) {
        Ok(document) => from_document(&document, shape, opts.unknown_fields),
        Err(e) => Err(e),
    }
}

/// Decodes `document` as a value of the shape `shape` whose fields are the
/// entries of the root.
pub fn from_document(document: &KeyValues, shape: &Shape, policy: UnknownFields) -> (res: Result<
    Data,
    Error,
>)
    ensures
        mapper::decoded(res, flattened_value(*shape, document.root@, policy)),
{
    let path: Vec<String> = Vec::new();
    assert(path_of(path@) =~= Seq::<Seq<char>>::empty());
    decode_object(shape, &document.root, &path, policy)
}

/// Decodes `document`, which holds one root key, as that key and a value of
/// the shape `shape`.
pub fn kv_from_document(document: &KeyValues, shape: &Shape, policy: UnknownFields) -> (res:
    Result<(String, Data), Error>)
    ensures
        decoded_pair(res, nested_value(*shape, document.root@, policy)),
{
    let (name, values) = match root_entry(document) {
        Ok(entry) => entry,
        Err(e) => {
            return Err(e);
        },
    };
    let key = copy_str(name);
    let mut path: Vec<String> = Vec::new();
    path.push(copy_str(name));
    assert(path_of(path@) =~= seq![key@]);
    match decode_slot(shape, values.as_slice(), &path, policy) {
        Ok(v) => Ok((key, v)),
        Err(e) => Err(e),
    }
}

/// Decodes `text` as a document of one root key, bound to a value of the
/// shape `shape`; returns the key and the value. Keys that the shape does
/// not have are passed over.
pub fn kv_from_str(text: &str, shape: &Shape) -> (res: Result<(String, Data), Error>)
    ensures
        decoded_pair(
            res,
            nested_text_value(
                text@,
                *shape,
                DecodeOpts {
                    unknown_fields: UnknownFields::Ignore,
                    nesting_limit: DEFAULT_NESTING_LIMIT,
                },
            ),
        ),
{
    kv_from_str_with(text, shape, DecodeOpts::default())
}

/// The only root key of `document` and its values: a document of several
/// root keys is a fault, and so is one of none.
pub fn root_entry<'a>(document: &'a KeyValues) -> (res: Result<
    (&'a str, &'a Vec<Value>),
    Error,
>)
    ensures
        match res {
            Ok((key, values)) => document.root@.len() == 1 && key@ == document.root@[0].0
                && crate::value::nodes_of(values@) == document.root@[0].1,
            Err(e) => if document.root@.len() > 1 {
                e@ == Fault::MultipleRootKeys
            } else {
                document.root@.len() == 0 && e@ == mismatch(Seq::empty(), Reason::MissingValue)
            },
        },
{
    if document.root.len() > 1 {
        return Err(Error::MultipleRootKeys);
    }
    if document.root.len() == 0 {
        let path: Vec<String> = Vec::new();
        assert(path_of(path@) =~= Seq::<Seq<char>>::empty());
        return Err(Error::Mismatch { path, reason: Reason::MissingValue });
    }
    Ok((document.root.key_at(0), document.root.values_at(0)))
}

/// Decodes `text` as a document of one root key, bound to a value of the
/// shape `shape`; returns the key and the value.
pub fn kv_from_str_with(text: &str, shape: &Shape, opts: DecodeOpts) -> (res: Result<
    (String, Data),
    Error,
>)
    ensures
        decoded_pair(res, nested_text_value(text@, *shape, opts)),
{
    match parse_with_limit(text, opts.nesting_limit) {
        Ok(document) => kv_from_document(&document, shape, opts.unknown_fields),
        Err(e) => Err(e),
    }
}

/// Decodes `text` as a document whose only root key is `key`, bound to a
/// value of the shape `shape`.
pub fn kv_from_str_expecting(text: &str, key: &str, shape: &Shape, opts: DecodeOpts) -> (res:
    Result<Data, Error>)
    ensures
        mapper::decoded(res, expected_text_value(text@, key@, *shape, opts)),
{
    let document = match parse_with_limit(text, opts.nesting_limit) {
        Ok(document) => document,
        Err(e) => {
            return Err(e);
        },
    };
    let (name, values) = match root_entry(&document) {
        Ok(entry) => entry,
        Err(e) => {
            return Err(e);
        },
    };
    if !same_text(name, key) {
        return Err(Error::UnsupportedKey(copy_str(name)));
    }
    let mut path: Vec<String> = Vec::new();
    path.push(copy_str(key));
    assert(path_of(path@) =~= seq![key@]);
    decode_slot(shape, values.as_slice(), &path, opts.unknown_fields)
}

} // verus!
