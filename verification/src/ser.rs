//! Encoding values as KeyValues text.

pub mod fault;
pub mod formatter;
pub mod layout;
pub mod lowering;
pub mod serializer;

pub use formatter::{
    BraceStyle, ElementKind, Event, FormatOpts, Formatter, PrettyFormatter, Quoting,
};
pub use lowering::{kv_to_document, to_document};
pub use serializer::{Context, Serializer, DEFAULT_DEPTH_LIMIT};

use crate::data::{Data, text_result};
use crate::error::{Error, Fault};
use crate::laws::failure::{encoding_fails_by_the_value, nested_fails_by_the_value};
use crate::laws::rendering::document_is_entries_text;
use crate::laws::typed::{keyed_document_is_entries_text, typed_document_is_entries_text};
use crate::ser::layout::entries_text;
use crate::ser::lowering::{entry_of, lower, root_entries};
use crate::value::{Entries, KeyValues, Node};
use fault::{Standing, fails_with, fault_of, nested_fault_of, node_entries_fault_of};
use formatter::{default_style, pretty_start};
use serializer::{Place, Written, encode, encode_nested, encode_node, ended, object_begun, start};
use vstd::prelude::*;

verus! {

/// The text of a result of encoding.
pub open spec fn text_of<S>(res: Result<Written<S>, Fault>) -> Result<Seq<char>, Fault> {
    match res {
        Ok(w) => Ok(w.text),
        Err(fault) => Err(fault),
    }
}

/// The text of `data` as a whole document, written by a formatter that
/// starts in `state`, with values nested at most `limit` levels deep.
pub open spec fn document<F: Formatter>(state: F::State, data: Data, limit: nat) -> Result<
    Seq<char>,
    Fault,
> {
    text_of(encode::<F>(start::<F>(state), Place::Root, data, limit))
}

/// The text of the document whose only root key is `key`, bound to `data`.
pub open spec fn keyed_document<F: Formatter>(
    state: F::State,
    key: Seq<char>,
    data: Data,
    limit: nat,
) -> Result<Seq<char>, Fault> {
    text_of(
        ended::<F>(
            encode_nested::<F>(
                object_begun::<F>(start::<F>(state), Place::Root),
                Place::BoundKey(key),
                data,
                limit,
            ),
            Place::Root,
        ),
    )
}

/// Encodes `value` as a document in the default style. The text of a
/// record or of a map is that of the entries that it stands for.
pub fn to_string(value: &Data) -> (res: Result<String, Error>)
    ensures
        text_result(
            res,
            document::<PrettyFormatter>(
                pretty_start(default_style()),
                *value,
                DEFAULT_DEPTH_LIMIT as nat,
            ),
        ),
        (value is Struct || value is Mapping) ==> (res matches Ok(text) ==> text@
            == entries_text(default_style(), 0, root_entries(*value))),
        fails_with(res, fault_of(Standing::Root, *value, DEFAULT_DEPTH_LIMIT as nat)),
{
    proof {
        if value is Struct || value is Mapping {
            typed_document_is_entries_text(default_style(), *value, DEFAULT_DEPTH_LIMIT as nat);
        }
    }
    to_string_pretty(value, PrettyFormatter::default())
}

/// Encodes `value` as a document through `formatter`, which has written
/// nothing yet.
pub fn to_string_pretty<F: Formatter>(value: &Data, formatter: F) -> (res: Result<String, Error>)
    requires
        formatter.valid(),
        F::open_elements(formatter.state()).len() == 0,
    ensures
        text_result(res, document::<F>(formatter.state(), *value, DEFAULT_DEPTH_LIMIT as nat)),
        fails_with(res, fault_of(Standing::Root, *value, DEFAULT_DEPTH_LIMIT as nat)),
{
    proof {
        encoding_fails_by_the_value::<F>(
            start::<F>(formatter.state()),
            Place::Root,
            *value,
            DEFAULT_DEPTH_LIMIT as nat,
        );
    }
    let mut serializer = Serializer::new(String::new(), formatter);
    match serializer.serialize(value) {
        Ok(()) => Ok(serializer.into_writer()),
        Err(e) => Err(e),
    }
}

/// Encodes `value` as the document whose only root key is `key`, in the
/// default style. The text is that of the entry of the key with the values
/// that `value` stands for.
pub fn kv_to_string(key: &str, value: &Data) -> (res: Result<String, Error>)
    ensures
        text_result(
            res,
            keyed_document::<PrettyFormatter>(
                pretty_start(default_style()),
                key@,
                *value,
                DEFAULT_DEPTH_LIMIT as nat,
            ),
        ),
        res matches Ok(text) ==> text@ == entries_text(
            default_style(),
            0,
            entry_of(key@, lower(*value)),
        ),
        fails_with(
            res,
            nested_fault_of(Standing::Keyed, *value, DEFAULT_DEPTH_LIMIT as nat),
        ),
{
    proof {
        keyed_document_is_entries_text(default_style(), key@, *value, DEFAULT_DEPTH_LIMIT as nat);
    }
    kv_to_string_pretty(key, value, PrettyFormatter::default())
}

/// Encodes `value` as the document whose only root key is `key`, through
/// `formatter`, which has written nothing yet.
pub fn kv_to_string_pretty<F: Formatter>(key: &str, value: &Data, formatter: F) -> (res: Result<
    String,
    Error,
>)
    requires
        formatter.valid(),
        F::open_elements(formatter.state()).len() == 0,
    ensures
        text_result(
            res,
            keyed_document::<F>(formatter.state(), key@, *value, DEFAULT_DEPTH_LIMIT as nat),
        ),
        fails_with(
            res,
            nested_fault_of(Standing::Keyed, *value, DEFAULT_DEPTH_LIMIT as nat),
        ),
{
    proof {
        nested_fails_by_the_value::<F>(
            object_begun::<F>(start::<F>(formatter.state()), Place::Root),
            Place::BoundKey(key@),
            *value,
            DEFAULT_DEPTH_LIMIT as nat,
        );
    }
    let mut serializer = Serializer::new(String::new(), formatter);
    match serializer.serialize_keyed(key, value) {
        Ok(()) => Ok(serializer.into_writer()),
        Err(e) => Err(e),
    }
}

/// The text of the document whose root holds `entries`, written by a
/// formatter that starts in `state`, with values nested at most `limit`
/// levels deep.
pub open spec fn tree_document<F: Formatter>(
    state: F::State,
    entries: Entries,
    limit: nat,
) -> Result<Seq<char>, Fault> {
    text_of(encode_node::<F>(start::<F>(state), Place::Root, Node::Object(entries), limit))
}

/// Encodes `document` in the default style: the text is that of the
/// entries of its root.
pub fn document_to_string(document: &KeyValues) -> (res: Result<String, Error>)
    ensures
        text_result(
            res,
            tree_document::<PrettyFormatter>(
                pretty_start(default_style()),
                document.root@,
                DEFAULT_DEPTH_LIMIT as nat,
            ),
        ),
        res matches Ok(text) ==> text@ == entries_text(default_style(), 0, document.root@),
        fails_with(res, node_entries_fault_of(document.root@, DEFAULT_DEPTH_LIMIT as nat)),
{
    proof {
        document_is_entries_text(default_style(), document.root@, DEFAULT_DEPTH_LIMIT as nat);
    }
    document_to_string_pretty(document, PrettyFormatter::default())
}

/// Encodes `document` through `formatter`, which has written nothing yet.
pub fn document_to_string_pretty<F: Formatter>(document: &KeyValues, formatter: F) -> (res: Result<
    String,
    Error,
>)
    requires
        formatter.valid(),
        F::open_elements(formatter.state()).len() == 0,
    ensures
        text_result(
            res,
            tree_document::<F>(formatter.state(), document.root@, DEFAULT_DEPTH_LIMIT as nat),
        ),
        fails_with(res, node_entries_fault_of(document.root@, DEFAULT_DEPTH_LIMIT as nat)),
{
    let mut serializer = Serializer::new(String::new(), formatter);
    match document.serialize(&mut serializer) {
        Ok(()) => Ok(serializer.into_writer()),
        Err(e) => Err(e),
    }
}

} // verus!
