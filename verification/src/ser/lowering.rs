//! The tree that a described value stands for.
//!
//! [`lower`] gives the values in the order in which they are written, each
//! field of a record and each pair of a map as an entry of its own.
//! [`tree_of`] gives them as they are read: a key that comes again adds to
//! the values that it has. Where no key comes twice the two are the same.

use crate::data::{Data, Scalar, bool_string, key_string, key_text, scalar_of};
use crate::error::{Error, Fault, Reason, path_of};
use crate::ser::fault::{Standing, fault_of, find_fault, nested_fault_of};
use crate::text::{char_to_string, copy_str, signed_to_string, unsigned_to_string};
use crate::value::{Entries, KeyValues, Node, Object, Value, pushed, pushed_values};
use vstd::prelude::*;

verus! {

/// The entry of `key` with `values`; no entry where there are no values.
pub open spec fn entry_of(key: Seq<char>, values: Seq<Node>) -> Entries {
    if values.len() == 0 {
        Seq::empty()
    } else {
        seq![(key, values)]
    }
}

/// The text of `data` as a key, where it has one.
pub open spec fn key_of(data: Data) -> Seq<char> {
    match key_text(data) {
        Ok(text) => text,
        Err(_) => Seq::empty(),
    }
}

/// The values that `data` stands for behind a key: one string for a
/// scalar, none for an absent value or a unit, the values of what is held
/// for an optional value, a wrapping record or a case that wraps one value,
/// the values of all the items for a sequence, and one object for a map, a
/// record or a case of several fields.
pub open spec fn lower(data: Data) -> Seq<Node>
    decreases data, 0int,
{
    match data {
        Data::Present(inner) => lower(*inner),
        Data::NewtypeStruct(inner) => lower(*inner),
        Data::Sequence(items) => lower_items(items@),
        Data::Tuple(items) => lower_items(items@),
        Data::TupleStruct(items) => lower_items(items@),
        Data::Mapping(entries) => seq![Node::Object(lower_mapping(entries@))],
        Data::Struct(fields) => seq![Node::Object(lower_fields(fields@))],
        Data::NewtypeVariant(_, inner) => lower(*inner),
        Data::TupleVariant(name, items) => seq![
            Node::Object(entry_of(name@, lower_items(items@))),
        ],
        Data::StructVariant(name, fields) => seq![
            Node::Object(seq![(name@, seq![Node::Object(lower_fields(fields@))])]),
        ],
        _ => match scalar_of(data) {
            Scalar::Text(text) => seq![Node::Text(text)],
            _ => Seq::empty(),
        },
    }
}

/// The values that the items `items` stand for behind one key, in order.
pub open spec fn lower_items(items: Seq<Data>) -> Seq<Node>
    decreases items, 1int,
{
    if items.len() == 0 {
        Seq::empty()
    } else {
        lower(items[0]) + lower_items(items.drop_first())
    }
}

/// The entries that the fields `fields` stand for: one for each field that
/// has values.
pub open spec fn lower_fields(fields: Seq<(String, Data)>) -> Entries
    decreases fields, 1int,
{
    if fields.len() == 0 {
        Seq::empty()
    } else {
        entry_of(fields[0].0@, lower(fields[0].1)) + lower_fields(fields.drop_first())
    }
}

/// The entries that the pairs `entries` of a map stand for: one for each
/// pair that has values.
pub open spec fn lower_mapping(entries: Seq<(Data, Data)>) -> Entries
    decreases entries, 1int,
{
    if entries.len() == 0 {
        Seq::empty()
    } else {
        entry_of(key_of(entries[0].0), lower(entries[0].1)) + lower_mapping(entries.drop_first())
    }
}

/// The entries of the root of the document that `data` stands for, where
/// it is a record or a map.
pub open spec fn root_entries(data: Data) -> Entries {
    match data {
        Data::Struct(fields) => lower_fields(fields@),
        Data::Mapping(entries) => lower_mapping(entries@),
        _ => Seq::empty(),
    }
}

/// The values that `data` stands for behind a key, as they are read: like
/// [`lower`], but in every object a key that comes again adds to the values
/// that it has.
pub open spec fn tree_of(data: Data) -> Seq<Node>
    decreases data, 0int,
{
    match data {
        Data::Present(inner) => tree_of(*inner),
        Data::NewtypeStruct(inner) => tree_of(*inner),
        Data::Sequence(items) => tree_of_items(items@),
        Data::Tuple(items) => tree_of_items(items@),
        Data::TupleStruct(items) => tree_of_items(items@),
        Data::Mapping(entries) => seq![Node::Object(tree_of_mapping(entries@, Seq::empty()))],
        Data::Struct(fields) => seq![Node::Object(tree_of_fields(fields@, Seq::empty()))],
        Data::NewtypeVariant(_, inner) => tree_of(*inner),
        Data::TupleVariant(name, items) => seq![
            Node::Object(pushed_values(Seq::empty(), name@, tree_of_items(items@))),
        ],
        Data::StructVariant(name, fields) => seq![
            Node::Object(
                pushed(
                    Seq::empty(),
                    name@,
                    Node::Object(tree_of_fields(fields@, Seq::empty())),
                ),
            ),
        ],
        _ => match scalar_of(data) {
            Scalar::Text(text) => seq![Node::Text(text)],
            _ => Seq::empty(),
        },
    }
}

/// The values that the items `items` stand for behind one key, as they are
/// read.
pub open spec fn tree_of_items(items: Seq<Data>) -> Seq<Node>
    decreases items, 1int,
{
    if items.len() == 0 {
        Seq::empty()
    } else {
        tree_of(items[0]) + tree_of_items(items.drop_first())
    }
}

/// `acc` with the values of each of `fields` given under its name, as they
/// are read.
pub open spec fn tree_of_fields(fields: Seq<(String, Data)>, acc: Entries) -> Entries
    decreases fields, 1int,
{
    if fields.len() == 0 {
        acc
    } else {
        tree_of_fields(
            fields.drop_first(),
            pushed_values(acc, fields[0].0@, tree_of(fields[0].1)),
        )
    }
}

/// `acc` with the values of each of `entries` given under the text of its
/// key, as they are read.
pub open spec fn tree_of_mapping(entries: Seq<(Data, Data)>, acc: Entries) -> Entries
    decreases entries, 1int,
{
    if entries.len() == 0 {
        acc
    } else {
        tree_of_mapping(
            entries.drop_first(),
            pushed_values(acc, key_of(entries[0].0), tree_of(entries[0].1)),
        )
    }
}

/// The entries of the root of the document that `data` stands for, as they
/// are read; none where `data` does not stand for one object.
pub open spec fn root_of(data: Data) -> Option<Entries> {
    if tree_of(data).len() == 1 && tree_of(data)[0] is Object {
        Some(tree_of(data)[0]->Object_0)
    } else {
        None
    }
}

/// Values given under a key one after the other are given in two goes.
pub proof fn pushed_values_concat(acc: Entries, key: Seq<char>, a: Seq<Node>, b: Seq<Node>)
    ensures
        pushed_values(acc, key, a + b) == pushed_values(pushed_values(acc, key, a), key, b),
    decreases a.len(),
{
    if a.len() == 0 {
        assert(a + b =~= b);
    } else {
        assert((a + b)[0] == a[0]);
        assert((a + b).drop_first() =~= a.drop_first() + b);
        pushed_values_concat(pushed(acc, key, a[0]), key, a.drop_first(), b);
    }
}

/// One value given under a key.
pub proof fn pushed_values_single(acc: Entries, key: Seq<char>, node: Node)
    ensures
        pushed_values(acc, key, seq![node]) == pushed(acc, key, node),
{
    let one = seq![node];
    assert(one.drop_first() =~= Seq::<Node>::empty());
    assert(pushed_values(pushed(acc, key, node), key, one.drop_first()) == pushed(
        acc,
        key,
        node,
    ));
}

/// Gives the values that `data` stands for under `key` in `object`.
///
/// Faults of `data` are passed over: a value that cannot be written stands
/// for no value.
fn push_under(data: &Data, object: &mut Object, key: &str)
    ensures
        final(object)@ == pushed_values(old(object)@, key@, tree_of(*data)),
    decreases data, 0int,
{
    match data {
        Data::Bool(v) => {
            push_text(object, key, bool_string(*v));
        },
        Data::Signed(v) => {
            push_text(object, key, signed_to_string(*v));
        },
        Data::Unsigned(v) => {
            push_text(object, key, unsigned_to_string(*v));
        },
        Data::Float(x) => {
            if crate::data::finite_bits(x.bits) {
                push_text(object, key, copy_str(x.text.as_str()));
            }
        },
        Data::Char(c) => {
            push_text(object, key, char_to_string(*c));
        },
        Data::Str(text) => {
            push_text(object, key, copy_str(text.as_str()));
        },
        Data::UnitVariant(name) => {
            push_text(object, key, copy_str(name.as_str()));
        },
        Data::Present(inner) => {
            push_under(inner, object, key);
        },
        Data::NewtypeStruct(inner) => {
            push_under(inner, object, key);
        },
        Data::Sequence(items) => {
            push_items_under(items, object, key);
        },
        Data::Tuple(items) => {
            push_items_under(items, object, key);
        },
        Data::TupleStruct(items) => {
            push_items_under(items, object, key);
        },
        Data::Mapping(entries) => {
            let held = mapping_object(entries);
            proof {
                pushed_values_single(object@, key@, Node::Object(held@));
            }
            object.push(copy_str(key), Value::Object(held));
        },
        Data::Struct(fields) => {
            let held = fields_object(fields);
            proof {
                pushed_values_single(object@, key@, Node::Object(held@));
            }
            object.push(copy_str(key), Value::Object(held));
        },
        Data::NewtypeVariant(_, inner) => {
            push_under(inner, object, key);
        },
        Data::TupleVariant(name, items) => {
            let mut held = Object::new();
            push_items_under(items, &mut held, name.as_str());
            proof {
                pushed_values_single(object@, key@, Node::Object(held@));
            }
            object.push(copy_str(key), Value::Object(held));
        },
        Data::StructVariant(name, fields) => {
            let inner = fields_object(fields);
            let mut held = Object::new();
            held.push(copy_str(name.as_str()), Value::Object(inner));
            proof {
                pushed_values_single(object@, key@, Node::Object(held@));
            }
            object.push(copy_str(key), Value::Object(held));
        },
        _ => {},
    }
}

/// Gives the string `text` under `key` in `object`.
fn push_text(object: &mut Object, key: &str, text: String)
    ensures
        final(object)@ == pushed_values(old(object)@, key@, seq![Node::Text(text@)]),
{
    proof {
        pushed_values_single(object@, key@, Node::Text(text@));
    }
    object.push(copy_str(key), Value::String(text));
}

/// Gives the values that `items` stand for under `key` in `object`.
fn push_items_under(items: &Vec<Data>, object: &mut Object, key: &str)
    ensures
        final(object)@ == pushed_values(old(object)@, key@, tree_of_items(items@)),
    decreases items, 1int,
{
    let mut i: usize = 0;
    assert(items@.skip(0) =~= items@);
    while i < items.len()
        invariant
            i <= items.len(),
            pushed_values(old(object)@, key@, tree_of_items(items@)) == pushed_values(
                object@,
                key@,
                tree_of_items(items@.skip(i as int)),
            ),
        decreases items.len() - i,
    {
        proof {
            assert(items@.skip(i as int)[0] == items@[i as int]);
            assert(items@.skip(i as int).drop_first() =~= items@.skip(i + 1));
            pushed_values_concat(
                object@,
                key@,
                tree_of(items@[i as int]),
                tree_of_items(items@.skip(i + 1)),
            );
        }
        push_under(&items[i], object, key);
        i += 1;
    }
}

/// The object that the fields `fields` stand for.
fn fields_object(fields: &Vec<(String, Data)>) -> (object: Object)
    ensures
        object@ == tree_of_fields(fields@, Seq::empty()),
    decreases fields, 2int,
{
    let mut object = Object::new();
    let mut i: usize = 0;
    assert(fields@.skip(0) =~= fields@);
    while i < fields.len()
        invariant
            i <= fields.len(),
            tree_of_fields(fields@, Seq::empty()) == tree_of_fields(
                fields@.skip(i as int),
                object@,
            ),
        decreases fields.len() - i,
    {
        proof {
            assert(fields@.skip(i as int)[0] == fields@[i as int]);
            assert(fields@.skip(i as int).drop_first() =~= fields@.skip(i + 1));
        }
        push_under(&fields[i].1, &mut object, fields[i].0.as_str());
        i += 1;
    }
    object
}

/// The object that the pairs `entries` of a map stand for.
fn mapping_object(entries: &Vec<(Data, Data)>) -> (object: Object)
    ensures
        object@ == tree_of_mapping(entries@, Seq::empty()),
    decreases entries, 2int,
{
    let mut object = Object::new();
    let mut i: usize = 0;
    assert(entries@.skip(0) =~= entries@);
    while i < entries.len()
        invariant
            i <= entries.len(),
            tree_of_mapping(entries@, Seq::empty()) == tree_of_mapping(
                entries@.skip(i as int),
                object@,
            ),
        decreases entries.len() - i,
    {
        proof {
            assert(entries@.skip(i as int)[0] == entries@[i as int]);
            assert(entries@.skip(i as int).drop_first() =~= entries@.skip(i + 1));
        }
        let key = match key_string(&entries[i].0) {
            Ok(key) => key,
            Err(_) => String::new(),
        };
        push_under(&entries[i].1, &mut object, key.as_str());
        i += 1;
    }
    object
}

/// How a document that was built relates to the value that it stands for.
pub open spec fn built(
    res: Result<KeyValues, Error>,
    fault: Option<Fault>,
    root: Option<Entries>,
) -> bool {
    match fault {
        Some(expected) => res matches Err(e) && e@ == expected,
        None => match root {
            Some(entries) => res matches Ok(document) && document.root@ == entries,
            None => res matches Err(e) && e@ == (Fault::Mismatch {
                path: Seq::empty(),
                reason: Reason::ExpectedObject,
            }),
        },
    }
}

/// The document that `data` stands for, with values nested at most `limit`
/// levels deep: what reading the text of `data` gives.
///
/// Fails where encoding `data` as a document fails, and where `data` does
/// not stand for one object.
pub fn to_document(data: &Data, limit: u16) -> (res: Result<KeyValues, Error>)
    ensures
        built(res, fault_of(Standing::Root, *data, limit as nat), root_of(*data)),
{
    match find_fault(Standing::Root, data, limit) {
        Some(e) => {
            return Err(e);
        },
        None => {},
    }
    let mut holder = Object::new();
    let key = "";
    push_under(data, &mut holder, key);
    proof {
        tree_under_one_key(key@, tree_of(*data));
    }
    if holder.len() == 1 {
        match holder.pop() {
            Some((_, mut values)) => {
                if values.len() == 1 {
                    match values.pop() {
                        Some(Value::Object(root)) => {
                            return Ok(KeyValues::with_root(root));
                        },
                        _ => {},
                    }
                }
            },
            None => {},
        }
    }
    let path: Vec<String> = Vec::new();
    assert(path_of(path@) =~= Seq::<Seq<char>>::empty());
    Err(Error::Mismatch { path, reason: Reason::ExpectedObject })
}

/// Values given under one key of an object without entries make no entry,
/// or the one entry of the key with these values.
pub proof fn tree_under_one_key(key: Seq<char>, nodes: Seq<Node>)
    ensures
        pushed_values(Seq::empty(), key, nodes) == entry_of(key, nodes),
{
    if nodes.len() > 0 {
        let none: Entries = Seq::empty();
        crate::laws::reading::pushed_values_new_key(none, key, nodes);
        assert(none.push((key, nodes)) =~= seq![(key, nodes)]);
    }
}

/// The document whose only root key is `key`, with the values that `data`
/// stands for, nested at most `limit` levels deep.
///
/// Fails where encoding `data` under a root key fails.
pub fn kv_to_document(key: &str, data: &Data, limit: u16) -> (res: Result<KeyValues, Error>)
    ensures
        match nested_fault_of(Standing::Keyed, *data, limit as nat) {
            Some(fault) => res matches Err(e) && e@ == fault,
            None => res matches Ok(document) && document.root@ == entry_of(key@, tree_of(*data)),
        },
{
    if limit == 0 {
        return Err(Error::RecursionLimitExceeded);
    }
    match find_fault(Standing::Keyed, data, limit - 1) {
        Some(e) => {
            return Err(e);
        },
        None => {},
    }
    let mut root = Object::new();
    push_under(data, &mut root, key);
    proof {
        tree_under_one_key(key@, tree_of(*data));
    }
    Ok(KeyValues::with_root(root))
}

} // verus!
