//! Why encoding fails: a fact about the value and the place, not about the
//! formatter or the text that was written before.

use crate::data::{Data, key_text};
use crate::ser::fault::{
    elements_fault_of, entries_fault_of, fault_in, fault_of, fields_fault_of, nested_fault_of,
    node_entries_fault_of, node_fault_of, node_values_fault_of, sequence_fault_of, standing_at,
};
use crate::ser::formatter::Formatter;
use crate::ser::serializer::{
    Place, Written, encode, encode_elements, encode_entries, encode_fields, encode_nested,
    encode_node, encode_node_entries, encode_node_values, encode_sequence, object_begun,
};
use crate::value::{Entries, Node};
use vstd::prelude::*;

verus! {

/// Encoding fails exactly where the value has a fault at its place, and
/// with that fault, whatever the formatter is and whatever was written
/// before.
pub proof fn encoding_fails_by_the_value<F: Formatter>(
    w: Written<F::State>,
    place: Place,
    data: Data,
    budget: nat,
)
    ensures
        fault_in(encode::<F>(w, place, data, budget)) == fault_of(standing_at(place), data, budget),
    decreases data, 0int,
{
    let begun = object_begun::<F>(w, place);
    match data {
        Data::Present(inner) => {
            nested_fails_by_the_value::<F>(w, place, *inner, budget);
        },
        Data::NewtypeStruct(inner) => {
            nested_fails_by_the_value::<F>(w, place, *inner, budget);
        },
        Data::Sequence(items) => {
            sequence_fails_by_the_value::<F>(w, place, items@, budget);
        },
        Data::Tuple(items) => {
            sequence_fails_by_the_value::<F>(w, place, items@, budget);
        },
        Data::TupleStruct(items) => {
            sequence_fails_by_the_value::<F>(w, place, items@, budget);
        },
        Data::Mapping(entries) => {
            entries_fail_by_the_value::<F>(begun, entries@, budget);
        },
        Data::Struct(fields) => {
            fields_fail_by_the_value::<F>(begun, fields@, budget);
        },
        Data::NewtypeVariant(_, inner) => {
            nested_fails_by_the_value::<F>(w, place, *inner, budget);
        },
        Data::TupleVariant(name, items) => {
            if budget > 0 {
                sequence_fails_by_the_value::<F>(
                    begun,
                    Place::BoundKey(name@),
                    items@,
                    (budget - 1) as nat,
                );
            }
        },
        Data::StructVariant(name, fields) => {
            if budget > 0 {
                let inner = object_begun::<F>(begun, Place::BoundKey(name@));
                fields_fail_by_the_value::<F>(inner, fields@, (budget - 1) as nat);
            }
        },
        _ => {},
    }
}

/// Encoding one level below fails exactly where the value has a fault.
pub proof fn nested_fails_by_the_value<F: Formatter>(
    w: Written<F::State>,
    place: Place,
    data: Data,
    budget: nat,
)
    ensures
        fault_in(encode_nested::<F>(w, place, data, budget)) == nested_fault_of(
            standing_at(place),
            data,
            budget,
        ),
    decreases data, 1int,
{
    if budget > 0 {
        encoding_fails_by_the_value::<F>(w, place, data, (budget - 1) as nat);
    }
}

/// Encoding a sequence fails exactly where the sequence has a fault.
pub proof fn sequence_fails_by_the_value<F: Formatter>(
    w: Written<F::State>,
    place: Place,
    items: Seq<Data>,
    budget: nat,
)
    ensures
        fault_in(encode_sequence::<F>(w, place, items, budget)) == sequence_fault_of(
            standing_at(place),
            items,
            budget,
        ),
    decreases items, 2int,
{
    match place {
        Place::BoundKey(key) => {
            elements_fail_by_the_value::<F>(w, key, items, budget);
        },
        _ => {},
    }
}

/// Encoding the elements of a sequence fails exactly where one of them has
/// a fault.
pub proof fn elements_fail_by_the_value<F: Formatter>(
    w: Written<F::State>,
    key: Seq<char>,
    items: Seq<Data>,
    budget: nat,
)
    ensures
        fault_in(encode_elements::<F>(w, key, items, budget)) == elements_fault_of(
            items,
            budget,
        ),
    decreases items, 1int,
{
    if items.len() > 0 {
        nested_fails_by_the_value::<F>(w, Place::InSequence(key), items[0], budget);
        match encode_nested::<F>(w, Place::InSequence(key), items[0], budget) {
            Ok(w1) => {
                elements_fail_by_the_value::<F>(w1, key, items.drop_first(), budget);
            },
            Err(_) => {},
        }
    }
}

/// Encoding the fields of a record fails exactly where one of them has a
/// fault.
pub proof fn fields_fail_by_the_value<F: Formatter>(
    w: Written<F::State>,
    fields: Seq<(String, Data)>,
    budget: nat,
)
    ensures
        fault_in(encode_fields::<F>(w, fields, budget)) == fields_fault_of(fields, budget),
    decreases fields, 1int,
{
    if fields.len() > 0 {
        let place = Place::BoundKey(fields[0].0@);
        nested_fails_by_the_value::<F>(w, place, fields[0].1, budget);
        match encode_nested::<F>(w, place, fields[0].1, budget) {
            Ok(w1) => {
                fields_fail_by_the_value::<F>(w1, fields.drop_first(), budget);
            },
            Err(_) => {},
        }
    }
}

/// Encoding the pairs of a map fails exactly where one of them has a
/// fault.
pub proof fn entries_fail_by_the_value<F: Formatter>(
    w: Written<F::State>,
    entries: Seq<(Data, Data)>,
    budget: nat,
)
    ensures
        fault_in(encode_entries::<F>(w, entries, budget)) == entries_fault_of(entries, budget),
    decreases entries, 1int,
{
    if entries.len() > 0 {
        match key_text(entries[0].0) {
            Ok(key) => {
                let place = Place::BoundKey(key);
                nested_fails_by_the_value::<F>(w, place, entries[0].1, budget);
                match encode_nested::<F>(w, place, entries[0].1, budget) {
                    Ok(w1) => {
                        entries_fail_by_the_value::<F>(w1, entries.drop_first(), budget);
                    },
                    Err(_) => {},
                }
            },
            Err(_) => {},
        }
    }
}

/// Encoding a tree fails exactly where the tree has a fault, whatever the
/// formatter is and whatever was written before.
pub proof fn tree_fails_by_the_tree<F: Formatter>(
    w: Written<F::State>,
    place: Place,
    node: Node,
    budget: nat,
)
    ensures
        fault_in(encode_node::<F>(w, place, node, budget)) == node_fault_of(node, budget),
    decreases node, 0int,
{
    match node {
        Node::Text(_) => {},
        Node::Object(entries) => {
            tree_entries_fail_by_the_tree::<F>(object_begun::<F>(w, place), entries, budget);
        },
    }
}

/// Encoding the entries of an object fails exactly where they have a
/// fault.
pub proof fn tree_entries_fail_by_the_tree<F: Formatter>(
    w: Written<F::State>,
    entries: Entries,
    budget: nat,
)
    ensures
        fault_in(encode_node_entries::<F>(w, entries, budget)) == node_entries_fault_of(
            entries,
            budget,
        ),
    decreases entries, 1int,
{
    if entries.len() > 0 && budget > 0 {
        tree_values_fail_by_the_tree::<F>(w, entries[0].0, entries[0].1, (budget - 1) as nat);
        match encode_node_values::<F>(w, entries[0].0, entries[0].1, (budget - 1) as nat) {
            Ok(w1) => {
                tree_entries_fail_by_the_tree::<F>(w1, entries.drop_first(), budget);
            },
            Err(_) => {},
        }
    }
}

/// Encoding the values of a key fails exactly where they have a fault.
pub proof fn tree_values_fail_by_the_tree<F: Formatter>(
    w: Written<F::State>,
    key: Seq<char>,
    values: Seq<Node>,
    budget: nat,
)
    ensures
        fault_in(encode_node_values::<F>(w, key, values, budget)) == node_values_fault_of(
            values,
            budget,
        ),
    decreases values, 1int,
{
    if values.len() > 0 && budget > 0 {
        tree_fails_by_the_tree::<F>(w, Place::InSequence(key), values[0], (budget - 1) as nat);
        match encode_node::<F>(w, Place::InSequence(key), values[0], (budget - 1) as nat) {
            Ok(w1) => {
                tree_values_fail_by_the_tree::<F>(w1, key, values.drop_first(), budget);
            },
            Err(_) => {},
        }
    }
}

} // verus!
