//! Why encoding fails: a fact about the value and about whether a key is
//! pending, not about the formatter or the text that was written before.

use crate::data::{Data, Scalar, finite_bits, key_string, key_text, scalar_of};
use crate::error::{Error, Fault};
use crate::ser::serializer::Place;
use crate::text::copy_str;
use crate::value::{Entries, Node, Object, Value, height, member_is_lower, nodes_of};
use vstd::prelude::*;

verus! {

/// How a value stands where it is encoded.
#[derive(Copy, Clone, Debug, PartialEq, Eq, Structural)]
pub enum Standing {
    /// No key is pending.
    Root,
    /// Behind a key.
    Keyed,
    /// As an element of a sequence.
    Element,
}

/// How a value stands at `place`.
pub open spec fn standing_at(place: Place) -> Standing {
    match place {
        Place::BoundKey(_) => Standing::Keyed,
        Place::InSequence(_) => Standing::Element,
        _ => Standing::Root,
    }
}

/// The fault of a result, if it is a failure.
pub open spec fn fault_in<T>(res: Result<T, Fault>) -> Option<Fault> {
    match res {
        Ok(_) => None,
        Err(fault) => Some(fault),
    }
}

/// The fault of encoding `data` within `budget` levels, if there is one:
/// the first, in the order in which the value is walked, of
///
/// - a sequence where no key is pending, or inside a sequence;
/// - raw bytes, an integer of 128 bits, or a number that is not finite;
/// - a key of a map that has no text;
/// - a value nested deeper than the budget.
pub open spec fn fault_of(standing: Standing, data: Data, budget: nat) -> Option<Fault>
    decreases data, 0int,
{
    match data {
        Data::Present(inner) => nested_fault_of(standing, *inner, budget),
        Data::NewtypeStruct(inner) => nested_fault_of(standing, *inner, budget),
        Data::Sequence(items) => sequence_fault_of(standing, items@, budget),
        Data::Tuple(items) => sequence_fault_of(standing, items@, budget),
        Data::TupleStruct(items) => sequence_fault_of(standing, items@, budget),
        Data::Mapping(entries) => entries_fault_of(entries@, budget),
        Data::Struct(fields) => fields_fault_of(fields@, budget),
        Data::NewtypeVariant(_, inner) => nested_fault_of(standing, *inner, budget),
        Data::TupleVariant(_, items) => if budget == 0 {
            Some(Fault::RecursionLimitExceeded)
        } else {
            sequence_fault_of(Standing::Keyed, items@, (budget - 1) as nat)
        },
        Data::StructVariant(_, fields) => if budget == 0 {
            Some(Fault::RecursionLimitExceeded)
        } else {
            fields_fault_of(fields@, (budget - 1) as nat)
        },
        _ => match scalar_of(data) {
            Scalar::Fails(fault) => Some(fault),
            _ => None,
        },
    }
}

/// The fault of encoding `data` one level below.
pub open spec fn nested_fault_of(standing: Standing, data: Data, budget: nat) -> Option<Fault>
    decreases data, 1int,
{
    if budget == 0 {
        Some(Fault::RecursionLimitExceeded)
    } else {
        fault_of(standing, data, (budget - 1) as nat)
    }
}

/// The fault of encoding a sequence of `items`.
pub open spec fn sequence_fault_of(standing: Standing, items: Seq<Data>, budget: nat) -> Option<
    Fault,
>
    decreases items, 1int,
{
    match standing {
        Standing::Keyed => elements_fault_of(items, budget),
        Standing::Element => Some(Fault::NestedSequence),
        Standing::Root => Some(Fault::RootLevelSequence),
    }
}

/// The first fault of encoding `items` as the elements of a sequence.
pub open spec fn elements_fault_of(items: Seq<Data>, budget: nat) -> Option<Fault>
    decreases items, 0int,
{
    if items.len() == 0 {
        None
    } else {
        match nested_fault_of(Standing::Element, items[0], budget) {
            Some(fault) => Some(fault),
            None => elements_fault_of(items.drop_first(), budget),
        }
    }
}

/// The first fault of encoding `fields` as the pairs of an object.
pub open spec fn fields_fault_of(fields: Seq<(String, Data)>, budget: nat) -> Option<Fault>
    decreases fields, 0int,
{
    if fields.len() == 0 {
        None
    } else {
        match nested_fault_of(Standing::Keyed, fields[0].1, budget) {
            Some(fault) => Some(fault),
            None => fields_fault_of(fields.drop_first(), budget),
        }
    }
}

/// The first fault of encoding `entries` as the pairs of an object.
pub open spec fn entries_fault_of(entries: Seq<(Data, Data)>, budget: nat) -> Option<Fault>
    decreases entries, 0int,
{
    if entries.len() == 0 {
        None
    } else {
        match key_text(entries[0].0) {
            Err(fault) => Some(fault),
            Ok(_) => match nested_fault_of(Standing::Keyed, entries[0].1, budget) {
                Some(fault) => Some(fault),
                None => entries_fault_of(entries.drop_first(), budget),
            },
        }
    }
}

/// The fault of encoding the tree `node` within `budget` levels, if there
/// is one: its values are nested deeper than the budget.
pub open spec fn node_fault_of(node: Node, budget: nat) -> Option<Fault>
    decreases node, 0int,
{
    match node {
        Node::Text(_) => None,
        Node::Object(entries) => node_entries_fault_of(entries, budget),
    }
}

/// The first fault of encoding `entries` as the pairs of an object.
pub open spec fn node_entries_fault_of(entries: Entries, budget: nat) -> Option<Fault>
    decreases entries, 1int,
{
    if entries.len() == 0 {
        None
    } else if budget == 0 {
        Some(Fault::RecursionLimitExceeded)
    } else {
        match node_values_fault_of(entries[0].1, (budget - 1) as nat) {
            Some(fault) => Some(fault),
            None => node_entries_fault_of(entries.drop_first(), budget),
        }
    }
}

/// The first fault of encoding `values` as the values of one key.
pub open spec fn node_values_fault_of(values: Seq<Node>, budget: nat) -> Option<Fault>
    decreases values, 1int,
{
    if values.len() == 0 {
        None
    } else if budget == 0 {
        Some(Fault::RecursionLimitExceeded)
    } else {
        match node_fault_of(values[0], (budget - 1) as nat) {
            Some(fault) => Some(fault),
            None => node_values_fault_of(values.drop_first(), budget),
        }
    }
}

/// Whether `res` fails exactly where `fault` is one, and with it.
pub open spec fn fails_with<T>(res: Result<T, Error>, fault: Option<Fault>) -> bool {
    match fault {
        Some(expected) => res matches Err(e) && e@ == expected,
        None => res is Ok,
    }
}

/// How an error that was found relates to the fault of a value.
pub open spec fn found(res: Option<Error>, fault: Option<Fault>) -> bool {
    match fault {
        Some(expected) => res matches Some(e) && e@ == expected,
        None => res is None,
    }
}

/// The fault of encoding `data` within `budget` levels, if there is one.
pub fn find_fault(standing: Standing, data: &Data, budget: u16) -> (res: Option<Error>)
    ensures
        found(res, fault_of(standing, *data, budget as nat)),
    decreases data, 0int,
{
    match data {
        Data::Present(inner) => find_nested_fault(standing, inner, budget),
        Data::NewtypeStruct(inner) => find_nested_fault(standing, inner, budget),
        Data::Sequence(items) => find_sequence_fault(standing, items, budget),
        Data::Tuple(items) => find_sequence_fault(standing, items, budget),
        Data::TupleStruct(items) => find_sequence_fault(standing, items, budget),
        Data::Mapping(entries) => find_entries_fault(entries, budget),
        Data::Struct(fields) => find_fields_fault(fields, budget),
        Data::NewtypeVariant(_, inner) => find_nested_fault(standing, inner, budget),
        Data::TupleVariant(_, items) => {
            if budget == 0 {
                Some(Error::RecursionLimitExceeded)
            } else {
                find_sequence_fault(Standing::Keyed, items, budget - 1)
            }
        },
        Data::StructVariant(_, fields) => {
            if budget == 0 {
                Some(Error::RecursionLimitExceeded)
            } else {
                find_fields_fault(fields, budget - 1)
            }
        },
        Data::WideSigned(_) => Some(Error::UnsupportedType(copy_str("i128"))),
        Data::WideUnsigned(_) => Some(Error::UnsupportedType(copy_str("u128"))),
        Data::Bytes(_) => Some(Error::UnsupportedType(copy_str("bytes"))),
        Data::Float(x) => {
            if finite_bits(x.bits) {
                None
            } else {
                Some(Error::NonFiniteFloat(x.bits))
            }
        },
        _ => None,
    }
}

/// The fault of encoding `data` one level below, if there is one.
fn find_nested_fault(standing: Standing, data: &Data, budget: u16) -> (res: Option<Error>)
    ensures
        found(res, nested_fault_of(standing, *data, budget as nat)),
    decreases data, 1int,
{
    if budget == 0 {
        Some(Error::RecursionLimitExceeded)
    } else {
        find_fault(standing, data, budget - 1)
    }
}

/// The fault of encoding a sequence of `items`, if there is one.
fn find_sequence_fault(standing: Standing, items: &Vec<Data>, budget: u16) -> (res: Option<Error>)
    ensures
        found(res, sequence_fault_of(standing, items@, budget as nat)),
    decreases items, 2int,
{
    match standing {
        Standing::Root => Some(Error::RootLevelSequence),
        Standing::Element => Some(Error::NestedSequence),
        Standing::Keyed => {
            let mut i: usize = 0;
            assert(items@.skip(0) =~= items@);
            while i < items.len()
                invariant
                    i <= items.len(),
                    standing == Standing::Keyed,
                    elements_fault_of(items@, budget as nat) == elements_fault_of(
                        items@.skip(i as int),
                        budget as nat,
                    ),
                decreases items.len() - i,
            {
                proof {
                    assert(items@.skip(i as int)[0] == items@[i as int]);
                    assert(items@.skip(i as int).drop_first() =~= items@.skip(i + 1));
                }
                match find_nested_fault(Standing::Element, &items[i], budget) {
                    Some(e) => {
                        return Some(e);
                    },
                    None => {},
                }
                i += 1;
            }
            None
        },
    }
}

/// The first fault of encoding `fields`, if there is one.
fn find_fields_fault(fields: &Vec<(String, Data)>, budget: u16) -> (res: Option<Error>)
    ensures
        found(res, fields_fault_of(fields@, budget as nat)),
    decreases fields, 2int,
{
    let mut i: usize = 0;
    assert(fields@.skip(0) =~= fields@);
    while i < fields.len()
        invariant
            i <= fields.len(),
            fields_fault_of(fields@, budget as nat) == fields_fault_of(
                fields@.skip(i as int),
                budget as nat,
            ),
        decreases fields.len() - i,
    {
        proof {
            assert(fields@.skip(i as int)[0] == fields@[i as int]);
            assert(fields@.skip(i as int).drop_first() =~= fields@.skip(i + 1));
        }
        match find_nested_fault(Standing::Keyed, &fields[i].1, budget) {
            Some(e) => {
                return Some(e);
            },
            None => {},
        }
        i += 1;
    }
    None
}

/// The first fault of encoding `entries`, if there is one.
fn find_entries_fault(entries: &Vec<(Data, Data)>, budget: u16) -> (res: Option<Error>)
    ensures
        found(res, entries_fault_of(entries@, budget as nat)),
    decreases entries, 2int,
{
    let mut i: usize = 0;
    assert(entries@.skip(0) =~= entries@);
    while i < entries.len()
        invariant
            i <= entries.len(),
            entries_fault_of(entries@, budget as nat) == entries_fault_of(
                entries@.skip(i as int),
                budget as nat,
            ),
        decreases entries.len() - i,
    {
        proof {
            assert(entries@.skip(i as int)[0] == entries@[i as int]);
            assert(entries@.skip(i as int).drop_first() =~= entries@.skip(i + 1));
        }
        match key_string(&entries[i].0) {
            Ok(_) => {},
            Err(e) => {
                return Some(e);
            },
        }
        match find_nested_fault(Standing::Keyed, &entries[i].1, budget) {
            Some(e) => {
                return Some(e);
            },
            None => {},
        }
        i += 1;
    }
    None
}

/// The fault of encoding the tree `value` within `budget` levels, if there
/// is one.
pub fn find_tree_fault(value: &Value, budget: u16) -> (res: Option<Error>)
    ensures
        found(res, node_fault_of(value@, budget as nat)),
    decreases height(value@), 3int,
{
    match value {
        Value::String(_) => None,
        Value::Object(object) => find_object_fault(object, budget),
    }
}

/// The fault of encoding `object` within `budget` levels, if there is one.
pub fn find_object_fault(object: &Object, budget: u16) -> (res: Option<Error>)
    ensures
        found(res, node_entries_fault_of(object@, budget as nat)),
    decreases height(Node::Object(object@)), 2int,
{
    let mut i: usize = 0;
    assert(object@.skip(0) =~= object@);
    while i < object.len()
        invariant
            i <= object@.len(),
            node_entries_fault_of(object@, budget as nat) == node_entries_fault_of(
                object@.skip(i as int),
                budget as nat,
            ),
        decreases object@.len() - i,
    {
        proof {
            assert(object@.skip(i as int)[0] == object@[i as int]);
            assert(object@.skip(i as int).drop_first() =~= object@.skip(i + 1));
        }
        if budget == 0 {
            return Some(Error::RecursionLimitExceeded);
        }
        match find_values_fault(
            object.values_at(i),
            budget - 1,
            Ghost(object@),
            Ghost(i as int),
        ) {
            Some(e) => {
                return Some(e);
            },
            None => {},
        }
        i += 1;
    }
    None
}

/// The first fault of encoding `values`, which stand at place `at` of
/// `entries`, if there is one.
fn find_values_fault(
    values: &Vec<Value>,
    budget: u16,
    Ghost(entries): Ghost<Entries>,
    Ghost(at): Ghost<int>,
) -> (res: Option<Error>)
    requires
        0 <= at < entries.len(),
        nodes_of(values@) == entries[at].1,
    ensures
        found(res, node_values_fault_of(nodes_of(values@), budget as nat)),
    decreases height(Node::Object(entries)), 1int,
{
    let mut i: usize = 0;
    assert(nodes_of(values@).skip(0) =~= nodes_of(values@));
    while i < values.len()
        invariant
            i <= values.len(),
            0 <= at < entries.len(),
            nodes_of(values@) == entries[at].1,
            node_values_fault_of(nodes_of(values@), budget as nat) == node_values_fault_of(
                nodes_of(values@).skip(i as int),
                budget as nat,
            ),
        decreases values.len() - i,
    {
        proof {
            assert(nodes_of(values@).skip(i as int)[0] == values@[i as int]@);
            assert(nodes_of(values@).skip(i as int).drop_first() =~= nodes_of(values@).skip(
                i + 1,
            ));
            assert(nodes_of(values@)[i as int] == values@[i as int]@);
            member_is_lower(entries, at, i as int);
        }
        if budget == 0 {
            return Some(Error::RecursionLimitExceeded);
        }
        match find_tree_fault(&values[i], budget - 1) {
            Some(e) => {
                return Some(e);
            },
            None => {},
        }
        i += 1;
    }
    None
}

} // verus!
