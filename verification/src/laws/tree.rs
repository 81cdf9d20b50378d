//! The tree that a value stands for is the tree that is read from its
//! text.

use crate::data::{Data, DataView};
use crate::de::{flattened_value, nested_value};
use crate::de::mapper::{Shape, UnknownFields};
use crate::de::parser::parse_text;
use crate::error::Fault;
use crate::laws::conformance::{
    case_of, conforms, items_conform_at, mapping_conforms_at, record_conforms_at,
    tuple_conforms_at,
};
use crate::laws::raising::{single_slot, value_reads_back};
use crate::laws::reading::{entries_readable, pushed_values_new_key, readable, text_reads_back};
use crate::laws::typed::{lowered_is_wf, typed_document_is_entries_text};
use crate::ser::document;
use crate::ser::formatter::{PrettyFormatter, Style, pretty_start};
use crate::ser::lowering::{
    entry_of, key_of, lower, lower_fields, lower_items, lower_mapping, root_entries, root_of,
    tree_of, tree_of_fields, tree_of_items, tree_of_mapping, tree_under_one_key,
};
use crate::value::{
    Entries, Node, distinct_keys, entries_wf, node_wf, position_from_is_first, position_of,
    pushed_values,
};
use vstd::prelude::*;

verus! {

/// Values given under a key that stands nowhere, in entries whose keys
/// differ, come behind the entries as the entry of the key; no values
/// change nothing.
pub proof fn pushed_values_are_an_entry(acc: Entries, key: Seq<char>, values: Seq<Node>)
    requires
        distinct_keys(acc + entry_of(key, values)),
    ensures
        pushed_values(acc, key, values) == acc + entry_of(key, values),
{
    if values.len() == 0 {
        assert(acc + entry_of(key, values) =~= acc);
    } else {
        let all = acc + entry_of(key, values);
        position_from_is_first(acc, key, 0);
        let at = position_of(acc, key);
        if at < acc.len() {
            assert(all[at] == acc[at]);
            assert(all[acc.len() as int] == (key, values));
            assert(false);
        }
        pushed_values_new_key(acc, key, values);
        assert(acc.push((key, values)) =~= all);
    }
}

/// Where no key comes twice, the items of a sequence stand for the same
/// values as they are written and as they are read.
pub proof fn items_tree_is_lowered(items: Seq<Data>)
    requires
        forall|k: int| 0 <= k < items.len() ==> #[trigger] tree_of(items[k]) == lower(items[k]),
    ensures
        tree_of_items(items) == lower_items(items),
    decreases items.len(),
{
    if items.len() > 0 {
        let rest = items.drop_first();
        assert forall|k: int| 0 <= k < rest.len() implies #[trigger] tree_of(rest[k]) == lower(
            rest[k],
        ) by {
            assert(rest[k] == items[k + 1]);
        }
        items_tree_is_lowered(rest);
        assert(tree_of(items[0]) == lower(items[0]));
    }
}

/// Where no key comes twice, the fields of a record stand for the same
/// entries as they are written and as they are read.
pub proof fn fields_tree_is_lowered(fields: Seq<(String, Data)>, acc: Entries)
    requires
        forall|k: int| 0 <= k < fields.len() ==> #[trigger] tree_of(fields[k].1) == lower(
            fields[k].1,
        ),
        distinct_keys(acc + lower_fields(fields)),
    ensures
        tree_of_fields(fields, acc) == acc + lower_fields(fields),
    decreases fields.len(),
{
    if fields.len() == 0 {
        assert(acc + lower_fields(fields) =~= acc);
    } else {
        let rest = fields.drop_first();
        let first = entry_of(fields[0].0@, lower(fields[0].1));
        let behind = lower_fields(rest);
        let all = acc + lower_fields(fields);
        assert(all =~= (acc + first) + behind);
        assert(distinct_keys(acc + first)) by {
            assert forall|i: int, j: int| 0 <= i < j < (acc + first).len() implies (#[trigger] (acc
                + first)[i]).0 != (#[trigger] (acc + first)[j]).0 by {
                assert((acc + first)[i] == all[i]);
                assert((acc + first)[j] == all[j]);
            }
        }
        assert(tree_of(fields[0].1) == lower(fields[0].1));
        pushed_values_are_an_entry(acc, fields[0].0@, lower(fields[0].1));
        assert forall|k: int| 0 <= k < rest.len() implies #[trigger] tree_of(rest[k].1) == lower(
            rest[k].1,
        ) by {
            assert(rest[k] == fields[k + 1]);
        }
        fields_tree_is_lowered(rest, acc + first);
    }
}

/// Where no key comes twice, the pairs of a map stand for the same entries
/// as they are written and as they are read.
pub proof fn mapping_tree_is_lowered(entries: Seq<(Data, Data)>, acc: Entries)
    requires
        forall|k: int| 0 <= k < entries.len() ==> #[trigger] tree_of(entries[k].1) == lower(
            entries[k].1,
        ),
        distinct_keys(acc + lower_mapping(entries)),
    ensures
        tree_of_mapping(entries, acc) == acc + lower_mapping(entries),
    decreases entries.len(),
{
    if entries.len() == 0 {
        assert(acc + lower_mapping(entries) =~= acc);
    } else {
        let rest = entries.drop_first();
        let first = entry_of(key_of(entries[0].0), lower(entries[0].1));
        let behind = lower_mapping(rest);
        let all = acc + lower_mapping(entries);
        assert(all =~= (acc + first) + behind);
        assert(distinct_keys(acc + first)) by {
            assert forall|i: int, j: int| 0 <= i < j < (acc + first).len() implies (#[trigger] (acc
                + first)[i]).0 != (#[trigger] (acc + first)[j]).0 by {
                assert((acc + first)[i] == all[i]);
                assert((acc + first)[j] == all[j]);
            }
        }
        assert(tree_of(entries[0].1) == lower(entries[0].1));
        pushed_values_are_an_entry(acc, key_of(entries[0].0), lower(entries[0].1));
        assert forall|k: int| 0 <= k < rest.len() implies #[trigger] tree_of(rest[k].1) == lower(
            rest[k].1,
        ) by {
            assert(rest[k] == entries[k + 1]);
        }
        mapping_tree_is_lowered(rest, acc + first);
    }
}

/// A value that has its shape stands for the same values as it is written
/// and as it is read.
pub proof fn tree_is_lowered(shape: Shape, data: Data)
    requires
        conforms(shape, data),
    ensures
        tree_of(data) == lower(data),
    decreases data, 0int,
{
    let none: Entries = Seq::empty();
    match data {
        Data::Present(inner) => {
            tree_is_lowered(*shape->Optional_0, *inner);
        },
        Data::NewtypeStruct(inner) => {
            tree_is_lowered(*shape->Newtype_0, *inner);
        },
        Data::Sequence(items) => {
            let item = *shape->Sequence_0;
            assert forall|k: int| 0 <= k < items@.len() implies #[trigger] tree_of(items@[k])
                == lower(items@[k]) by {
                items_conform_at(item, items@, 0, k);
                tree_is_lowered(item, items@[k]);
            }
            items_tree_is_lowered(items@);
        },
        Data::Tuple(items) => {
            let shapes = shape->Tuple_0;
            assert forall|k: int| 0 <= k < items@.len() implies #[trigger] tree_of(items@[k])
                == lower(items@[k]) by {
                tuple_conforms_at(shapes@, items@, 0, k);
                tree_is_lowered(shapes@[k], items@[k]);
            }
            items_tree_is_lowered(items@);
        },
        Data::TupleStruct(items) => {
            let shapes = shape->TupleStruct_0;
            assert forall|k: int| 0 <= k < items@.len() implies #[trigger] tree_of(items@[k])
                == lower(items@[k]) by {
                tuple_conforms_at(shapes@, items@, 0, k);
                tree_is_lowered(shapes@[k], items@[k]);
            }
            items_tree_is_lowered(items@);
        },
        Data::Mapping(entries) => {
            let key = *shape->Mapping_0;
            let value = *shape->Mapping_1;
            assert forall|k: int| 0 <= k < entries@.len() implies #[trigger] tree_of(
                entries@[k].1,
            ) == lower(entries@[k].1) by {
                mapping_conforms_at(key, value, entries@, 0, k);
                tree_is_lowered(value, entries@[k].1);
            }
            lowered_is_wf(shape, data);
            assert(lower(data)[0] == Node::Object(lower_mapping(entries@)));
            assert(none + lower_mapping(entries@) =~= lower_mapping(entries@));
            mapping_tree_is_lowered(entries@, none);
        },
        Data::Struct(values) => {
            let fields = shape->Struct_0;
            assert forall|k: int| 0 <= k < values@.len() implies #[trigger] tree_of(values@[k].1)
                == lower(values@[k].1) by {
                record_conforms_at(fields@, values@, 0, k);
                tree_is_lowered(fields@[k].shape, values@[k].1);
            }
            lowered_is_wf(shape, data);
            assert(lower(data)[0] == Node::Object(lower_fields(values@)));
            assert(none + lower_fields(values@) =~= lower_fields(values@));
            fields_tree_is_lowered(values@, none);
        },
        Data::TupleVariant(name, items) => {
            let shapes = case_of(shape->Enum_0@, name@)->Some_0->Tuple_0;
            assert forall|k: int| 0 <= k < items@.len() implies #[trigger] tree_of(items@[k])
                == lower(items@[k]) by {
                tuple_conforms_at(shapes@, items@, 0, k);
                tree_is_lowered(shapes@[k], items@[k]);
            }
            items_tree_is_lowered(items@);
            tree_under_one_key(name@, lower_items(items@));
        },
        Data::StructVariant(name, values) => {
            let fields = case_of(shape->Enum_0@, name@)->Some_0->Struct_0;
            assert forall|k: int| 0 <= k < values@.len() implies #[trigger] tree_of(values@[k].1)
                == lower(values@[k].1) by {
                record_conforms_at(fields@, values@, 0, k);
                tree_is_lowered(fields@[k].shape, values@[k].1);
            }
            lowered_is_wf(shape, data);
            let inner = Node::Object(lower_fields(values@));
            let outer = seq![(name@, seq![inner])];
            assert(lower(data)[0] == Node::Object(outer));
            assert(node_wf(lower(data)[0]));
            assert(entries_wf(outer));
            assert(outer[0].1[0] == inner);
            assert(node_wf(outer[0].1[0]));
            assert(entries_wf(lower_fields(values@)));
            assert(none + lower_fields(values@) =~= lower_fields(values@));
            fields_tree_is_lowered(values@, none);
            tree_under_one_key(name@, seq![inner]);
            crate::ser::lowering::pushed_values_single(none, name@, inner);
        },
        _ => {},
    }
}

/// The document that a record or a map stands for is what is read from its
/// text: where a value that has its shape is encoded as a document through
/// a [`PrettyFormatter`], in a style whose indent and separator are white
/// space, the text reads as the document that the value stands for.
pub proof fn text_reads_as_the_document(
    style: Style,
    shape: Shape,
    data: Data,
    depth_limit: nat,
    nesting_limit: nat,
)
    requires
        readable(style),
        conforms(shape, data),
        data is Struct || data is Mapping,
        entries_readable(style, root_entries(data)),
        depth_limit <= nesting_limit,
    ensures
        root_of(data) == Some(root_entries(data)),
        document::<PrettyFormatter>(pretty_start(style), data, depth_limit) matches Ok(text)
            ==> parse_text(text, nesting_limit) == Ok::<Entries, Fault>(root_entries(data)),
{
    tree_is_lowered(shape, data);
    assert(lower(data) =~= seq![Node::Object(root_entries(data))]);
    if document::<PrettyFormatter>(pretty_start(style), data, depth_limit) is Ok {
        typed_document_is_entries_text(style, data, depth_limit);
        lowered_is_wf(shape, data);
        assert(lower(data)[0] == Node::Object(root_entries(data)));
        text_reads_back(style, root_entries(data), nesting_limit);
    }
}

/// Round trip through the tree: the document that a record or a map of a
/// shape stands for is decoded as that value.
pub proof fn document_round_trip_of_values(shape: Shape, data: Data, policy: UnknownFields)
    requires
        conforms(shape, data),
        data is Struct || data is Mapping,
    ensures
        root_of(data) matches Some(entries) && flattened_value(shape, entries, policy) == Ok::<
            DataView,
            Fault,
        >(data@),
{
    let path: Seq<Seq<char>> = Seq::empty();
    tree_is_lowered(shape, data);
    assert(lower(data) =~= seq![Node::Object(root_entries(data))]);
    value_reads_back(shape, data, path, policy);
    single_slot(shape, Node::Object(root_entries(data)), path, policy);
}

/// Round trip through the tree under a root key: the document that a value
/// of a shape stands for under a root key, where it stands for at least one
/// value, is decoded as that key and that value.
pub proof fn keyed_document_round_trip_of_values(
    shape: Shape,
    key: Seq<char>,
    data: Data,
    policy: UnknownFields,
)
    requires
        conforms(shape, data),
        lower(data).len() > 0,
    ensures
        nested_value(shape, entry_of(key, tree_of(data)), policy) == Ok::<
            (Seq<char>, DataView),
            Fault,
        >((key, data@)),
{
    tree_is_lowered(shape, data);
    value_reads_back(shape, data, seq![key], policy);
    let entries = entry_of(key, lower(data));
    assert(entries[0] == (key, lower(data)));
}

} // verus!
