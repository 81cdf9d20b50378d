//! Round trip of described values: what is encoded is decoded as it was.

use crate::data::{Data, DataView, key_text};
use crate::de::{DecodeOpts, flattened_text_value, nested_text_value};
use crate::de::mapper::{Field, Shape};
use crate::error::Fault;
use crate::laws::conformance::{
    conforms, distinct_names, items_conform_at, lower_mapping_is_full, lowered_entry_is_field,
    mapping_conforms_at, record_conforms, record_conforms_at, tuple_conforms_at,
};
use crate::laws::lowering::{
    entry_text, fields_are_entries_text, mapping_is_entries_text, nested_is_values_text,
};
use crate::laws::raising::{single_slot, value_reads_back};
use crate::laws::reading::{
    all_quoted, default_style_is_readable, entries_readable, quoted_entries_are_readable,
    readable, text_reads_back,
};
use crate::laws::rendering::depth_after_push;
use crate::ser::{document, keyed_document};
use crate::ser::formatter::{
    ElementKind, Formatter, PrettyFormatter, Style, default_style, objects_in, pretty_start,
};
use crate::ser::layout::entries_text;
use crate::ser::lowering::{
    entry_of, key_of, lower, lower_fields, lower_items, lower_mapping, root_entries,
};
use crate::ser::serializer::{
    Place, Written, encode, encode_elements, encode_entries, encode_fields, encode_nested,
    encode_sequence, object_begun, object_ended, start,
};
use crate::value::{Entries, Node, entries_height, entries_wf, height, node_wf, values_height};
use vstd::prelude::*;

verus! {

/// Whether each of `nodes` is well formed.
pub open spec fn nodes_wf(nodes: Seq<Node>) -> bool {
    forall|k: int| 0 <= k < nodes.len() ==> node_wf(#[trigger] nodes[k])
}

/// The values that a value of a shape stands for are well formed.
pub proof fn lowered_is_wf(shape: Shape, data: Data)
    requires
        conforms(shape, data),
    ensures
        nodes_wf(lower(data)),
    decreases data, 1int, 0int,
{
    match data {
        Data::Present(inner) => {
            lowered_is_wf(*shape->Optional_0, *inner);
        },
        Data::NewtypeStruct(inner) => {
            lowered_is_wf(*shape->Newtype_0, *inner);
        },
        Data::Sequence(items) => {
            let item = *shape->Sequence_0;
            assert forall|k: int| 0 <= k < items@.len() implies nodes_wf(
                #[trigger] lower(items@[k]),
            ) by {
                items_conform_at(item, items@, 0, k);
                lowered_is_wf(item, items@[k]);
            }
            lowered_items_are_wf(items@);
        },
        Data::Tuple(items) => {
            let shapes = shape->Tuple_0;
            assert forall|k: int| 0 <= k < items@.len() implies nodes_wf(
                #[trigger] lower(items@[k]),
            ) by {
                tuple_conforms_at(shapes@, items@, 0, k);
                lowered_is_wf(shapes@[k], items@[k]);
            }
            lowered_items_are_wf(items@);
        },
        Data::TupleStruct(items) => {
            let shapes = shape->TupleStruct_0;
            assert forall|k: int| 0 <= k < items@.len() implies nodes_wf(
                #[trigger] lower(items@[k]),
            ) by {
                tuple_conforms_at(shapes@, items@, 0, k);
                lowered_is_wf(shapes@[k], items@[k]);
            }
            lowered_items_are_wf(items@);
        },
        Data::Mapping(entries) => {
            let key = *shape->Mapping_0;
            let value = *shape->Mapping_1;
            let lowered = lower_mapping(entries@);
            assert forall|k: int| 0 <= k < entries@.len() implies (#[trigger] lower(
                entries@[k].1,
            )).len() > 0 && nodes_wf(lower(entries@[k].1)) by {
                mapping_conforms_at(key, value, entries@, 0, k);
                lowered_is_wf(value, entries@[k].1);
            }
            lower_mapping_is_full(entries@);
            assert(entries_wf(lowered)) by {
                assert forall|i: int, j: int| 0 <= i < j < lowered.len() implies (
                #[trigger] lowered[i]).0 != (#[trigger] lowered[j]).0 by {
                    assert(lowered[i] == (key_of(entries@[i].0), lower(entries@[i].1)));
                    assert(lowered[j] == (key_of(entries@[j].0), lower(entries@[j].1)));
                }
                assert forall|i: int| 0 <= i < lowered.len() implies (#[trigger] lowered[i]).1.len()
                    > 0 by {
                    assert(lowered[i] == (key_of(entries@[i].0), lower(entries@[i].1)));
                }
                assert forall|i: int, j: int|
                    0 <= i < lowered.len() && 0 <= j < lowered[i].1.len() implies node_wf(
                    #[trigger] lowered[i].1[j],
                ) by {
                    assert(lowered[i] == (key_of(entries@[i].0), lower(entries@[i].1)));
                    assert(nodes_wf(lower(entries@[i].1)));
                }
            }
        },
        Data::Struct(values) => {
            lowered_record_is_wf(shape->Struct_0@, values@);
        },
        Data::TupleVariant(name, items) => {
            let shapes = crate::laws::conformance::case_of(shape->Enum_0@, name@)->Some_0->Tuple_0;
            assert forall|k: int| 0 <= k < items@.len() implies nodes_wf(
                #[trigger] lower(items@[k]),
            ) by {
                tuple_conforms_at(shapes@, items@, 0, k);
                lowered_is_wf(shapes@[k], items@[k]);
            }
            lowered_items_are_wf(items@);
            single_entry_is_wf(name@, lower_items(items@));
        },
        Data::StructVariant(name, values) => {
            let fields = crate::laws::conformance::case_of(shape->Enum_0@, name@)->Some_0->Struct_0;
            lowered_record_is_wf(fields@, values@);
            let held = seq![Node::Object(lower_fields(values@))];
            assert(nodes_wf(held));
            let entries = seq![(name@, held)];
            assert(entries_wf(entries));
        },
        _ => {},
    }
}

/// The one entry of a key with well-formed values, or no entry, is well
/// formed.
pub proof fn single_entry_is_wf(key: Seq<char>, values: Seq<Node>)
    requires
        nodes_wf(values),
    ensures
        entries_wf(entry_of(key, values)),
{
}

/// The values that items stand for are well formed where those of each item
/// are.
pub proof fn lowered_items_are_wf(items: Seq<Data>)
    requires
        forall|k: int| 0 <= k < items.len() ==> nodes_wf(#[trigger] lower(items[k])),
    ensures
        nodes_wf(lower_items(items)),
    decreases items.len(),
{
    if items.len() > 0 {
        let rest = items.drop_first();
        assert forall|k: int| 0 <= k < rest.len() implies nodes_wf(#[trigger] lower(rest[k])) by {
            assert(rest[k] == items[k + 1]);
        }
        lowered_items_are_wf(rest);
        let first = lower(items[0]);
        let all = lower_items(items);
        assert(nodes_wf(first));
        assert forall|k: int| 0 <= k < all.len() implies node_wf(#[trigger] all[k]) by {
            if k < first.len() {
                assert(all[k] == first[k]);
            } else {
                assert(all[k] == lower_items(rest)[k - first.len()]);
            }
        }
    }
}

/// The entries that the values of a record stand for are well formed.
pub proof fn lowered_record_is_wf(fields: Seq<Field>, values: Seq<(String, Data)>)
    requires
        fields.len() == values.len(),
        distinct_names(values),
        record_conforms(fields, values, 0),
    ensures
        entries_wf(lower_fields(values)),
    decreases values, 0int, values.len() + 1,
{
    let lowered = lower_fields(values);
    assert forall|a: int, b: int| 0 <= a < b < lowered.len() implies (#[trigger] lowered[a]).0 != (
    #[trigger] lowered[b]).0 by {
        lowered_keys_differ(values, a, b);
    }
    assert forall|a: int| 0 <= a < lowered.len() implies (#[trigger] lowered[a]).1.len() > 0 by {
        let i = lowered_entry_is_field(values, a);
    }
    assert forall|a: int, b: int|
        0 <= a < lowered.len() && 0 <= b < lowered[a].1.len() implies node_wf(
        #[trigger] lowered[a].1[b],
    ) by {
        let i = lowered_entry_is_field(values, a);
        record_conforms_at(fields, values, 0, i);
        lowered_is_wf(fields[i].shape, values[i].1);
    }
}

/// Two entries that the values of a record stand for have different keys.
pub proof fn lowered_keys_differ(values: Seq<(String, Data)>, a: int, b: int)
    requires
        distinct_names(values),
        0 <= a < b < lower_fields(values).len(),
    ensures
        lower_fields(values)[a].0 != lower_fields(values)[b].0,
    decreases values.len(),
{
    let first = entry_of(values[0].0@, lower(values[0].1));
    let rest = values.drop_first();
    let behind = lower_fields(rest);
    let lowered = lower_fields(values);
    assert(lowered == first + behind);
    assert(distinct_names(rest)) by {
        assert forall|i: int, j: int| 0 <= i < j < rest.len() implies (#[trigger] rest[i]).0@ != (
        #[trigger] rest[j]).0@ by {
            assert(rest[i] == values[i + 1]);
            assert(rest[j] == values[j + 1]);
        }
    }
    if a < first.len() {
        let i = lowered_entry_is_field(rest, b - first.len());
        assert(rest[i] == values[i + 1]);
        assert(lowered[b] == behind[b - first.len()]);
        assert(lowered[a] == first[a]);
    } else {
        lowered_keys_differ(rest, a - first.len(), b - first.len());
        assert(lowered[a] == behind[a - first.len()]);
        assert(lowered[b] == behind[b - first.len()]);
    }
}

/// The greater of two numbers.
pub open spec fn greater(a: nat, b: nat) -> nat {
    if a >= b {
        a
    } else {
        b
    }
}

/// The height of values that come one after the other is the greater of
/// their heights.
pub proof fn values_height_concat(a: Seq<Node>, b: Seq<Node>)
    ensures
        values_height(a + b) == greater(values_height(a), values_height(b)),
    decreases a.len(),
{
    if a.len() == 0 {
        assert(a + b =~= b);
    } else {
        assert((a + b).drop_first() =~= a.drop_first() + b);
        assert((a + b)[0] == a[0]);
        values_height_concat(a.drop_first(), b);
    }
}

/// The height of entries that come one after the other is the greater of
/// their heights.
pub proof fn entries_height_concat(a: Entries, b: Entries)
    ensures
        entries_height(a + b) == greater(entries_height(a), entries_height(b)),
    decreases a.len(),
{
    if a.len() == 0 {
        assert(a + b =~= b);
    } else {
        assert((a + b).drop_first() =~= a.drop_first() + b);
        assert((a + b)[0] == a[0]);
        entries_height_concat(a.drop_first(), b);
    }
}

/// The height of one value, and that of the entry of a key.
pub proof fn single_heights(key: Seq<char>, node: Node, values: Seq<Node>)
    ensures
        values_height(seq![node]) == height(node),
        entries_height(entry_of(key, values)) == values_height(values),
{
    let one = seq![node];
    assert(one.drop_first() =~= Seq::<Node>::empty());
    assert(values_height(one.drop_first()) == 0);
    if values.len() > 0 {
        let entries = seq![(key, values)];
        assert(entries.drop_first() =~= Seq::<(Seq<char>, Seq<Node>)>::empty());
        assert(entries_height(entries.drop_first()) == 0);
    }
}

/// What a value that is encoded within a budget of levels stands for is at
/// most one higher than the budget.
pub proof fn encoded_value_height<F: Formatter>(
    w: Written<F::State>,
    place: Place,
    data: Data,
    budget: nat,
)
    requires
        encode::<F>(w, place, data, budget) is Ok,
    ensures
        values_height(lower(data)) <= budget + 1,
    decreases data, 0int,
{
    let begun = object_begun::<F>(w, place);
    match data {
        Data::Present(inner) => {
            encoded_nested_height::<F>(w, place, *inner, budget);
        },
        Data::NewtypeStruct(inner) => {
            encoded_nested_height::<F>(w, place, *inner, budget);
        },
        Data::Sequence(items) => {
            encoded_sequence_height::<F>(w, place, items@, budget);
        },
        Data::Tuple(items) => {
            encoded_sequence_height::<F>(w, place, items@, budget);
        },
        Data::TupleStruct(items) => {
            encoded_sequence_height::<F>(w, place, items@, budget);
        },
        Data::Mapping(entries) => {
            encoded_mapping_height::<F>(begun, entries@, budget);
            single_heights(Seq::empty(), Node::Object(lower_mapping(entries@)), Seq::empty());
        },
        Data::Struct(fields) => {
            encoded_fields_height::<F>(begun, fields@, budget);
            single_heights(Seq::empty(), Node::Object(lower_fields(fields@)), Seq::empty());
        },
        Data::NewtypeVariant(_, inner) => {
            encoded_nested_height::<F>(w, place, *inner, budget);
        },
        Data::TupleVariant(name, items) => {
            encoded_sequence_height::<F>(
                begun,
                Place::BoundKey(name@),
                items@,
                (budget - 1) as nat,
            );
            let entries = entry_of(name@, lower_items(items@));
            single_heights(name@, Node::Object(entries), lower_items(items@));
        },
        Data::StructVariant(name, fields) => {
            let inner = object_begun::<F>(begun, Place::BoundKey(name@));
            encoded_fields_height::<F>(inner, fields@, (budget - 1) as nat);
            let held = seq![Node::Object(lower_fields(fields@))];
            single_heights(name@, Node::Object(lower_fields(fields@)), held);
            let entries = seq![(name@, held)];
            assert(entries == entry_of(name@, held));
            single_heights(name@, Node::Object(entries), held);
        },
        _ => {
            match crate::data::scalar_of(data) {
                crate::data::Scalar::Text(text) => {
                    single_heights(Seq::empty(), Node::Text(text), Seq::empty());
                },
                _ => {},
            }
        },
    }
}

/// What a value that is encoded one level below stands for is at most as
/// high as the budget.
pub proof fn encoded_nested_height<F: Formatter>(
    w: Written<F::State>,
    place: Place,
    data: Data,
    budget: nat,
)
    requires
        encode_nested::<F>(w, place, data, budget) is Ok,
    ensures
        values_height(lower(data)) <= budget,
    decreases data, 1int,
{
    encoded_value_height::<F>(w, place, data, (budget - 1) as nat);
}

/// What a sequence that is encoded within a budget stands for is at most
/// as high as the budget.
pub proof fn encoded_sequence_height<F: Formatter>(
    w: Written<F::State>,
    place: Place,
    items: Seq<Data>,
    budget: nat,
)
    requires
        encode_sequence::<F>(w, place, items, budget) is Ok,
    ensures
        values_height(lower_items(items)) <= budget,
    decreases items, 2int,
{
    match place {
        Place::BoundKey(key) => {
            encoded_elements_height::<F>(w, key, items, budget);
        },
        _ => {},
    }
}

/// What the items of a sequence that are encoded within a budget stand for
/// is at most as high as the budget.
pub proof fn encoded_elements_height<F: Formatter>(
    w: Written<F::State>,
    key: Seq<char>,
    items: Seq<Data>,
    budget: nat,
)
    requires
        encode_elements::<F>(w, key, items, budget) is Ok,
    ensures
        values_height(lower_items(items)) <= budget,
    decreases items, 1int,
{
    if items.len() > 0 {
        encoded_nested_height::<F>(w, Place::InSequence(key), items[0], budget);
        let w1 = encode_nested::<F>(w, Place::InSequence(key), items[0], budget)->Ok_0;
        encoded_elements_height::<F>(w1, key, items.drop_first(), budget);
        values_height_concat(lower(items[0]), lower_items(items.drop_first()));
    }
}

/// What the fields of a record that are encoded within a budget stand for
/// is at most as high as the budget.
pub proof fn encoded_fields_height<F: Formatter>(
    w: Written<F::State>,
    fields: Seq<(String, Data)>,
    budget: nat,
)
    requires
        encode_fields::<F>(w, fields, budget) is Ok,
    ensures
        entries_height(lower_fields(fields)) <= budget,
    decreases fields, 1int,
{
    if fields.len() > 0 {
        let name = fields[0].0@;
        encoded_nested_height::<F>(w, Place::BoundKey(name), fields[0].1, budget);
        let w1 = encode_nested::<F>(w, Place::BoundKey(name), fields[0].1, budget)->Ok_0;
        encoded_fields_height::<F>(w1, fields.drop_first(), budget);
        single_heights(name, Node::Text(Seq::empty()), lower(fields[0].1));
        entries_height_concat(
            entry_of(name, lower(fields[0].1)),
            lower_fields(fields.drop_first()),
        );
    }
}

/// What the pairs of a map that are encoded within a budget stand for is
/// at most as high as the budget.
pub proof fn encoded_mapping_height<F: Formatter>(
    w: Written<F::State>,
    entries: Seq<(Data, Data)>,
    budget: nat,
)
    requires
        encode_entries::<F>(w, entries, budget) is Ok,
    ensures
        entries_height(lower_mapping(entries)) <= budget,
    decreases entries, 1int,
{
    if entries.len() > 0 {
        let name = key_text(entries[0].0)->Ok_0;
        encoded_nested_height::<F>(w, Place::BoundKey(name), entries[0].1, budget);
        let w1 = encode_nested::<F>(w, Place::BoundKey(name), entries[0].1, budget)->Ok_0;
        encoded_mapping_height::<F>(w1, entries.drop_first(), budget);
        single_heights(name, Node::Text(Seq::empty()), lower(entries[0].1));
        entries_height_concat(
            entry_of(name, lower(entries[0].1)),
            lower_mapping(entries.drop_first()),
        );
    }
}

/// The text of a record or a map that a [`PrettyFormatter`] writes as a
/// document is the text of the entries that it stands for, at depth zero.
pub proof fn typed_document_is_entries_text(style: Style, data: Data, depth_limit: nat)
    requires
        data is Struct || data is Mapping,
    ensures
        document::<PrettyFormatter>(pretty_start(style), data, depth_limit) matches Ok(text)
            ==> text == entries_text(style, 0, root_entries(data)) && entries_height(
            root_entries(data),
        ) <= depth_limit,
{
    let w = start::<PrettyFormatter>(pretty_start(style));
    let begun = object_begun::<PrettyFormatter>(w, Place::Root);
    let none: Seq<ElementKind> = Seq::empty();
    let entries = root_entries(data);
    if encode::<PrettyFormatter>(w, Place::Root, data, depth_limit) is Ok {
        depth_after_push(none, ElementKind::Object);
        assert(objects_in(none) == 0);
        assert(begun.text =~= Seq::<char>::empty());
        assert(begun.state.elements == none.push(ElementKind::Object));
        match data {
            Data::Struct(fields) => {
                fields_are_entries_text(begun, fields@, depth_limit);
                encoded_fields_height::<PrettyFormatter>(begun, fields@, depth_limit);
                let filled = encode_fields::<PrettyFormatter>(begun, fields@, depth_limit)->Ok_0;
                let done = object_ended::<PrettyFormatter>(filled, Place::Root);
                assert(done.text =~= entries_text(style, 0, entries));
            },
            Data::Mapping(pairs) => {
                mapping_is_entries_text(begun, pairs@, depth_limit);
                encoded_mapping_height::<PrettyFormatter>(begun, pairs@, depth_limit);
                let filled = encode_entries::<PrettyFormatter>(begun, pairs@, depth_limit)->Ok_0;
                let done = object_ended::<PrettyFormatter>(filled, Place::Root);
                assert(done.text =~= entries_text(style, 0, entries));
            },
            _ => {},
        }
    }
}

/// The text of a value that a [`PrettyFormatter`] writes under a root key
/// is the text of the entry of that key with the values that the value
/// stands for, at depth zero.
pub proof fn keyed_document_is_entries_text(
    style: Style,
    key: Seq<char>,
    data: Data,
    depth_limit: nat,
)
    ensures
        keyed_document::<PrettyFormatter>(pretty_start(style), key, data, depth_limit) matches Ok(
            text,
        ) ==> text == entries_text(style, 0, entry_of(key, lower(data))) && values_height(
            lower(data),
        ) <= depth_limit,
{
    let w = start::<PrettyFormatter>(pretty_start(style));
    let begun = object_begun::<PrettyFormatter>(w, Place::Root);
    let none: Seq<ElementKind> = Seq::empty();
    let entries = entry_of(key, lower(data));
    if encode_nested::<PrettyFormatter>(begun, Place::BoundKey(key), data, depth_limit) is Ok {
        depth_after_push(none, ElementKind::Object);
        assert(objects_in(none) == 0);
        assert(begun.text =~= Seq::<char>::empty());
        assert(begun.state.elements == none.push(ElementKind::Object));
        nested_is_values_text(begun, Place::BoundKey(key), data, depth_limit);
        encoded_nested_height::<PrettyFormatter>(begun, Place::BoundKey(key), data, depth_limit);
        entry_text(style, 0, key, lower(data));
        let filled = encode_nested::<PrettyFormatter>(
            begun,
            Place::BoundKey(key),
            data,
            depth_limit,
        )->Ok_0;
        let done = object_ended::<PrettyFormatter>(filled, Place::Root);
        assert(done.text =~= entries_text(style, 0, entries));
    }
}

/// Round trip of records and maps: where a value that has its shape is
/// encoded as a document through a [`PrettyFormatter`], in a style whose
/// indent and separator are white space, the text is decoded as that value.
///
/// Left out are the values that do not have their shape in the sense of
/// [`conforms`], the strings that begin with `//` where they are written
/// without quotes, and a nesting limit of the reader below the depth limit
/// of the writer.
pub proof fn flattened_round_trip(
    style: Style,
    shape: Shape,
    data: Data,
    opts: DecodeOpts,
    depth_limit: nat,
)
    requires
        readable(style),
        conforms(shape, data),
        data is Struct || data is Mapping,
        entries_readable(style, root_entries(data)),
        depth_limit <= opts.nesting_limit,
    ensures
        document::<PrettyFormatter>(pretty_start(style), data, depth_limit) matches Ok(text)
            ==> flattened_text_value(text, shape, opts) == Ok::<DataView, Fault>(data@),
{
    let entries = root_entries(data);
    let path: Seq<Seq<char>> = Seq::empty();
    if document::<PrettyFormatter>(pretty_start(style), data, depth_limit) is Ok {
        typed_document_is_entries_text(style, data, depth_limit);
        lowered_is_wf(shape, data);
        assert(lower(data) =~= seq![Node::Object(entries)]);
        assert(lower(data)[0] == Node::Object(entries));
        text_reads_back(style, entries, opts.nesting_limit as nat);
        value_reads_back(shape, data, path, opts.unknown_fields);
        single_slot(shape, Node::Object(entries), path, opts.unknown_fields);
    }
}

/// Round trip of values under a root key: where a value that has its shape
/// and stands for at least one value is encoded under a root key through a
/// [`PrettyFormatter`], in a style whose indent and separator are white
/// space, the text is decoded as that key and that value.
pub proof fn nested_round_trip(
    style: Style,
    shape: Shape,
    key: Seq<char>,
    data: Data,
    opts: DecodeOpts,
    depth_limit: nat,
)
    requires
        readable(style),
        conforms(shape, data),
        lower(data).len() > 0,
        entries_readable(style, entry_of(key, lower(data))),
        depth_limit <= opts.nesting_limit,
    ensures
        keyed_document::<PrettyFormatter>(pretty_start(style), key, data, depth_limit) matches Ok(
            text,
        ) ==> nested_text_value(text, shape, opts) == Ok::<(Seq<char>, DataView), Fault>(
            (key, data@),
        ),
{
    let entries = entry_of(key, lower(data));
    if keyed_document::<PrettyFormatter>(pretty_start(style), key, data, depth_limit) is Ok {
        keyed_document_is_entries_text(style, key, data, depth_limit);
        lowered_is_wf(shape, data);
        single_entry_is_wf(key, lower(data));
        single_heights(key, Node::Text(Seq::empty()), lower(data));
        text_reads_back(style, entries, opts.nesting_limit as nat);
        value_reads_back(shape, data, seq![key], opts.unknown_fields);
        assert(entries[0] == (key, lower(data)));
    }
}

/// Round trip of records and maps between quotes: in a style that puts
/// every key and every string between quotes, and whose indent and
/// separator are white space, the text of a value that has its shape is
/// decoded as that value, whatever its strings are.
pub proof fn quoted_flattened_round_trip(
    style: Style,
    shape: Shape,
    data: Data,
    opts: DecodeOpts,
    depth_limit: nat,
)
    requires
        readable(style),
        all_quoted(style),
        conforms(shape, data),
        data is Struct || data is Mapping,
        depth_limit <= opts.nesting_limit,
    ensures
        document::<PrettyFormatter>(pretty_start(style), data, depth_limit) matches Ok(text)
            ==> flattened_text_value(text, shape, opts) == Ok::<DataView, Fault>(data@),
{
    quoted_entries_are_readable(style, root_entries(data));
    flattened_round_trip(style, shape, data, opts, depth_limit);
}

/// Round trip of values under a root key between quotes: in a style that
/// puts every key and every string between quotes, and whose indent and
/// separator are white space, the text of a value that has its shape and
/// stands for at least one value is decoded as the key and that value,
/// whatever its strings are.
pub proof fn quoted_nested_round_trip(
    style: Style,
    shape: Shape,
    key: Seq<char>,
    data: Data,
    opts: DecodeOpts,
    depth_limit: nat,
)
    requires
        readable(style),
        all_quoted(style),
        conforms(shape, data),
        lower(data).len() > 0,
        depth_limit <= opts.nesting_limit,
    ensures
        keyed_document::<PrettyFormatter>(pretty_start(style), key, data, depth_limit) matches Ok(
            text,
        ) ==> nested_text_value(text, shape, opts) == Ok::<(Seq<char>, DataView), Fault>(
            (key, data@),
        ),
{
    quoted_entries_are_readable(style, entry_of(key, lower(data)));
    nested_round_trip(style, shape, key, data, opts, depth_limit);
}

/// Round trip of records and maps in the style that is used where none is
/// given: the text of a value that has its shape is decoded as that value.
pub proof fn default_flattened_round_trip(
    shape: Shape,
    data: Data,
    opts: DecodeOpts,
    depth_limit: nat,
)
    requires
        conforms(shape, data),
        data is Struct || data is Mapping,
        depth_limit <= opts.nesting_limit,
    ensures
        document::<PrettyFormatter>(pretty_start(default_style()), data, depth_limit) matches Ok(
            text,
        ) ==> flattened_text_value(text, shape, opts) == Ok::<DataView, Fault>(data@),
{
    default_style_is_readable();
    quoted_flattened_round_trip(default_style(), shape, data, opts, depth_limit);
}

/// Round trip of values under a root key in the style that is used where
/// none is given: the text of a value that has its shape and stands for at
/// least one value is decoded as the key and that value.
pub proof fn default_nested_round_trip(
    shape: Shape,
    key: Seq<char>,
    data: Data,
    opts: DecodeOpts,
    depth_limit: nat,
)
    requires
        conforms(shape, data),
        lower(data).len() > 0,
        depth_limit <= opts.nesting_limit,
    ensures
        keyed_document::<PrettyFormatter>(
            pretty_start(default_style()),
            key,
            data,
            depth_limit,
        ) matches Ok(text) ==> nested_text_value(text, shape, opts) == Ok::<
            (Seq<char>, DataView),
            Fault,
        >((key, data@)),
{
    default_style_is_readable();
    quoted_nested_round_trip(default_style(), shape, key, data, opts, depth_limit);
}

} // verus!
