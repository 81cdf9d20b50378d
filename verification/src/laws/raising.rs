//! Reading a value back from the tree that it stands for.

use crate::data::{
    Data, DataView, entry_views_of, field_views_of, key_text, view_of_char, view_of_entries,
    view_of_fields, view_of_items, view_of_struct_variant, view_of_tuple_variant, views_of,
};
use crate::de::mapper::{
    Field, Shape, UnknownFields, entries_value, fields_value, items_value, node_value,
    record_value, slot_value, text_value, tuple_value,
};
use crate::error::Fault;
use crate::laws::conformance::{
    case_of, conforms, distinct_names, is_key_shape, items_conform, items_conform_at,
    lower_items_of_singles, lowered_keys_are_known, mapping_conforms, mapping_conforms_at,
    record_conforms, record_conforms_at, tuple_conforms, tuple_conforms_at, values_under_lowered,
};
use crate::laws::numbers::{bool_text_reads_back, decimal_reads_back, signed_decimal_reads_back};
use crate::ser::lowering::{entry_of, key_of, lower, lower_fields, lower_items, lower_mapping};
use crate::value::Node;
use vstd::prelude::*;

verus! {

/// A key of a map is read back from its text.
pub proof fn key_reads_back(shape: Shape, data: Data, path: Seq<Seq<char>>)
    requires
        is_key_shape(shape),
        conforms(shape, data),
    ensures
        key_text(data) is Ok,
        text_value(shape, key_of(data), path) == Ok::<DataView, Fault>(data@),
{
    match data {
        Data::Bool(b) => {
            bool_text_reads_back(b);
        },
        Data::Signed(v) => {
            signed_decimal_reads_back(v as int);
        },
        Data::Unsigned(v) => {
            decimal_reads_back(v as nat);
        },
        Data::Char(c) => {
            view_of_char(c);
        },
        _ => {},
    }
}

/// A value of a shape that takes exactly one value is read from the one
/// value that it stands for.
pub proof fn single_slot(shape: Shape, node: Node, path: Seq<Seq<char>>, policy: UnknownFields)
    requires
        shape is Bool || shape is Signed || shape is Unsigned || shape is Char || shape is Str
            || shape is Enum || shape is Struct || shape is Mapping,
    ensures
        slot_value(shape, seq![node], path, policy) == node_value(shape, node, path, policy),
{
    let nodes = seq![node];
    assert(nodes.len() == 1);
    assert(slot_value(shape, nodes, path, policy) == node_value(shape, nodes[0], path, policy));
}

/// A value that stands for one string is read from the string.
pub proof fn string_slot(shape: Shape, text: Seq<char>, path: Seq<Seq<char>>, policy: UnknownFields)
    requires
        shape is Bool || shape is Signed || shape is Unsigned || shape is Char || shape is Str
            || shape is Enum,
    ensures
        slot_value(shape, seq![Node::Text(text)], path, policy) == text_value(shape, text, path),
{
    let nodes = seq![Node::Text(text)];
    assert(nodes.len() == 1);
    assert(slot_value(shape, nodes, path, policy) == node_value(shape, nodes[0], path, policy));
}

/// A scalar is read back from the one string that it stands for.
pub proof fn scalar_reads_back(
    shape: Shape,
    data: Data,
    path: Seq<Seq<char>>,
    policy: UnknownFields,
)
    requires
        conforms(shape, data),
        data is Bool || data is Signed || data is Unsigned || data is Char || data is Str
            || data is UnitVariant,
    ensures
        slot_value(shape, lower(data), path, policy) == Ok::<DataView, Fault>(data@),
{
    match data {
        Data::Bool(b) => {
            bool_text_reads_back(b);
            string_slot(shape, crate::text::bool_text(b), path, policy);
        },
        Data::Signed(v) => {
            signed_decimal_reads_back(v as int);
            string_slot(shape, crate::text::signed_decimal(v as int), path, policy);
        },
        Data::Unsigned(v) => {
            decimal_reads_back(v as nat);
            string_slot(shape, crate::text::decimal(v as nat), path, policy);
        },
        Data::Char(c) => {
            view_of_char(c);
            string_slot(shape, seq![c], path, policy);
        },
        Data::Str(text) => {
            string_slot(shape, text@, path, policy);
        },
        Data::UnitVariant(name) => {
            string_slot(shape, name@, path, policy);
        },
        _ => {},
    }
}

/// A value that has its shape is read back, from the values that it stands
/// for, as it is.
pub proof fn value_reads_back(
    shape: Shape,
    data: Data,
    path: Seq<Seq<char>>,
    policy: UnknownFields,
)
    requires
        conforms(shape, data),
    ensures
        slot_value(shape, lower(data), path, policy) == Ok::<DataView, Fault>(data@),
    decreases data, 1int, 0int,
{
    match data {
        Data::Present(inner) => {
            let held = *shape->Optional_0;
            value_reads_back(held, *inner, path, policy);
        },
        Data::NewtypeStruct(inner) => {
            let held = *shape->Newtype_0;
            value_reads_back(held, *inner, path, policy);
        },
        Data::Sequence(items) => {
            let item = *shape->Sequence_0;
            assert(items@.skip(0) =~= items@);
            items_read_back(item, items@, 0, path, policy, Seq::empty());
            view_of_items(items);
            assert(Seq::<DataView>::empty() + views_of(items@) =~= views_of(items@));
        },
        Data::Tuple(items) => {
            let shapes = shape->Tuple_0;
            singles_of_tuple(shapes@, items@);
            tuple_reads_back(shapes@, items@, path, policy, Seq::empty());
            view_of_items(items);
            assert(items@.skip(0) =~= items@);
            assert(Seq::<DataView>::empty() + views_of(items@) =~= views_of(items@));
        },
        Data::TupleStruct(items) => {
            let shapes = shape->TupleStruct_0;
            singles_of_tuple(shapes@, items@);
            tuple_reads_back(shapes@, items@, path, policy, Seq::empty());
            view_of_items(items);
            assert(items@.skip(0) =~= items@);
            assert(Seq::<DataView>::empty() + views_of(items@) =~= views_of(items@));
        },
        Data::Mapping(entries) => {
            let key = *shape->Mapping_0;
            let value = *shape->Mapping_1;
            assert(entries@.skip(0) =~= entries@);
            mapping_reads_back(key, value, entries@, 0, path, policy, Seq::empty());
            view_of_entries(entries);
            assert(Seq::<(DataView, DataView)>::empty() + entry_views_of(entries@)
                =~= entry_views_of(entries@));
            single_slot(shape, Node::Object(lower_mapping(entries@)), path, policy);
        },
        Data::Struct(values) => {
            let fields = shape->Struct_0;
            record_reads_back(fields@, values@, path, policy);
            view_of_fields(values);
            single_slot(shape, Node::Object(lower_fields(values@)), path, policy);
        },
        Data::TupleVariant(name, items) => {
            let variants = shape->Enum_0;
            let shapes = case_of(variants@, name@)->Some_0->Tuple_0;
            singles_of_tuple(shapes@, items@);
            tuple_reads_back(shapes@, items@, path.push(name@), policy, Seq::empty());
            view_of_tuple_variant(name, items);
            assert(items@.skip(0) =~= items@);
            assert(Seq::<DataView>::empty() + views_of(items@) =~= views_of(items@));
            let entries = entry_of(name@, lower_items(items@));
            single_slot(shape, Node::Object(entries), path, policy);
            assert(entries.len() == 1);
            assert(entries[0] == (name@, lower_items(items@)));
        },
        Data::StructVariant(name, values) => {
            let variants = shape->Enum_0;
            let fields = case_of(variants@, name@)->Some_0->Struct_0;
            record_reads_back(fields@, values@, path.push(name@), policy);
            view_of_struct_variant(name, values);
            let held = seq![Node::Object(lower_fields(values@))];
            let entries = seq![(name@, held)];
            single_slot(shape, Node::Object(entries), path, policy);
            assert(entries.len() == 1);
            assert(entries[0] == (name@, held));
            assert(held.len() == 1);
            assert(held[0] == Node::Object(lower_fields(values@)));
        },
        Data::Absent => {},
        Data::Unit => {},
        Data::UnitStruct => {},
        _ => {
            scalar_reads_back(shape, data, path, policy);
        },
    }
}

/// The fields of a tuple that has its shape stand for exactly one value
/// each.
pub proof fn singles_of_tuple(shapes: Seq<Shape>, items: Seq<Data>)
    requires
        shapes.len() == items.len(),
        tuple_conforms(shapes, items, 0),
    ensures
        lower_items(items).len() == items.len(),
        forall|k: int|
            0 <= k < items.len() ==> #[trigger] lower(items[k]) == seq![lower_items(items)[k]],
{
    assert forall|k: int| 0 <= k < items.len() implies (#[trigger] lower(items[k])).len() == 1 by {
        tuple_conforms_at(shapes, items, 0, k);
    }
    lower_items_of_singles(items);
}

/// The items of a sequence at and behind `from` are read back, from the
/// values that they stand for, behind the items that were read before.
pub proof fn items_read_back(
    item: Shape,
    items: Seq<Data>,
    from: int,
    path: Seq<Seq<char>>,
    policy: UnknownFields,
    acc: Seq<DataView>,
)
    requires
        0 <= from <= items.len(),
        items_conform(item, items, from),
    ensures
        items_value(item, lower_items(items.skip(from)), path, policy, acc) == Ok::<
            Seq<DataView>,
            Fault,
        >(acc + views_of(items.skip(from))),
    decreases items, 0int, items.len() - from,
{
    let rest = items.skip(from);
    if from == items.len() {
        assert(rest =~= Seq::<Data>::empty());
        assert(acc + views_of(rest) =~= acc);
    } else {
        items_conform_at(item, items, from, from);
        assert(rest[0] == items[from]);
        assert(rest.drop_first() =~= items.skip(from + 1));
        let first = lower(items[from]);
        let behind = lower_items(items.skip(from + 1));
        let nodes = lower_items(rest);
        assert(nodes == first + behind);
        assert(seq![nodes[0]] =~= first);
        assert(nodes.drop_first() =~= behind);
        value_reads_back(item, items[from], path, policy);
        items_read_back(item, items, from + 1, path, policy, acc.push(items[from]@));
        assert(acc.push(items[from]@) + views_of(items.skip(from + 1)) =~= acc + views_of(rest));
    }
}

/// The fields of a tuple behind those that were read are read back from
/// the values that the fields stand for.
pub proof fn tuple_reads_back(
    shapes: Seq<Shape>,
    items: Seq<Data>,
    path: Seq<Seq<char>>,
    policy: UnknownFields,
    acc: Seq<DataView>,
)
    requires
        shapes.len() == items.len(),
        acc.len() <= items.len(),
        tuple_conforms(shapes, items, acc.len() as int),
        lower_items(items).len() == items.len(),
        forall|k: int|
            0 <= k < items.len() ==> #[trigger] lower(items[k]) == seq![lower_items(items)[k]],
    ensures
        tuple_value(shapes, lower_items(items), path, policy, acc) == Ok::<Seq<DataView>, Fault>(
            acc + views_of(items.skip(acc.len() as int)),
        ),
    decreases items, 0int, items.len() - acc.len(),
{
    let at = acc.len() as int;
    let rest = items.skip(at);
    if at == items.len() {
        assert(rest =~= Seq::<Data>::empty());
        assert(acc + views_of(rest) =~= acc);
    } else {
        tuple_conforms_at(shapes, items, at, at);
        assert(lower(items[at]) == seq![lower_items(items)[at]]);
        value_reads_back(shapes[at], items[at], path, policy);
        tuple_reads_back(shapes, items, path, policy, acc.push(items[at]@));
        assert(acc.push(items[at]@) + views_of(items.skip(at + 1)) =~= acc + views_of(rest));
    }
}

/// The pairs of a map at and behind `from` are read back, from the entries
/// that they stand for, behind the pairs that were read before.
pub proof fn mapping_reads_back(
    key: Shape,
    value: Shape,
    entries: Seq<(Data, Data)>,
    from: int,
    path: Seq<Seq<char>>,
    policy: UnknownFields,
    acc: Seq<(DataView, DataView)>,
)
    requires
        0 <= from <= entries.len(),
        is_key_shape(key),
        mapping_conforms(key, value, entries, from),
    ensures
        entries_value(key, value, lower_mapping(entries.skip(from)), path, policy, acc) == Ok::<
            Seq<(DataView, DataView)>,
            Fault,
        >(acc + entry_views_of(entries.skip(from))),
    decreases entries, 0int, entries.len() - from,
{
    let rest = entries.skip(from);
    if from == entries.len() {
        assert(rest =~= Seq::<(Data, Data)>::empty());
        assert(acc + entry_views_of(rest) =~= acc);
    } else {
        mapping_conforms_at(key, value, entries, from, from);
        assert(rest[0] == entries[from]);
        assert(rest.drop_first() =~= entries.skip(from + 1));
        let name = key_of(entries[from].0);
        let first = entry_of(name, lower(entries[from].1));
        let behind = lower_mapping(entries.skip(from + 1));
        let lowered = lower_mapping(rest);
        assert(lowered == first + behind);
        assert(lowered[0] == (name, lower(entries[from].1)));
        assert(lowered.drop_first() =~= behind);
        let inner = path.push(name);
        key_reads_back(key, entries[from].0, inner);
        value_reads_back(value, entries[from].1, inner, policy);
        mapping_reads_back(
            key,
            value,
            entries,
            from + 1,
            path,
            policy,
            acc.push((entries[from].0@, entries[from].1@)),
        );
        assert(acc.push((entries[from].0@, entries[from].1@)) + entry_views_of(
            entries.skip(from + 1),
        ) =~= acc + entry_views_of(rest));
    }
}

/// The fields of a record are read back from the entries that they stand
/// for.
pub proof fn record_reads_back(
    fields: Seq<Field>,
    values: Seq<(String, Data)>,
    path: Seq<Seq<char>>,
    policy: UnknownFields,
)
    requires
        fields.len() == values.len(),
        distinct_names(values),
        record_conforms(fields, values, 0),
    ensures
        record_value(fields, lower_fields(values), path, policy) == Ok::<
            Seq<(Seq<char>, DataView)>,
            Fault,
        >(field_views_of(values)),
    decreases values, 0int, values.len() + 1,
{
    lowered_keys_are_known(fields, values, 0);
    fields_read_back(fields, values, 0, path, policy, Seq::empty());
    assert(values.skip(0) =~= values);
    assert(Seq::<(Seq<char>, DataView)>::empty() + field_views_of(values) =~= field_views_of(
        values,
    ));
}

/// The fields of a record at and behind `from` are read back, from the
/// entries that the fields stand for, behind the fields that were read
/// before.
pub proof fn fields_read_back(
    fields: Seq<Field>,
    values: Seq<(String, Data)>,
    from: int,
    path: Seq<Seq<char>>,
    policy: UnknownFields,
    acc: Seq<(Seq<char>, DataView)>,
)
    requires
        fields.len() == values.len(),
        0 <= from <= values.len(),
        distinct_names(values),
        record_conforms(fields, values, from),
    ensures
        fields_value(fields, from, lower_fields(values), path, policy, acc) == Ok::<
            Seq<(Seq<char>, DataView)>,
            Fault,
        >(acc + field_views_of(values.skip(from))),
    decreases values, 0int, values.len() - from,
{
    let rest = values.skip(from);
    if from == values.len() {
        assert(rest =~= Seq::<(String, Data)>::empty());
        assert(acc + field_views_of(rest) =~= acc);
    } else {
        record_conforms_at(fields, values, from, from);
        let name = fields[from].name@;
        values_under_lowered(values, from);
        value_reads_back(fields[from].shape, values[from].1, path.push(name), policy);
        fields_read_back(
            fields,
            values,
            from + 1,
            path,
            policy,
            acc.push((name, values[from].1@)),
        );
        assert(acc.push((name, values[from].1@)) + field_views_of(values.skip(from + 1)) =~= acc
            + field_views_of(rest));
    }
}

} // verus!
