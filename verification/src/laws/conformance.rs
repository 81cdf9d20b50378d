//! The values that have a declared shape and are read back as they are.

use crate::data::Data;
use crate::de::mapper::{
    Field, Shape, Variant, VariantShape, field_from, unknown_from, values_under, variant_from,
};
use crate::ser::lowering::{entry_of, key_of, lower, lower_fields, lower_items, lower_mapping};
use crate::value::{Entries, position_from_is_first, position_of};
use vstd::prelude::*;

verus! {

/// Whether keys of a map may have the shape `shape`: that of a scalar
/// other than a case of an enumeration.
pub open spec fn is_key_shape(shape: Shape) -> bool {
    shape is Bool || shape is Signed || shape is Unsigned || shape is Char || shape is Str
}

/// Whether no name stands twice among `values`.
pub open spec fn distinct_names(values: Seq<(String, Data)>) -> bool {
    forall|i: int, j: int|
        0 <= i < j < values.len() ==> (#[trigger] values[i]).0@ != (#[trigger] values[j]).0@
}

/// Whether no two keys of `entries` have the same text.
pub open spec fn distinct_map_keys(entries: Seq<(Data, Data)>) -> bool {
    forall|i: int, j: int|
        0 <= i < j < entries.len() ==> key_of((#[trigger] entries[i]).0) != key_of(
            (#[trigger] entries[j]).0,
        )
}

/// Whether `data` is a value of the shape `shape` that is read back as it
/// is.
///
/// A scalar has the scalar shape of its kind, an integer within the range
/// of the shape. A present optional value holds a value that stands for at
/// least one value of the tree, since one that stands for none reads back
/// as absent. The items of a sequence and the fields of a tuple stand for
/// exactly one value each, since the tree does not tell where one item ends
/// and the next begins. The values of a map and what a case holds stand for
/// at least one value. The names of the fields of a record are those of the
/// shape, in order, and differ; the texts of the keys of a map differ. A
/// case that wraps one value is left out: it is written as that value
/// alone, so that the text does not tell which case it was, and an
/// enumeration is read from the name of a case or from an object whose only
/// key is that name.
pub open spec fn conforms(shape: Shape, data: Data) -> bool
    decreases data, 0int, 0int,
{
    match data {
        Data::Bool(_) => shape is Bool,
        Data::Signed(v) => shape matches Shape::Signed { min, max } && min <= v <= max,
        Data::Unsigned(v) => shape matches Shape::Unsigned { limit } && v <= limit,
        Data::Char(_) => shape is Char,
        Data::Str(_) => shape is Str,
        Data::Unit => shape is Unit,
        Data::UnitStruct => shape is UnitStruct,
        Data::Absent => shape is Optional,
        Data::Present(inner) => shape matches Shape::Optional(held) && conforms(*held, *inner)
            && lower(*inner).len() > 0,
        Data::NewtypeStruct(inner) => shape matches Shape::Newtype(held) && conforms(
            *held,
            *inner,
        ),
        Data::Sequence(items) => shape matches Shape::Sequence(item) && items_conform(
            *item,
            items@,
            0,
        ),
        Data::Tuple(items) => shape matches Shape::Tuple(shapes) && shapes@.len() == items@.len()
            && tuple_conforms(shapes@, items@, 0),
        Data::TupleStruct(items) => shape matches Shape::TupleStruct(shapes) && shapes@.len()
            == items@.len() && tuple_conforms(shapes@, items@, 0),
        Data::Mapping(entries) => shape matches Shape::Mapping(key, value) && is_key_shape(*key)
            && distinct_map_keys(entries@) && mapping_conforms(*key, *value, entries@, 0),
        Data::Struct(values) => shape matches Shape::Struct(fields) && fields@.len()
            == values@.len() && distinct_names(values@) && record_conforms(fields@, values@, 0),
        Data::UnitVariant(name) => shape matches Shape::Enum(variants) && case_of(
            variants@,
            name@,
        ) is Some && case_of(variants@, name@)->Some_0 is Unit,
        Data::NewtypeVariant(_, _) => false,
        Data::TupleVariant(name, items) => shape matches Shape::Enum(variants) && case_of(
            variants@,
            name@,
        ) matches Some(VariantShape::Tuple(shapes)) && shapes@.len() == items@.len() && items@.len()
            > 0 && tuple_conforms(shapes@, items@, 0),
        Data::StructVariant(name, values) => shape matches Shape::Enum(variants) && case_of(
            variants@,
            name@,
        ) matches Some(VariantShape::Struct(fields)) && fields@.len() == values@.len()
            && distinct_names(values@) && record_conforms(fields@, values@, 0),
        _ => false,
    }
}

/// What the case called `name` holds, if there is such a case.
pub open spec fn case_of(variants: Seq<Variant>, name: Seq<char>) -> Option<VariantShape> {
    let at = variant_from(variants, name, 0);
    if 0 <= at < variants.len() {
        Some(variants[at].shape)
    } else {
        None
    }
}

/// Whether each of the items at and behind `from` has the shape `item` and
/// stands for exactly one value.
pub open spec fn items_conform(item: Shape, items: Seq<Data>, from: int) -> bool
    decreases items, 0int, items.len() - from,
{
    if from < 0 || from >= items.len() {
        true
    } else {
        conforms(item, items[from]) && lower(items[from]).len() == 1 && items_conform(
            item,
            items,
            from + 1,
        )
    }
}

/// Whether each of the items at and behind `from` has the shape at its
/// place and stands for exactly one value.
pub open spec fn tuple_conforms(shapes: Seq<Shape>, items: Seq<Data>, from: int) -> bool
    decreases items, 0int, items.len() - from,
{
    if from < 0 || from >= items.len() || from >= shapes.len() {
        true
    } else {
        conforms(shapes[from], items[from]) && lower(items[from]).len() == 1 && tuple_conforms(
            shapes,
            items,
            from + 1,
        )
    }
}

/// Whether each of the values at and behind `from` has the name and the
/// shape of the field at its place.
pub open spec fn record_conforms(fields: Seq<Field>, values: Seq<(String, Data)>, from: int) -> bool
    decreases values, 0int, values.len() - from,
{
    if from < 0 || from >= values.len() || from >= fields.len() {
        true
    } else {
        fields[from].name@ == values[from].0@ && conforms(fields[from].shape, values[from].1)
            && record_conforms(fields, values, from + 1)
    }
}

/// Whether each of the pairs at and behind `from` has a key of the shape
/// `key` and a value of the shape `value` that stands for at least one
/// value.
pub open spec fn mapping_conforms(
    key: Shape,
    value: Shape,
    entries: Seq<(Data, Data)>,
    from: int,
) -> bool
    decreases entries, 0int, entries.len() - from,
{
    if from < 0 || from >= entries.len() {
        true
    } else {
        conforms(key, entries[from].0) && conforms(value, entries[from].1) && lower(
            entries[from].1,
        ).len() > 0 && mapping_conforms(key, value, entries, from + 1)
    }
}

/// An item at or behind the place from which items conform has the shape
/// and stands for exactly one value.
pub proof fn items_conform_at(item: Shape, items: Seq<Data>, from: int, k: int)
    requires
        items_conform(item, items, from),
        0 <= from <= k < items.len(),
    ensures
        conforms(item, items[k]),
        lower(items[k]).len() == 1,
    decreases k - from,
{
    if from < k {
        items_conform_at(item, items, from + 1, k);
    }
}

/// A field of a tuple at or behind the place from which fields conform has
/// the shape at its place and stands for exactly one value.
pub proof fn tuple_conforms_at(shapes: Seq<Shape>, items: Seq<Data>, from: int, k: int)
    requires
        tuple_conforms(shapes, items, from),
        shapes.len() == items.len(),
        0 <= from <= k < items.len(),
    ensures
        conforms(shapes[k], items[k]),
        lower(items[k]).len() == 1,
    decreases k - from,
{
    if from < k {
        tuple_conforms_at(shapes, items, from + 1, k);
    }
}

/// A value of a record at or behind the place from which values conform
/// has the name and the shape of the field at its place.
pub proof fn record_conforms_at(
    fields: Seq<Field>,
    values: Seq<(String, Data)>,
    from: int,
    k: int,
)
    requires
        record_conforms(fields, values, from),
        fields.len() == values.len(),
        0 <= from <= k < values.len(),
    ensures
        fields[k].name@ == values[k].0@,
        conforms(fields[k].shape, values[k].1),
    decreases k - from,
{
    if from < k {
        record_conforms_at(fields, values, from + 1, k);
    }
}

/// A pair of a map at or behind the place from which pairs conform has a
/// key and a value of the shapes, and its value stands for at least one
/// value.
pub proof fn mapping_conforms_at(
    key: Shape,
    value: Shape,
    entries: Seq<(Data, Data)>,
    from: int,
    k: int,
)
    requires
        mapping_conforms(key, value, entries, from),
        0 <= from <= k < entries.len(),
    ensures
        conforms(key, entries[k].0),
        conforms(value, entries[k].1),
        lower(entries[k].1).len() > 0,
    decreases k - from,
{
    if from < k {
        mapping_conforms_at(key, value, entries, from + 1, k);
    }
}

/// Items that stand for exactly one value each stand together for as many
/// values as there are items, each for the value at its place.
pub proof fn lower_items_of_singles(items: Seq<Data>)
    requires
        forall|k: int| 0 <= k < items.len() ==> (#[trigger] lower(items[k])).len() == 1,
    ensures
        lower_items(items).len() == items.len(),
        forall|k: int|
            0 <= k < items.len() ==> #[trigger] lower(items[k]) == seq![lower_items(items)[k]],
    decreases items.len(),
{
    if items.len() > 0 {
        let rest = items.drop_first();
        assert forall|k: int| 0 <= k < rest.len() implies (#[trigger] lower(rest[k])).len()
            == 1 by {
            assert(rest[k] == items[k + 1]);
        }
        lower_items_of_singles(rest);
        let first = lower(items[0]);
        assert(first.len() == 1);
        assert forall|k: int| 0 <= k < items.len() implies #[trigger] lower(items[k]) == seq![
            lower_items(items)[k],
        ] by {
            if k == 0 {
                assert(first =~= seq![lower_items(items)[0]]);
            } else {
                assert(items[k] == rest[k - 1]);
                assert(lower_items(items)[k] == lower_items(rest)[k - 1]);
            }
        }
    }
}

/// Pairs of a map whose values stand for at least one value each stand for
/// as many entries as there are pairs, each for the entry at its place.
pub proof fn lower_mapping_is_full(entries: Seq<(Data, Data)>)
    requires
        forall|k: int| 0 <= k < entries.len() ==> (#[trigger] lower(entries[k].1)).len() > 0,
    ensures
        lower_mapping(entries).len() == entries.len(),
        forall|k: int|
            0 <= k < entries.len() ==> #[trigger] lower_mapping(entries)[k] == (
                key_of(entries[k].0),
                lower(entries[k].1),
            ),
    decreases entries.len(),
{
    if entries.len() > 0 {
        let rest = entries.drop_first();
        assert forall|k: int| 0 <= k < rest.len() implies (#[trigger] lower(rest[k].1)).len()
            > 0 by {
            assert(rest[k] == entries[k + 1]);
        }
        lower_mapping_is_full(rest);
        assert(lower(entries[0].1).len() > 0);
        assert forall|k: int| 0 <= k < entries.len() implies #[trigger] lower_mapping(entries)[k]
            == (key_of(entries[k].0), lower(entries[k].1)) by {
            if k > 0 {
                assert(entries[k] == rest[k - 1]);
                assert(lower_mapping(entries)[k] == lower_mapping(rest)[k - 1]);
            }
        }
    }
}

/// Every entry that fields stand for belongs to one of the fields: it has
/// the name of the field as its key and the values that the field stands
/// for, which are not none.
pub proof fn lowered_entry_is_field(values: Seq<(String, Data)>, j: int) -> (i: int)
    requires
        0 <= j < lower_fields(values).len(),
    ensures
        0 <= i < values.len(),
        lower_fields(values)[j] == (values[i].0@, lower(values[i].1)),
        lower(values[i].1).len() > 0,
    decreases values.len(),
{
    let first = entry_of(values[0].0@, lower(values[0].1));
    if j < first.len() {
        0
    } else {
        let rest = values.drop_first();
        let i = lowered_entry_is_field(rest, j - first.len());
        assert(rest[i] == values[i + 1]);
        i + 1
    }
}

/// The place of a key behind entries that do not hold it.
pub proof fn position_behind(a: Entries, b: Entries, key: Seq<char>)
    requires
        forall|k: int| 0 <= k < a.len() ==> (#[trigger] a[k]).0 != key,
    ensures
        position_of(a + b, key) == a.len() + position_of(b, key),
{
    let all = a + b;
    position_from_is_first(all, key, 0);
    position_from_is_first(b, key, 0);
    let at = position_of(all, key);
    let inner = position_of(b, key);
    if at < a.len() {
        assert(all[at] == a[at]);
    }
    if at < all.len() {
        assert(all[at] == b[at - a.len()]);
        if at - a.len() < inner {
        } else if at - a.len() > inner {
            assert(all[a.len() + inner] == b[inner]);
        }
    } else {
        if inner < b.len() {
            assert(all[a.len() + inner] == b[inner]);
        }
    }
}

/// A name that no field has is the key of no entry that the fields stand
/// for.
pub proof fn no_entry_without_field(values: Seq<(String, Data)>, name: Seq<char>)
    requires
        forall|i: int| 0 <= i < values.len() ==> (#[trigger] values[i]).0@ != name,
    ensures
        position_of(lower_fields(values), name) == lower_fields(values).len(),
{
    let entries = lower_fields(values);
    position_from_is_first(entries, name, 0);
    let at = position_of(entries, name);
    if at < entries.len() {
        let i = lowered_entry_is_field(values, at);
        assert(false);
    }
}

/// The values under the name of a field, in the entries that the fields
/// stand for, are the values that the field stands for.
pub proof fn values_under_lowered(values: Seq<(String, Data)>, i: int)
    requires
        distinct_names(values),
        0 <= i < values.len(),
    ensures
        values_under(lower_fields(values), values[i].0@) == lower(values[i].1),
    decreases i,
{
    let name = values[i].0@;
    let first = entry_of(values[0].0@, lower(values[0].1));
    let rest = values.drop_first();
    let behind = lower_fields(rest);
    let entries = lower_fields(values);
    assert(entries == first + behind);
    if i == 0 {
        if lower(values[0].1).len() > 0 {
            position_from_is_first(entries, name, 0);
            assert(entries[0] == first[0]);
        } else {
            assert(entries =~= behind);
            assert forall|k: int| 0 <= k < rest.len() implies (#[trigger] rest[k]).0@ != name by {
                assert(rest[k] == values[k + 1]);
            }
            no_entry_without_field(rest, name);
        }
    } else {
        assert(rest[i - 1] == values[i]);
        assert(distinct_names(rest)) by {
            assert forall|a: int, b: int| 0 <= a < b < rest.len() implies (#[trigger] rest[a]).0@
                != (#[trigger] rest[b]).0@ by {
                assert(rest[a] == values[a + 1]);
                assert(rest[b] == values[b + 1]);
            }
        }
        values_under_lowered(rest, i - 1);
        assert forall|k: int| 0 <= k < first.len() implies (#[trigger] first[k]).0 != name by {
            assert(first[k].0 == values[0].0@);
        }
        position_behind(first, behind, name);
        position_from_is_first(behind, name, 0);
        let inner = position_of(behind, name);
        if inner < behind.len() {
            assert(entries[first.len() + inner] == behind[inner]);
        }
    }
}

/// The place of a field is found where a field has the name.
pub proof fn field_is_found(fields: Seq<Field>, name: Seq<char>, from: int, i: int)
    requires
        0 <= from <= i < fields.len(),
        fields[i].name@ == name,
    ensures
        from <= field_from(fields, name, from) <= i,
    decreases i - from,
{
    if fields[from].name@ != name {
        field_is_found(fields, name, from + 1, i);
    }
}

/// Every key of the entries that the values of a record stand for is the
/// name of a field.
pub proof fn lowered_keys_are_known(
    fields: Seq<Field>,
    values: Seq<(String, Data)>,
    from: int,
)
    requires
        fields.len() == values.len(),
        record_conforms(fields, values, 0),
        0 <= from <= lower_fields(values).len(),
    ensures
        unknown_from(lower_fields(values), fields, from) == lower_fields(values).len(),
    decreases lower_fields(values).len() - from,
{
    let entries = lower_fields(values);
    if from < entries.len() {
        let i = lowered_entry_is_field(values, from);
        record_conforms_at(fields, values, 0, i);
        field_is_found(fields, entries[from].0, 0, i);
        lowered_keys_are_known(fields, values, from + 1);
    }
}

} // verus!
