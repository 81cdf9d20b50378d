//! The tree that a described value stands for, and the text that a
//! [`PrettyFormatter`] writes for the value as the text of that tree.

use crate::data::{Data, Scalar, key_text, scalar_of};
use crate::laws::rendering::{depth_of, object_begun_text, object_ended_text, string_pair_text};
use crate::ser::formatter::{PrettyFormatter, PrettyState, Style};
use crate::ser::layout::{entries_text, pair_text, values_text};
use crate::ser::lowering::{entry_of, lower, lower_fields, lower_items, lower_mapping};
use crate::ser::serializer::{
    Place, Written, encode, encode_elements, encode_entries, encode_fields, encode_nested,
    encode_record, encode_sequence, ended, object_begun, object_ended,
};
use crate::value::{Entries, Node};
use vstd::prelude::*;

verus! {

/// The lines of values that come one after the other are the lines of the
/// first and behind them those of the second.
pub proof fn values_text_concat(
    style: Style,
    depth: int,
    key: Seq<char>,
    a: Seq<Node>,
    b: Seq<Node>,
)
    ensures
        values_text(style, depth, key, a + b) == values_text(style, depth, key, a) + values_text(
            style,
            depth,
            key,
            b,
        ),
    decreases a.len(),
{
    if a.len() == 0 {
        assert(a + b =~= b);
        assert(values_text(style, depth, key, a) =~= Seq::<char>::empty());
        assert(values_text(style, depth, key, a) + values_text(style, depth, key, b)
            =~= values_text(style, depth, key, b));
    } else {
        assert((a + b).drop_first() =~= a.drop_first() + b);
        assert((a + b)[0] == a[0]);
        values_text_concat(style, depth, key, a.drop_first(), b);
        assert(values_text(style, depth, key, a + b) =~= values_text(style, depth, key, a)
            + values_text(style, depth, key, b));
    }
}

/// The lines of entries that come one after the other are the lines of the
/// first and behind them those of the second.
pub proof fn entries_text_concat(style: Style, depth: int, a: Entries, b: Entries)
    ensures
        entries_text(style, depth, a + b) == entries_text(style, depth, a) + entries_text(
            style,
            depth,
            b,
        ),
    decreases a.len(),
{
    if a.len() == 0 {
        assert(a + b =~= b);
        assert(entries_text(style, depth, a) =~= Seq::<char>::empty());
        assert(entries_text(style, depth, a) + entries_text(style, depth, b) =~= entries_text(
            style,
            depth,
            b,
        ));
    } else {
        assert((a + b).drop_first() =~= a.drop_first() + b);
        assert((a + b)[0] == a[0]);
        entries_text_concat(style, depth, a.drop_first(), b);
        assert(entries_text(style, depth, a + b) =~= entries_text(style, depth, a)
            + entries_text(style, depth, b));
    }
}

/// The lines of the entry of a key are the lines of its values.
pub proof fn entry_text(style: Style, depth: int, key: Seq<char>, values: Seq<Node>)
    ensures
        entries_text(style, depth, entry_of(key, values)) == values_text(
            style,
            depth,
            key,
            values,
        ),
{
    if values.len() == 0 {
        assert(values_text(style, depth, key, values) =~= Seq::<char>::empty());
    } else {
        let entries = seq![(key, values)];
        assert(entries.drop_first() =~= Seq::<(Seq<char>, Seq<Node>)>::empty());
        assert(entries_text(style, depth, entries.drop_first()) =~= Seq::<char>::empty());
        assert(entries_text(style, depth, entries) =~= values_text(style, depth, key, values));
    }
}

/// The lines of one value are the lines of its pair.
pub proof fn single_value_text(style: Style, depth: int, key: Seq<char>, node: Node)
    ensures
        values_text(style, depth, key, seq![node]) == pair_text(style, depth, key, node),
{
    let values = seq![node];
    assert(values.drop_first() =~= Seq::<Node>::empty());
    assert(values_text(style, depth, key, values.drop_first()) =~= Seq::<char>::empty());
    assert(values_text(style, depth, key, values) =~= pair_text(style, depth, key, node));
}

/// What a [`PrettyFormatter`] has written once an object that was begun
/// behind a key, and whose pairs are the lines of `inner`, is ended.
pub proof fn object_is_pair_text(
    w: Written<PrettyState>,
    place: Place,
    filled: Written<PrettyState>,
    inner: Entries,
)
    requires
        place.keyed(),
        filled.state == object_begun::<PrettyFormatter>(w, place).state,
        filled.text == object_begun::<PrettyFormatter>(w, place).text + entries_text(
            w.state.style,
            depth_of(w.state.elements) + 1,
            inner,
        ),
    ensures
        object_ended::<PrettyFormatter>(filled, place).state == w.state,
        object_ended::<PrettyFormatter>(filled, place).text == w.text + values_text(
            w.state.style,
            depth_of(w.state.elements),
            place.key(),
            seq![Node::Object(inner)],
        ),
{
    object_begun_text(w, place);
    object_ended_text(filled, w.state.elements, place);
    single_value_text(
        w.state.style,
        depth_of(w.state.elements),
        place.key(),
        Node::Object(inner),
    );
    let done = object_ended::<PrettyFormatter>(filled, place);
    assert(done.text =~= w.text + pair_text(
        w.state.style,
        depth_of(w.state.elements),
        place.key(),
        Node::Object(inner),
    ));
}

/// Where a value is encoded behind a key through a [`PrettyFormatter`],
/// the formatter ends in the state in which it began, and what it has
/// written is the text of the values that the value stands for.
pub proof fn value_is_values_text(w: Written<PrettyState>, place: Place, data: Data, budget: nat)
    requires
        place.keyed(),
    ensures
        encode::<PrettyFormatter>(w, place, data, budget) matches Ok(done) ==> done.state
            == w.state && done.text == w.text + values_text(
            w.state.style,
            depth_of(w.state.elements),
            place.key(),
            lower(data),
        ),
    decreases data, 0int,
{
    let style = w.state.style;
    let depth = depth_of(w.state.elements);
    let begun = object_begun::<PrettyFormatter>(w, place);
    match data {
        Data::Present(inner) => {
            nested_is_values_text(w, place, *inner, budget);
        },
        Data::NewtypeStruct(inner) => {
            nested_is_values_text(w, place, *inner, budget);
        },
        Data::Sequence(items) => {
            sequence_is_values_text(w, place, items@, budget);
        },
        Data::Tuple(items) => {
            sequence_is_values_text(w, place, items@, budget);
        },
        Data::TupleStruct(items) => {
            sequence_is_values_text(w, place, items@, budget);
        },
        Data::Mapping(entries) => {
            object_begun_text(w, place);
            mapping_is_entries_text(begun, entries@, budget);
            match encode_entries::<PrettyFormatter>(begun, entries@, budget) {
                Ok(filled) => {
                    object_is_pair_text(w, place, filled, lower_mapping(entries@));
                },
                Err(_) => {},
            }
        },
        Data::Struct(fields) => {
            record_is_values_text(w, place, fields@, budget);
        },
        Data::NewtypeVariant(_, inner) => {
            nested_is_values_text(w, place, *inner, budget);
        },
        Data::TupleVariant(name, items) => {
            if budget > 0 {
                object_begun_text(w, place);
                sequence_is_values_text(
                    begun,
                    Place::BoundKey(name@),
                    items@,
                    (budget - 1) as nat,
                );
                match encode_sequence::<PrettyFormatter>(
                    begun,
                    Place::BoundKey(name@),
                    items@,
                    (budget - 1) as nat,
                ) {
                    Ok(filled) => {
                        entry_text(style, depth + 1, name@, lower_items(items@));
                        object_is_pair_text(
                            w,
                            place,
                            filled,
                            entry_of(name@, lower_items(items@)),
                        );
                    },
                    Err(_) => {},
                }
            }
        },
        Data::StructVariant(name, fields) => {
            if budget > 0 {
                object_begun_text(w, place);
                record_is_values_text(begun, Place::BoundKey(name@), fields@, (budget - 1) as nat);
                match encode_record::<PrettyFormatter>(
                    begun,
                    Place::BoundKey(name@),
                    fields@,
                    (budget - 1) as nat,
                ) {
                    Ok(filled) => {
                        let held = seq![Node::Object(lower_fields(fields@))];
                        entry_text(style, depth + 1, name@, held);
                        object_is_pair_text(w, place, filled, entry_of(name@, held));
                    },
                    Err(_) => {},
                }
            }
        },
        _ => {
            match scalar_of(data) {
                Scalar::Text(text) => {
                    string_pair_text(w, place, text);
                    single_value_text(style, depth, place.key(), Node::Text(text));
                },
                _ => {
                    assert(values_text(style, depth, place.key(), Seq::<Node>::empty())
                        =~= Seq::<char>::empty());
                    assert(w.text + Seq::<char>::empty() =~= w.text);
                },
            }
        },
    }
}

/// Where a value is encoded one level below through a [`PrettyFormatter`],
/// what is written is the text of the values that the value stands for.
pub proof fn nested_is_values_text(w: Written<PrettyState>, place: Place, data: Data, budget: nat)
    requires
        place.keyed(),
    ensures
        encode_nested::<PrettyFormatter>(w, place, data, budget) matches Ok(done) ==> done.state
            == w.state && done.text == w.text + values_text(
            w.state.style,
            depth_of(w.state.elements),
            place.key(),
            lower(data),
        ),
    decreases data, 1int,
{
    if budget > 0 {
        value_is_values_text(w, place, data, (budget - 1) as nat);
    }
}

/// Where a sequence is encoded behind a key through a [`PrettyFormatter`],
/// what is written is the text of the values that its items stand for.
pub proof fn sequence_is_values_text(
    w: Written<PrettyState>,
    place: Place,
    items: Seq<Data>,
    budget: nat,
)
    requires
        place.keyed(),
    ensures
        encode_sequence::<PrettyFormatter>(w, place, items, budget) matches Ok(done)
            ==> done.state == w.state && done.text == w.text + values_text(
            w.state.style,
            depth_of(w.state.elements),
            place.key(),
            lower_items(items),
        ),
    decreases items, 2int,
{
    match place {
        Place::BoundKey(key) => {
            elements_are_values_text(w, key, items, budget);
        },
        _ => {},
    }
}

/// Where the items of a sequence are encoded through a
/// [`PrettyFormatter`], what is written is the text of the values that
/// they stand for.
pub proof fn elements_are_values_text(
    w: Written<PrettyState>,
    key: Seq<char>,
    items: Seq<Data>,
    budget: nat,
)
    ensures
        encode_elements::<PrettyFormatter>(w, key, items, budget) matches Ok(done) ==> done.state
            == w.state && done.text == w.text + values_text(
            w.state.style,
            depth_of(w.state.elements),
            key,
            lower_items(items),
        ),
    decreases items, 1int,
{
    let style = w.state.style;
    let depth = depth_of(w.state.elements);
    if items.len() == 0 {
        assert(values_text(style, depth, key, Seq::<Node>::empty()) =~= Seq::<char>::empty());
        assert(w.text + Seq::<char>::empty() =~= w.text);
    } else {
        nested_is_values_text(w, Place::InSequence(key), items[0], budget);
        match encode_nested::<PrettyFormatter>(w, Place::InSequence(key), items[0], budget) {
            Ok(w1) => {
                elements_are_values_text(w1, key, items.drop_first(), budget);
                match encode_elements::<PrettyFormatter>(w1, key, items.drop_first(), budget) {
                    Ok(done) => {
                        values_text_concat(
                            style,
                            depth,
                            key,
                            lower(items[0]),
                            lower_items(items.drop_first()),
                        );
                        assert(done.text =~= w.text + values_text(
                            style,
                            depth,
                            key,
                            lower_items(items),
                        ));
                    },
                    Err(_) => {},
                }
            },
            Err(_) => {},
        }
    }
}

/// Where a record is encoded behind a key through a [`PrettyFormatter`],
/// what is written is the text of the object that it stands for.
pub proof fn record_is_values_text(
    w: Written<PrettyState>,
    place: Place,
    fields: Seq<(String, Data)>,
    budget: nat,
)
    requires
        place.keyed(),
    ensures
        encode_record::<PrettyFormatter>(w, place, fields, budget) matches Ok(done) ==> done.state
            == w.state && done.text == w.text + values_text(
            w.state.style,
            depth_of(w.state.elements),
            place.key(),
            seq![Node::Object(lower_fields(fields))],
        ),
    decreases fields, 2int,
{
    let begun = object_begun::<PrettyFormatter>(w, place);
    object_begun_text(w, place);
    fields_are_entries_text(begun, fields, budget);
    match encode_fields::<PrettyFormatter>(begun, fields, budget) {
        Ok(filled) => {
            object_is_pair_text(w, place, filled, lower_fields(fields));
        },
        Err(_) => {},
    }
}

/// Where the fields of a record are encoded through a [`PrettyFormatter`],
/// what is written is the text of the entries that they stand for.
pub proof fn fields_are_entries_text(
    w: Written<PrettyState>,
    fields: Seq<(String, Data)>,
    budget: nat,
)
    ensures
        encode_fields::<PrettyFormatter>(w, fields, budget) matches Ok(done) ==> done.state
            == w.state && done.text == w.text + entries_text(
            w.state.style,
            depth_of(w.state.elements),
            lower_fields(fields),
        ),
    decreases fields, 1int,
{
    let style = w.state.style;
    let depth = depth_of(w.state.elements);
    if fields.len() == 0 {
        assert(entries_text(style, depth, Seq::<(Seq<char>, Seq<Node>)>::empty()) =~= Seq::<
            char,
        >::empty());
        assert(w.text + Seq::<char>::empty() =~= w.text);
    } else {
        let name = fields[0].0@;
        nested_is_values_text(w, Place::BoundKey(name), fields[0].1, budget);
        match encode_nested::<PrettyFormatter>(w, Place::BoundKey(name), fields[0].1, budget) {
            Ok(w1) => {
                fields_are_entries_text(w1, fields.drop_first(), budget);
                match encode_fields::<PrettyFormatter>(w1, fields.drop_first(), budget) {
                    Ok(done) => {
                        entry_text(style, depth, name, lower(fields[0].1));
                        entries_text_concat(
                            style,
                            depth,
                            entry_of(name, lower(fields[0].1)),
                            lower_fields(fields.drop_first()),
                        );
                        assert(done.text =~= w.text + entries_text(
                            style,
                            depth,
                            lower_fields(fields),
                        ));
                    },
                    Err(_) => {},
                }
            },
            Err(_) => {},
        }
    }
}

/// Where the pairs of a map are encoded through a [`PrettyFormatter`],
/// what is written is the text of the entries that they stand for.
pub proof fn mapping_is_entries_text(
    w: Written<PrettyState>,
    entries: Seq<(Data, Data)>,
    budget: nat,
)
    ensures
        encode_entries::<PrettyFormatter>(w, entries, budget) matches Ok(done) ==> done.state
            == w.state && done.text == w.text + entries_text(
            w.state.style,
            depth_of(w.state.elements),
            lower_mapping(entries),
        ),
    decreases entries, 1int,
{
    let style = w.state.style;
    let depth = depth_of(w.state.elements);
    if entries.len() == 0 {
        assert(entries_text(style, depth, Seq::<(Seq<char>, Seq<Node>)>::empty()) =~= Seq::<
            char,
        >::empty());
        assert(w.text + Seq::<char>::empty() =~= w.text);
    } else {
        match key_text(entries[0].0) {
            Ok(name) => {
                nested_is_values_text(w, Place::BoundKey(name), entries[0].1, budget);
                match encode_nested::<PrettyFormatter>(
                    w,
                    Place::BoundKey(name),
                    entries[0].1,
                    budget,
                ) {
                    Ok(w1) => {
                        mapping_is_entries_text(w1, entries.drop_first(), budget);
                        match encode_entries::<PrettyFormatter>(
                            w1,
                            entries.drop_first(),
                            budget,
                        ) {
                            Ok(done) => {
                                entry_text(style, depth, name, lower(entries[0].1));
                                entries_text_concat(
                                    style,
                                    depth,
                                    entry_of(name, lower(entries[0].1)),
                                    lower_mapping(entries.drop_first()),
                                );
                                assert(done.text =~= w.text + entries_text(
                                    style,
                                    depth,
                                    lower_mapping(entries),
                                ));
                            },
                            Err(_) => {},
                        }
                    },
                    Err(_) => {},
                }
            },
            Err(_) => {},
        }
    }
}

} // verus!
