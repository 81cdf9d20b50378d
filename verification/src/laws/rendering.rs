//! The text that a [`PrettyFormatter`] writes for a tree, in closed form.

use crate::ser::formatter::{ElementKind, Event, PrettyFormatter, PrettyState, Style, objects_in};
use crate::ser::layout::{entries_text, indent_at, key_text, opening_at, pair_text, values_text};
use crate::ser::serializer::{
    Place, Written, encode_node, encode_node_entries, encode_node_values, ended, object_begun,
    object_ended, pair_begun, start, step, string_written,
};
use crate::value::{Entries, Node};
use vstd::prelude::*;

verus! {

/// The depth of the lines that are written while `elements` are open.
pub open spec fn depth_of(elements: Seq<ElementKind>) -> int {
    objects_in(elements) - 1
}

/// Opening an element changes the depth by one for an object and not at all
/// for anything else.
pub proof fn depth_after_push(elements: Seq<ElementKind>, kind: ElementKind)
    ensures
        objects_in(elements.push(kind)) == objects_in(elements) + if kind == ElementKind::Object {
            1int
        } else {
            0int
        },
        elements.push(kind).drop_last() == elements,
{
    assert(elements.push(kind).drop_last() =~= elements);
}

/// What a [`PrettyFormatter`] has written once the key of a pair is
/// written and its value begun.
pub proof fn pair_begun_text(w: Written<PrettyState>, key: Seq<char>)
    ensures
        pair_begun::<PrettyFormatter>(w, key).state.style == w.state.style,
        pair_begun::<PrettyFormatter>(w, key).state.elements == w.state.elements.push(
            ElementKind::KeyValue,
        ).push(ElementKind::Value),
        pair_begun::<PrettyFormatter>(w, key).text == w.text + indent_at(
            w.state.style,
            depth_of(w.state.elements),
        ) + key_text(w.state.style, key),
{
    let e = w.state.elements;
    let kv = e.push(ElementKind::KeyValue);
    let w1 = step::<PrettyFormatter>(w, Event::BeginKey);
    let w2 = step::<PrettyFormatter>(w1, Event::Text(key));
    let w3 = step::<PrettyFormatter>(w2, Event::EndKey);
    let w4 = step::<PrettyFormatter>(w3, Event::BeginValue);
    depth_after_push(e, ElementKind::KeyValue);
    depth_after_push(kv, ElementKind::Key);
    assert(w1.state.elements == kv.push(ElementKind::Key));
    assert(w3.state.elements =~= kv);
    assert(w4.text =~= w.text + indent_at(w.state.style, depth_of(e)) + key_text(
        w.state.style,
        key,
    ));
}

/// The pair of a key and a string, as a [`PrettyFormatter`] writes it.
pub proof fn string_pair_text(w: Written<PrettyState>, place: Place, text: Seq<char>)
    requires
        place.keyed(),
    ensures
        string_written::<PrettyFormatter>(w, place, text).state == w.state,
        string_written::<PrettyFormatter>(w, place, text).text == w.text + pair_text(
            w.state.style,
            depth_of(w.state.elements),
            place.key(),
            Node::Text(text),
        ),
{
    let e = w.state.elements;
    let style = w.state.style;
    let w4 = pair_begun::<PrettyFormatter>(w, place.key());
    pair_begun_text(w, place.key());
    let w5 = step::<PrettyFormatter>(w4, Event::Text(text));
    let w6 = step::<PrettyFormatter>(w5, Event::EndValue);
    assert(w6.state.elements =~= e);
    assert(w6.text =~= w.text + pair_text(style, depth_of(e), place.key(), Node::Text(text)));
}

/// What a [`PrettyFormatter`] has written once an object is begun behind a
/// key.
pub proof fn object_begun_text(w: Written<PrettyState>, place: Place)
    requires
        place.keyed(),
    ensures
        object_begun::<PrettyFormatter>(w, place).state.style == w.state.style,
        object_begun::<PrettyFormatter>(w, place).state.elements == w.state.elements.push(
            ElementKind::KeyValue,
        ).push(ElementKind::Value).push(ElementKind::Object),
        depth_of(object_begun::<PrettyFormatter>(w, place).state.elements) == depth_of(
            w.state.elements,
        ) + 1,
        object_begun::<PrettyFormatter>(w, place).text == w.text + indent_at(
            w.state.style,
            depth_of(w.state.elements),
        ) + key_text(w.state.style, place.key()) + opening_at(
            w.state.style,
            depth_of(w.state.elements),
        ),
{
    let e = w.state.elements;
    let style = w.state.style;
    let w4 = pair_begun::<PrettyFormatter>(w, place.key());
    pair_begun_text(w, place.key());
    let kv = e.push(ElementKind::KeyValue);
    let kvv = kv.push(ElementKind::Value);
    depth_after_push(e, ElementKind::KeyValue);
    depth_after_push(kv, ElementKind::Value);
    depth_after_push(kvv, ElementKind::Object);
    let w5 = step::<PrettyFormatter>(w4, Event::BeginObject);
    assert(w5.text =~= w.text + indent_at(style, depth_of(e)) + key_text(style, place.key())
        + opening_at(style, depth_of(e)));
}

/// What a [`PrettyFormatter`] has written once the object that was begun
/// behind a key is ended.
pub proof fn object_ended_text(w: Written<PrettyState>, base: Seq<ElementKind>, place: Place)
    requires
        place.keyed(),
        w.state.elements == base.push(ElementKind::KeyValue).push(ElementKind::Value).push(
            ElementKind::Object,
        ),
    ensures
        object_ended::<PrettyFormatter>(w, place).state.style == w.state.style,
        object_ended::<PrettyFormatter>(w, place).state.elements == base,
        object_ended::<PrettyFormatter>(w, place).text == w.text + indent_at(
            w.state.style,
            depth_of(base),
        ) + seq!['}', '\n'],
{
    let style = w.state.style;
    let kv = base.push(ElementKind::KeyValue);
    let kvv = kv.push(ElementKind::Value);
    depth_after_push(base, ElementKind::KeyValue);
    depth_after_push(kv, ElementKind::Value);
    depth_after_push(kvv, ElementKind::Object);
    let w1 = step::<PrettyFormatter>(w, Event::EndObject);
    let w2 = step::<PrettyFormatter>(w1, Event::EndValue);
    assert(w1.state.elements =~= kvv);
    assert(w2.state.elements =~= base);
    assert(w2.text =~= w.text + indent_at(style, depth_of(base)) + seq!['}', '\n']);
}

/// Where a tree is encoded behind a key through a [`PrettyFormatter`], the
/// formatter ends in the state in which it began, and what it has written
/// is the text of the pair in closed form.
pub proof fn node_is_pair_text(w: Written<PrettyState>, place: Place, node: Node, budget: nat)
    requires
        place.keyed(),
    ensures
        encode_node::<PrettyFormatter>(w, place, node, budget) matches Ok(done) ==> done.state
            == w.state && done.text == w.text + pair_text(
            w.state.style,
            depth_of(w.state.elements),
            place.key(),
            node,
        ),
    decreases node, 0int,
{
    match node {
        Node::Text(text) => {
            string_pair_text(w, place, text);
        },
        Node::Object(entries) => {
            let begun = object_begun::<PrettyFormatter>(w, place);
            object_begun_text(w, place);
            entries_are_entries_text(begun, entries, budget);
            match encode_node_entries::<PrettyFormatter>(begun, entries, budget) {
                Ok(inner) => {
                    object_ended_text(inner, w.state.elements, place);
                    let done = object_ended::<PrettyFormatter>(inner, place);
                    assert(done.state == w.state);
                    assert(done.text =~= w.text + pair_text(
                        w.state.style,
                        depth_of(w.state.elements),
                        place.key(),
                        node,
                    ));
                },
                Err(_) => {},
            }
        },
    }
}

/// Where the values of a key are encoded through a [`PrettyFormatter`], the
/// formatter ends in the state in which it began, and what it has written
/// is the text of their pairs in closed form.
pub proof fn values_are_values_text(
    w: Written<PrettyState>,
    key: Seq<char>,
    values: Seq<Node>,
    budget: nat,
)
    ensures
        encode_node_values::<PrettyFormatter>(w, key, values, budget) matches Ok(done)
            ==> done.state == w.state && done.text == w.text + values_text(
            w.state.style,
            depth_of(w.state.elements),
            key,
            values,
        ),
    decreases values, 1int,
{
    if values.len() > 0 && budget > 0 {
        node_is_pair_text(w, Place::InSequence(key), values[0], (budget - 1) as nat);
        match encode_node::<PrettyFormatter>(
            w,
            Place::InSequence(key),
            values[0],
            (budget - 1) as nat,
        ) {
            Ok(w1) => {
                values_are_values_text(w1, key, values.drop_first(), budget);
                match encode_node_values::<PrettyFormatter>(w1, key, values.drop_first(), budget) {
                    Ok(done) => {
                        assert(done.text =~= w.text + values_text(
                            w.state.style,
                            depth_of(w.state.elements),
                            key,
                            values,
                        ));
                    },
                    Err(_) => {},
                }
            },
            Err(_) => {},
        }
    } else if values.len() == 0 {
        assert(w.text + Seq::<char>::empty() =~= w.text);
    }
}

/// Where the entries of an object are encoded through a
/// [`PrettyFormatter`], the formatter ends in the state in which it began,
/// and what it has written is the text of the entries in closed form.
pub proof fn entries_are_entries_text(w: Written<PrettyState>, entries: Entries, budget: nat)
    ensures
        encode_node_entries::<PrettyFormatter>(w, entries, budget) matches Ok(done) ==> done.state
            == w.state && done.text == w.text + entries_text(
            w.state.style,
            depth_of(w.state.elements),
            entries,
        ),
    decreases entries, 1int,
{
    if entries.len() > 0 && budget > 0 {
        values_are_values_text(w, entries[0].0, entries[0].1, (budget - 1) as nat);
        match encode_node_values::<PrettyFormatter>(
            w,
            entries[0].0,
            entries[0].1,
            (budget - 1) as nat,
        ) {
            Ok(w1) => {
                entries_are_entries_text(w1, entries.drop_first(), budget);
                match encode_node_entries::<PrettyFormatter>(w1, entries.drop_first(), budget) {
                    Ok(done) => {
                        assert(done.text =~= w.text + entries_text(
                            w.state.style,
                            depth_of(w.state.elements),
                            entries,
                        ));
                    },
                    Err(_) => {},
                }
            },
            Err(_) => {},
        }
    } else if entries.len() == 0 {
        assert(w.text + Seq::<char>::empty() =~= w.text);
    }
}

/// The text of a document that a [`PrettyFormatter`] writes is the text of
/// the entries of its root at depth zero, in closed form.
pub proof fn document_is_entries_text(style: Style, entries: Entries, limit: nat)
    ensures
        crate::ser::tree_document::<PrettyFormatter>(
            crate::ser::formatter::pretty_start(style),
            entries,
            limit,
        ) matches Ok(text) ==> text == entries_text(style, 0, entries),
{
    let w = start::<PrettyFormatter>(crate::ser::formatter::pretty_start(style));
    let begun = object_begun::<PrettyFormatter>(w, Place::Root);
    let none: Seq<ElementKind> = Seq::empty();
    depth_after_push(none, ElementKind::Object);
    assert(objects_in(none) == 0);
    assert(begun.text =~= Seq::<char>::empty());
    assert(begun.state.elements == none.push(ElementKind::Object));
    entries_are_entries_text(begun, entries, limit);
    match encode_node_entries::<PrettyFormatter>(begun, entries, limit) {
        Ok(inner) => {
            let done = object_ended::<PrettyFormatter>(inner, Place::Root);
            assert(done.text =~= entries_text(style, 0, entries));
        },
        Err(_) => {},
    }
}

} // verus!
