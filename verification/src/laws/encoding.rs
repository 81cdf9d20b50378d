//! Laws of the encoder.

use crate::data::{Data, Float, is_finite_bits};
use crate::error::Fault;
use crate::ser::formatter::{
    BraceStyle, ElementKind, Event, Formatter, PrettyFormatter, PrettyState, Quoting, indentation,
    is_macro_key, pretty_output, quoted_under,
};
use crate::ser::fault::{fault_of, nested_fault_of, standing_at};
use crate::ser::lowering::lower;
use crate::ser::serializer::{
    Place, Written, encode, encode_mapping, encode_nested, encode_record, encode_sequence,
    object_begun, object_ended, step, string_written,
};
use crate::text::{escape, written};
use vstd::prelude::*;

verus! {

/// Quoting only where it is required never adds quotes that quoting always
/// would not add: the string is written either as it is under
/// [`Quoting::Always`], or as the same text without the quotes.
pub proof fn required_quotes_are_always_quotes(s: Seq<char>)
    ensures
        quoted_under(Quoting::WhenRequired, s) ==> quoted_under(Quoting::Always, s),
        written(s, quoted_under(Quoting::Always, s)) == seq!['"'] + escape(s) + seq!['"'],
        written(s, quoted_under(Quoting::WhenRequired, s)) == written(
            s,
            quoted_under(Quoting::Always, s),
        ) || written(s, quoted_under(Quoting::WhenRequired, s)) == escape(s),
{
}

/// An empty sequence behind a key writes nothing: not the key, and no
/// value.
pub proof fn empty_sequence_writes_nothing<F: Formatter>(
    w: Written<F::State>,
    key: Seq<char>,
    data: Data,
    budget: nat,
)
    requires
        ({
            ||| (data matches Data::Sequence(items) && items@.len() == 0)
            ||| (data matches Data::Tuple(items) && items@.len() == 0)
            ||| (data matches Data::TupleStruct(items) && items@.len() == 0)
        }),
    ensures
        encode::<F>(w, Place::BoundKey(key), data, budget) == Ok::<Written<F::State>, Fault>(w),
{
    let items: Seq<Data> = Seq::empty();
    assert(crate::ser::serializer::encode_elements::<F>(w, key, items, budget) == Ok::<
        Written<F::State>,
        Fault,
    >(w));
    assert(encode_sequence::<F>(w, Place::BoundKey(key), items, budget) == Ok::<
        Written<F::State>,
        Fault,
    >(w));
    match data {
        Data::Sequence(v) => {
            assert(v@ =~= items);
        },
        Data::Tuple(v) => {
            assert(v@ =~= items);
        },
        Data::TupleStruct(v) => {
            assert(v@ =~= items);
        },
        _ => {},
    }
}

/// An absent value at the root of a document is written as the empty
/// string; behind a key it writes nothing, so that the field is left out.
pub proof fn absent_value_is_empty_or_omitted<F: Formatter>(
    w: Written<F::State>,
    key: Seq<char>,
    budget: nat,
)
    ensures
        encode::<F>(w, Place::Root, Data::Absent, budget) == Ok::<Written<F::State>, Fault>(
            step::<F>(w, Event::Text(Seq::empty())),
        ),
        encode::<F>(w, Place::BoundKey(key), Data::Absent, budget) == Ok::<
            Written<F::State>,
            Fault,
        >(w),
        encode::<F>(w, Place::InSequence(key), Data::Absent, budget) == Ok::<
            Written<F::State>,
            Fault,
        >(w),
{
}

/// The empty string that stands for an absent value at the root is written
/// between quotes under either quoting policy.
pub proof fn absent_root_is_two_quotes(state: PrettyState)
    requires
        state.elements.len() == 0,
    ensures
        pretty_output(state, Event::Text(Seq::empty())) == seq!['"', '"'],
{
    assert(escape(Seq::<char>::empty()) =~= Seq::<char>::empty());
    assert(pretty_output(state, Event::Text(Seq::empty())) =~= seq!['"', '"']);
}

/// A case that wraps one value is written as that value alone, one level
/// below: neither the name of the case nor an object of its own is written.
/// Behind a key, a case that wraps a string is the one pair of the key and
/// the string.
pub proof fn wrapping_case_is_its_value<F: Formatter>(
    w: Written<F::State>,
    place: Place,
    data: Data,
    budget: nat,
)
    requires
        data is NewtypeVariant,
    ensures
        encode::<F>(w, place, data, budget) == encode_nested::<F>(
            w,
            place,
            *data->NewtypeVariant_1,
            budget,
        ),
        lower(data) == lower(*data->NewtypeVariant_1),
        fault_of(standing_at(place), data, budget) == nested_fault_of(
            standing_at(place),
            *data->NewtypeVariant_1,
            budget,
        ),
        budget > 0 ==> (*data->NewtypeVariant_1 matches Data::Str(text) ==> encode::<F>(
            w,
            place,
            data,
            budget,
        ) == Ok::<Written<F::State>, Fault>(string_written::<F>(w, place, text@))),
{
}

/// A sequence at the root of a document, where no key is pending, is
/// refused as a root-level sequence.
pub proof fn sequence_at_root_is_refused<F: Formatter>(
    w: Written<F::State>,
    data: Data,
    budget: nat,
)
    requires
        data is Sequence || data is Tuple || data is TupleStruct,
    ensures
        encode::<F>(w, Place::Root, data, budget) == Err::<Written<F::State>, Fault>(
            Fault::RootLevelSequence,
        ),
{
}

/// A sequence that is an element of a sequence is refused as a nested
/// sequence.
pub proof fn sequence_in_sequence_is_refused<F: Formatter>(
    w: Written<F::State>,
    key: Seq<char>,
    data: Data,
    budget: nat,
)
    requires
        data is Sequence || data is Tuple || data is TupleStruct,
    ensures
        encode::<F>(w, Place::InSequence(key), data, budget) == Err::<Written<F::State>, Fault>(
            Fault::NestedSequence,
        ),
{
}

/// A sequence whose first element is a sequence is refused as a nested
/// sequence, where the nesting limit lets the element be reached.
pub proof fn sequence_of_sequences_is_refused<F: Formatter>(
    w: Written<F::State>,
    key: Seq<char>,
    items: Seq<Data>,
    budget: nat,
)
    requires
        items.len() > 0,
        items[0] is Sequence || items[0] is Tuple || items[0] is TupleStruct,
        budget > 0,
    ensures
        encode_sequence::<F>(w, Place::BoundKey(key), items, budget) == Err::<
            Written<F::State>,
            Fault,
        >(Fault::NestedSequence),
{
    sequence_in_sequence_is_refused::<F>(w, key, items[0], (budget - 1) as nat);
    reveal_with_fuel(crate::ser::serializer::encode_elements, 2);
}

/// A floating-point number that is infinite or not a number is refused,
/// wherever it stands.
pub proof fn non_finite_float_is_refused<F: Formatter>(
    w: Written<F::State>,
    place: Place,
    x: Float,
    budget: nat,
)
    requires
        !is_finite_bits(x.bits),
    ensures
        encode::<F>(w, place, Data::Float(x), budget) == Err::<Written<F::State>, Fault>(
            Fault::NonFiniteFloat(x.bits),
        ),
{
}

/// The text with which a [`PrettyFormatter`] begins an object behind a key.
pub open spec fn opening(state: PrettyState) -> Seq<char> {
    match state.style.brace_style {
        BraceStyle::Allman => seq!['\n'] + indentation(state.style, state.elements) + seq![
            '{',
            '\n',
        ],
        BraceStyle::KAndR => seq![' ', '{', '\n'],
    }
}

/// The text of the key `key` as a [`PrettyFormatter`] writes it.
pub open spec fn key_written(state: PrettyState, key: Seq<char>) -> Seq<char> {
    written(
        key,
        quoted_under(
            if is_macro_key(key) {
                state.style.quote_macro_keys
            } else {
                state.style.quote_keys
            },
            key,
        ),
    )
}

/// An empty map or record behind a key is written by a [`PrettyFormatter`]
/// as the key, an opening brace and a closing brace with nothing between
/// them.
pub proof fn empty_object_is_a_brace_pair(
    w: Written<PrettyState>,
    key: Seq<char>,
    budget: nat,
)
    requires
        w.state.elements.len() > 0,
    ensures
        encode_mapping::<PrettyFormatter>(w, Place::BoundKey(key), Seq::empty(), budget) matches Ok(
            done,
        ) && done.state == w.state && done.text == w.text + indentation(
            w.state.style,
            w.state.elements,
        ) + key_written(w.state, key) + opening(w.state) + indentation(
            w.state.style,
            w.state.elements,
        ) + seq!['}', '\n'],
        encode_record::<PrettyFormatter>(w, Place::BoundKey(key), Seq::empty(), budget)
            == encode_mapping::<PrettyFormatter>(w, Place::BoundKey(key), Seq::empty(), budget),
{
    let e = w.state.elements;
    let style = w.state.style;
    let place = Place::BoundKey(key);
    let w1 = step::<PrettyFormatter>(w, Event::BeginKey);
    let w2 = step::<PrettyFormatter>(w1, Event::Text(key));
    let w3 = step::<PrettyFormatter>(w2, Event::EndKey);
    let w4 = step::<PrettyFormatter>(w3, Event::BeginValue);
    let w5 = step::<PrettyFormatter>(w4, Event::BeginObject);
    let w6 = step::<PrettyFormatter>(w5, Event::EndObject);
    let w7 = step::<PrettyFormatter>(w6, Event::EndValue);
    let kv = e.push(ElementKind::KeyValue);
    assert(w1.state.elements == kv.push(ElementKind::Key));
    assert(w3.state.elements =~= kv);
    assert(w4.state.elements == kv.push(ElementKind::Value));
    assert(w6.state.elements =~= kv.push(ElementKind::Value));
    assert(w7.state.elements =~= e);
    same_depth(e, ElementKind::KeyValue);
    same_depth(kv, ElementKind::Key);
    same_depth(kv, ElementKind::Value);
    assert(w5.state.elements.drop_last() =~= kv.push(ElementKind::Value));
    assert(w7.text =~= w.text + indentation(style, e) + key_written(w.state, key) + opening(
        w.state,
    ) + indentation(style, e) + seq!['}', '\n']);
    assert(object_begun::<PrettyFormatter>(w, place) == w5);
    assert(object_ended::<PrettyFormatter>(w5, place) == w7);
}

/// Opening an element that is no object leaves the indent as it is.
pub proof fn same_depth(elements: Seq<ElementKind>, kind: ElementKind)
    requires
        kind != ElementKind::Object,
    ensures
        crate::ser::formatter::objects_in(elements.push(kind)) == crate::ser::formatter::objects_in(
            elements,
        ),
{
    assert(elements.push(kind).drop_last() =~= elements);
}

} // verus!
