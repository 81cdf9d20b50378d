//! The encoder: a walk over a described value that drives a formatter.

use crate::data::{Data, Float, Scalar, bool_string, finite_bits, key_string, key_text, scalar_of};
use crate::error::{Error, Fault};
use crate::laws::failure::{
    encoding_fails_by_the_value, nested_fails_by_the_value, tree_fails_by_the_tree,
};
use crate::ser::fault::{
    Standing, fails_with, fault_of, find_fault, find_object_fault, find_tree_fault,
    nested_fault_of, node_entries_fault_of, node_fault_of, standing_at,
};
use crate::ser::formatter::{
    ElementKind, Event, Formatter, PrettyFormatter, admits, elements_after, max_open_elements,
};
use crate::text::{
    bool_text, char_to_string, copy_str, decimal, signed_decimal, signed_to_string,
    unsigned_to_string,
};
use crate::value::{Entries, Node, Object, Value, height, member_is_lower, nodes_of};
use vstd::prelude::*;

verus! {

/// Where the next value stands.
#[derive(Debug, PartialEq, Eq)]
pub enum Context {
    /// At the root of the document: no key is pending.
    Root,
    /// Inside an object that waits for its next key.
    AwaitingKey,
    /// Behind a key that is chosen and not yet written.
    BoundKey(String),
    /// Inside a sequence: each element repeats the key.
    InSequence(String),
}

/// The mathematical content of a [`Context`].
pub enum Place {
    Root,
    AwaitingKey,
    BoundKey(Seq<char>),
    InSequence(Seq<char>),
}

impl View for Context {
    type V = Place;

    open spec fn view(&self) -> Place {
        match self {
            Context::Root => Place::Root,
            Context::AwaitingKey => Place::AwaitingKey,
            Context::BoundKey(key) => Place::BoundKey(key@),
            Context::InSequence(key) => Place::InSequence(key@),
        }
    }
}

impl Place {
    /// Whether a key is pending at this place.
    pub open spec fn keyed(self) -> bool {
        self is BoundKey || self is InSequence
    }

    /// The key that is pending at this place.
    pub open spec fn key(self) -> Seq<char> {
        match self {
            Place::BoundKey(key) => key,
            Place::InSequence(key) => key,
            _ => Seq::empty(),
        }
    }
}

/// The state of a formatter together with all the text written so far.
pub struct Written<S> {
    pub state: S,
    pub text: Seq<char>,
}

/// Nothing written yet, by a formatter in `state`.
pub open spec fn start<F: Formatter>(state: F::State) -> Written<F::State> {
    Written { state, text: Seq::empty() }
}

/// `w` after the formatter took `event`.
pub open spec fn step<F: Formatter>(w: Written<F::State>, event: Event) -> Written<F::State> {
    Written { state: F::next(w.state, event), text: w.text + F::output(w.state, event) }
}

/// `w` after `key` was written and its value begun.
pub open spec fn pair_begun<F: Formatter>(w: Written<F::State>, key: Seq<char>) -> Written<
    F::State,
> {
    step::<F>(
        step::<F>(step::<F>(step::<F>(w, Event::BeginKey), Event::Text(key)), Event::EndKey),
        Event::BeginValue,
    )
}

/// `w` after the string `text` was written at `place`: behind the pending
/// key as a pair of its own, or bare where no key is pending.
pub open spec fn string_written<F: Formatter>(
    w: Written<F::State>,
    place: Place,
    text: Seq<char>,
) -> Written<F::State> {
    if place.keyed() {
        step::<F>(step::<F>(pair_begun::<F>(w, place.key()), Event::Text(text)), Event::EndValue)
    } else {
        step::<F>(w, Event::Text(text))
    }
}

/// `w` after an object was begun at `place`, behind the pending key if there
/// is one.
pub open spec fn object_begun<F: Formatter>(w: Written<F::State>, place: Place) -> Written<
    F::State,
> {
    if place.keyed() {
        step::<F>(pair_begun::<F>(w, place.key()), Event::BeginObject)
    } else {
        step::<F>(w, Event::BeginObject)
    }
}

/// `w` after the object that was begun at `place` was ended.
pub open spec fn object_ended<F: Formatter>(w: Written<F::State>, place: Place) -> Written<
    F::State,
> {
    if place.keyed() {
        step::<F>(step::<F>(w, Event::EndObject), Event::EndValue)
    } else {
        step::<F>(w, Event::EndObject)
    }
}

/// `res` closed like the object begun at `place`, where it succeeded.
pub open spec fn ended<F: Formatter>(
    res: Result<Written<F::State>, Fault>,
    place: Place,
) -> Result<Written<F::State>, Fault> {
    match res {
        Ok(w) => Ok(object_ended::<F>(w, place)),
        Err(fault) => Err(fault),
    }
}

/// What encoding `data` at `place` adds to `w`, or why it fails.
///
/// A scalar is written as one string; an absent value or a unit as the empty
/// string at the root and as nothing behind a key. An optional value that is
/// present, a wrapping record and a case that wraps one value stand for what
/// they hold. A sequence repeats the pending key for each element, and fails
/// where no key is pending or where it is itself an element. A map or a
/// record is an object of its entries. A case of several fields is an object
/// whose only key is the name of the case. `budget` is the number of levels
/// that values may still be nested below this one.
pub open spec fn encode<F: Formatter>(
    w: Written<F::State>,
    place: Place,
    data: Data,
    budget: nat,
) -> Result<Written<F::State>, Fault>
    decreases data, 0int,
{
    match data {
        Data::Present(inner) => encode_nested::<F>(w, place, *inner, budget),
        Data::NewtypeStruct(inner) => encode_nested::<F>(w, place, *inner, budget),
        Data::Sequence(items) => encode_sequence::<F>(w, place, items@, budget),
        Data::Tuple(items) => encode_sequence::<F>(w, place, items@, budget),
        Data::TupleStruct(items) => encode_sequence::<F>(w, place, items@, budget),
        Data::Mapping(entries) => encode_mapping::<F>(w, place, entries@, budget),
        Data::Struct(fields) => encode_record::<F>(w, place, fields@, budget),
        Data::NewtypeVariant(_, inner) => encode_nested::<F>(w, place, *inner, budget),
        Data::TupleVariant(name, items) => if budget == 0 {
            Err(Fault::RecursionLimitExceeded)
        } else {
            ended::<F>(
                encode_sequence::<F>(
                    object_begun::<F>(w, place),
                    Place::BoundKey(name@),
                    items@,
                    (budget - 1) as nat,
                ),
                place,
            )
        },
        Data::StructVariant(name, fields) => if budget == 0 {
            Err(Fault::RecursionLimitExceeded)
        } else {
            ended::<F>(
                encode_record::<F>(
                    object_begun::<F>(w, place),
                    Place::BoundKey(name@),
                    fields@,
                    (budget - 1) as nat,
                ),
                place,
            )
        },
        _ => encode_scalar::<F>(w, place, scalar_of(data)),
    }
}

/// What a value that is written as one string adds to `w` at `place`.
pub open spec fn encode_scalar<F: Formatter>(
    w: Written<F::State>,
    place: Place,
    scalar: Scalar,
) -> Result<Written<F::State>, Fault> {
    match scalar {
        Scalar::Text(text) => Ok(string_written::<F>(w, place, text)),
        Scalar::Absent => if place.keyed() {
            Ok(w)
        } else {
            Ok(string_written::<F>(w, place, Seq::empty()))
        },
        Scalar::Fails(fault) => Err(fault),
        Scalar::Composite => Ok(w),
    }
}

/// What encoding `data` one level below adds to `w`: it fails where no
/// level is left.
pub open spec fn encode_nested<F: Formatter>(
    w: Written<F::State>,
    place: Place,
    data: Data,
    budget: nat,
) -> Result<Written<F::State>, Fault>
    decreases data, 1int,
{
    if budget == 0 {
        Err(Fault::RecursionLimitExceeded)
    } else {
        encode::<F>(w, place, data, (budget - 1) as nat)
    }
}

/// What encoding a sequence of `items` at `place` adds to `w`.
pub open spec fn encode_sequence<F: Formatter>(
    w: Written<F::State>,
    place: Place,
    items: Seq<Data>,
    budget: nat,
) -> Result<Written<F::State>, Fault>
    decreases items, 1int,
{
    match place {
        Place::BoundKey(key) => encode_elements::<F>(w, key, items, budget),
        Place::InSequence(_) => Err(Fault::NestedSequence),
        _ => Err(Fault::RootLevelSequence),
    }
}

/// What encoding `items`, each behind a repetition of `key`, adds to `w`.
pub open spec fn encode_elements<F: Formatter>(
    w: Written<F::State>,
    key: Seq<char>,
    items: Seq<Data>,
    budget: nat,
) -> Result<Written<F::State>, Fault>
    decreases items, 0int,
{
    if items.len() == 0 {
        Ok(w)
    } else {
        match encode_nested::<F>(w, Place::InSequence(key), items[0], budget) {
            Ok(w1) => encode_elements::<F>(w1, key, items.drop_first(), budget),
            Err(fault) => Err(fault),
        }
    }
}

/// What encoding a map of `entries` at `place` adds to `w`.
pub open spec fn encode_mapping<F: Formatter>(
    w: Written<F::State>,
    place: Place,
    entries: Seq<(Data, Data)>,
    budget: nat,
) -> Result<Written<F::State>, Fault>
    decreases entries, 1int,
{
    ended::<F>(encode_entries::<F>(object_begun::<F>(w, place), entries, budget), place)
}

/// What encoding `entries` as the pairs of an open object adds to `w`.
pub open spec fn encode_entries<F: Formatter>(
    w: Written<F::State>,
    entries: Seq<(Data, Data)>,
    budget: nat,
) -> Result<Written<F::State>, Fault>
    decreases entries, 0int,
{
    if entries.len() == 0 {
        Ok(w)
    } else {
        match key_text(entries[0].0) {
            Ok(key) => match encode_nested::<F>(w, Place::BoundKey(key), entries[0].1, budget) {
                Ok(w1) => encode_entries::<F>(w1, entries.drop_first(), budget),
                Err(fault) => Err(fault),
            },
            Err(fault) => Err(fault),
        }
    }
}

/// What encoding a record of `fields` at `place` adds to `w`.
pub open spec fn encode_record<F: Formatter>(
    w: Written<F::State>,
    place: Place,
    fields: Seq<(String, Data)>,
    budget: nat,
) -> Result<Written<F::State>, Fault>
    decreases fields, 1int,
{
    ended::<F>(encode_fields::<F>(object_begun::<F>(w, place), fields, budget), place)
}

/// What encoding `fields` as the pairs of an open object adds to `w`.
pub open spec fn encode_fields<F: Formatter>(
    w: Written<F::State>,
    fields: Seq<(String, Data)>,
    budget: nat,
) -> Result<Written<F::State>, Fault>
    decreases fields, 0int,
{
    if fields.len() == 0 {
        Ok(w)
    } else {
        match encode_nested::<F>(w, Place::BoundKey(fields[0].0@), fields[0].1, budget) {
            Ok(w1) => encode_fields::<F>(w1, fields.drop_first(), budget),
            Err(fault) => Err(fault),
        }
    }
}

/// What encoding the tree `node` at `place` adds to `w`, or why it fails.
///
/// A string is written as one string; an object as the pairs of its
/// entries, each key repeated for each of its values. The values of a key
/// stand one level below the object, and each of them one level below that.
pub open spec fn encode_node<F: Formatter>(
    w: Written<F::State>,
    place: Place,
    node: Node,
    budget: nat,
) -> Result<Written<F::State>, Fault>
    decreases node, 0int,
{
    match node {
        Node::Text(text) => Ok(string_written::<F>(w, place, text)),
        Node::Object(entries) => ended::<F>(
            encode_node_entries::<F>(object_begun::<F>(w, place), entries, budget),
            place,
        ),
    }
}

/// What encoding `entries` as the pairs of an open object adds to `w`.
pub open spec fn encode_node_entries<F: Formatter>(
    w: Written<F::State>,
    entries: Entries,
    budget: nat,
) -> Result<Written<F::State>, Fault>
    decreases entries, 1int,
{
    if entries.len() == 0 {
        Ok(w)
    } else if budget == 0 {
        Err(Fault::RecursionLimitExceeded)
    } else {
        match encode_node_values::<F>(w, entries[0].0, entries[0].1, (budget - 1) as nat) {
            Ok(w1) => encode_node_entries::<F>(w1, entries.drop_first(), budget),
            Err(fault) => Err(fault),
        }
    }
}

/// What encoding `values`, each behind a repetition of `key`, adds to `w`.
pub open spec fn encode_node_values<F: Formatter>(
    w: Written<F::State>,
    key: Seq<char>,
    values: Seq<Node>,
    budget: nat,
) -> Result<Written<F::State>, Fault>
    decreases values, 1int,
{
    if values.len() == 0 {
        Ok(w)
    } else if budget == 0 {
        Err(Fault::RecursionLimitExceeded)
    } else {
        match encode_node::<F>(w, Place::InSequence(key), values[0], (budget - 1) as nat) {
            Ok(w1) => encode_node_values::<F>(w1, key, values.drop_first(), budget),
            Err(fault) => Err(fault),
        }
    }
}

/// The number of levels that values may be nested where no other limit is
/// given.
pub const DEFAULT_DEPTH_LIMIT: u16 = 128;

/// An encoder of described values: it walks a value depth first and tells a
/// formatter what to write.
pub struct Serializer<F = PrettyFormatter> {
    writer: String,
    formatter: F,
    contexts: Vec<Context>,
    budget: u16,
}

impl<F: Formatter> Serializer<F> {
    /// The state of the formatter and all the text written so far.
    pub closed spec fn written(&self) -> Written<F::State> {
        Written { state: self.formatter.state(), text: self.writer@ }
    }

    /// The place of the next value.
    pub closed spec fn place(&self) -> Place {
        self.contexts@.last()@
    }

    /// The places of the values that are being written, outermost first.
    pub closed spec fn places(&self) -> Seq<Place> {
        Seq::new(self.contexts@.len(), |i: int| self.contexts@[i]@)
    }

    /// The number of levels that values may still be nested below the next
    /// one.
    pub closed spec fn budget(&self) -> nat {
        self.budget as nat
    }

    /// The elements that the formatter has open.
    pub closed spec fn elements(&self) -> Seq<ElementKind> {
        F::open_elements(self.formatter.state())
    }

    /// The invariant of an encoder between two values: the formatter is
    /// valid, nothing is open at the root, an object is open anywhere else,
    /// and the nesting that is left fits the formatter.
    pub closed spec fn wf(&self) -> bool {
        &&& self.formatter.valid()
        &&& self.contexts@.len() >= 1
        &&& match self.place() {
            Place::Root => self.elements().len() == 0,
            _ => self.elements().len() >= 1 && self.elements().last() == ElementKind::Object,
        }
        &&& self.elements().len() + 3 * self.budget + (if self.place() is AwaitingKey {
            0int
        } else {
            3int
        }) <= max_open_elements()
    }

    /// Whether this encoder is what `pre` becomes by a call that returned
    /// `res` and was to add `expected`: on success the text and the formatter
    /// are as expected and everything else is as before, on failure the
    /// error is the expected one.
    pub open spec fn follows(
        &self,
        pre: &Self,
        res: Result<(), Error>,
        expected: Result<Written<F::State>, Fault>,
    ) -> bool {
        match expected {
            Ok(w) => {
                &&& res is Ok
                &&& self.wf()
                &&& self.written() == w
                &&& self.places() == pre.places()
                &&& self.place() == pre.place()
                &&& self.budget() == pre.budget()
                &&& self.elements() == pre.elements()
            },
            Err(fault) => res matches Err(e) && e@ == fault,
        }
    }

    /// An encoder that appends to `writer` through `formatter` and lets
    /// values be nested [`DEFAULT_DEPTH_LIMIT`] levels deep.
    pub fn new(writer: String, formatter: F) -> (s: Self)
        requires
            formatter.valid(),
            F::open_elements(formatter.state()).len() == 0,
        ensures
            s.wf(),
            s.written() == (Written { state: formatter.state(), text: writer@ }),
            s.place() == Place::Root,
            s.budget() == DEFAULT_DEPTH_LIMIT,
    {
        Self::with_depth_limit(writer, formatter, DEFAULT_DEPTH_LIMIT)
    }

    /// An encoder that appends to `writer` through `formatter` and lets
    /// values be nested `limit` levels deep.
    pub fn with_depth_limit(writer: String, formatter: F, limit: u16) -> (s: Self)
        requires
            formatter.valid(),
            F::open_elements(formatter.state()).len() == 0,
        ensures
            s.wf(),
            s.written() == (Written { state: formatter.state(), text: writer@ }),
            s.place() == Place::Root,
            s.budget() == limit,
    {
        let mut contexts: Vec<Context> = Vec::new();
        contexts.push(Context::Root);
        Self { writer, formatter, contexts, budget: limit }
    }

    /// The text written so far.
    pub fn into_writer(self) -> (text: String)
        ensures
            text@ == self.written().text,
    {
        self.writer
    }

    /// Tells the formatter that an object begins.
    fn object_begins(&mut self)
        requires
            old(self).formatter.valid(),
            admits(old(self).elements(), Event::BeginObject),
        ensures
            final(self).formatter.valid(),
            final(self).written() == step::<F>(old(self).written(), Event::BeginObject),
            final(self).elements() == elements_after(old(self).elements(), Event::BeginObject),
            final(self).contexts == old(self).contexts,
            final(self).budget == old(self).budget,
    {
        proof {
            F::next_keeps_order(self.formatter.state(), Event::BeginObject);
        }
        self.formatter.begin_object(&mut self.writer);
    }

    /// Tells the formatter that an object ends.
    fn object_ends(&mut self)
        requires
            old(self).formatter.valid(),
            admits(old(self).elements(), Event::EndObject),
        ensures
            final(self).formatter.valid(),
            final(self).written() == step::<F>(old(self).written(), Event::EndObject),
            final(self).elements() == elements_after(old(self).elements(), Event::EndObject),
            final(self).contexts == old(self).contexts,
            final(self).budget == old(self).budget,
    {
        proof {
            F::next_keeps_order(self.formatter.state(), Event::EndObject);
        }
        self.formatter.end_object(&mut self.writer);
    }

    /// Tells the formatter that a key begins.
    fn key_begins(&mut self)
        requires
            old(self).formatter.valid(),
            admits(old(self).elements(), Event::BeginKey),
        ensures
            final(self).formatter.valid(),
            final(self).written() == step::<F>(old(self).written(), Event::BeginKey),
            final(self).elements() == elements_after(old(self).elements(), Event::BeginKey),
            final(self).contexts == old(self).contexts,
            final(self).budget == old(self).budget,
    {
        proof {
            F::next_keeps_order(self.formatter.state(), Event::BeginKey);
        }
        self.formatter.begin_key(&mut self.writer);
    }

    /// Tells the formatter that a key ends.
    fn key_ends(&mut self)
        requires
            old(self).formatter.valid(),
            admits(old(self).elements(), Event::EndKey),
        ensures
            final(self).formatter.valid(),
            final(self).written() == step::<F>(old(self).written(), Event::EndKey),
            final(self).elements() == elements_after(old(self).elements(), Event::EndKey),
            final(self).contexts == old(self).contexts,
            final(self).budget == old(self).budget,
    {
        proof {
            F::next_keeps_order(self.formatter.state(), Event::EndKey);
        }
        self.formatter.end_key(&mut self.writer);
    }

    /// Tells the formatter that a value begins.
    fn value_begins(&mut self)
        requires
            old(self).formatter.valid(),
            admits(old(self).elements(), Event::BeginValue),
        ensures
            final(self).formatter.valid(),
            final(self).written() == step::<F>(old(self).written(), Event::BeginValue),
            final(self).elements() == elements_after(old(self).elements(), Event::BeginValue),
            final(self).contexts == old(self).contexts,
            final(self).budget == old(self).budget,
    {
        proof {
            F::next_keeps_order(self.formatter.state(), Event::BeginValue);
        }
        self.formatter.begin_value(&mut self.writer);
    }

    /// Tells the formatter that a value ends.
    fn value_ends(&mut self)
        requires
            old(self).formatter.valid(),
            admits(old(self).elements(), Event::EndValue),
        ensures
            final(self).formatter.valid(),
            final(self).written() == step::<F>(old(self).written(), Event::EndValue),
            final(self).elements() == elements_after(old(self).elements(), Event::EndValue),
            final(self).contexts == old(self).contexts,
            final(self).budget == old(self).budget,
    {
        proof {
            F::next_keeps_order(self.formatter.state(), Event::EndValue);
        }
        self.formatter.end_value(&mut self.writer);
    }

    /// Hands the formatter the string `text`.
    fn string_comes(&mut self, text: &str)
        requires
            old(self).formatter.valid(),
            admits(old(self).elements(), Event::Text(text@)),
        ensures
            final(self).formatter.valid(),
            final(self).written() == step::<F>(old(self).written(), Event::Text(text@)),
            final(self).elements() == old(self).elements(),
            final(self).contexts == old(self).contexts,
            final(self).budget == old(self).budget,
    {
        proof {
            F::next_keeps_order(self.formatter.state(), Event::Text(text@));
        }
        self.formatter.write_string(&mut self.writer, text);
    }

    /// Hands the formatter the pending key.
    fn key_comes(&mut self)
        requires
            old(self).formatter.valid(),
            old(self).contexts@.len() >= 1,
            old(self).place().keyed(),
            admits(old(self).elements(), Event::Text(old(self).place().key())),
        ensures
            final(self).formatter.valid(),
            final(self).written() == step::<F>(
                old(self).written(),
                Event::Text(old(self).place().key()),
            ),
            final(self).elements() == old(self).elements(),
            final(self).contexts == old(self).contexts,
            final(self).budget == old(self).budget,
    {
        proof {
            F::next_keeps_order(self.formatter.state(), Event::Text(self.place().key()));
        }
        let n = self.contexts.len();
        match &self.contexts[n - 1] {
            Context::BoundKey(key) => {
                self.formatter.write_string(&mut self.writer, key.as_str());
            },
            Context::InSequence(key) => {
                self.formatter.write_string(&mut self.writer, key.as_str());
            },
            _ => {},
        }
    }

    /// Writes the pending key and begins its value.
    fn begin_pair(&mut self)
        requires
            old(self).wf(),
            old(self).place().keyed(),
        ensures
            final(self).formatter.valid(),
            final(self).written() == pair_begun::<F>(old(self).written(), old(self).place().key()),
            final(self).elements() == old(self).elements().push(ElementKind::KeyValue).push(
                ElementKind::Value,
            ),
            final(self).contexts == old(self).contexts,
            final(self).budget == old(self).budget,
    {
        self.key_begins();
        self.key_comes();
        self.key_ends();
        self.value_begins();
        assert(self.elements() =~= old(self).elements().push(ElementKind::KeyValue).push(
            ElementKind::Value,
        ));
    }

    /// Writes `text` as the next value.
    fn write_text(&mut self, text: &str) -> (res: Result<(), Error>)
        requires
            old(self).wf(),
            !(old(self).place() is AwaitingKey),
        ensures
            final(self).follows(
                old(self),
                res,
                Ok(string_written::<F>(old(self).written(), old(self).place(), text@)),
            ),
    {
        let n = self.contexts.len();
        let keyed = match &self.contexts[n - 1] {
            Context::BoundKey(_) => true,
            Context::InSequence(_) => true,
            _ => false,
        };
        if keyed {
            self.begin_pair();
            self.string_comes(text);
            self.value_ends();
            assert(self.elements() =~= old(self).elements());
        } else {
            self.string_comes(text);
        }
        Ok(())
    }

    /// The elements that are open once an object has begun at `place` while
    /// `elements` were open.
    pub open spec fn opened(elements: Seq<ElementKind>, place: Place) -> Seq<ElementKind> {
        if place.keyed() {
            elements.push(ElementKind::KeyValue).push(ElementKind::Value).push(ElementKind::Object)
        } else {
            elements.push(ElementKind::Object)
        }
    }

    /// Begins an object as the next value and waits for its first key.
    fn open_object(&mut self)
        requires
            old(self).wf(),
            !(old(self).place() is AwaitingKey),
        ensures
            final(self).wf(),
            final(self).written() == object_begun::<F>(old(self).written(), old(self).place()),
            final(self).elements() == Self::opened(old(self).elements(), old(self).place()),
            final(self).places() == old(self).places().push(Place::AwaitingKey),
            final(self).place() == Place::AwaitingKey,
            final(self).budget == old(self).budget,
    {
        let n = self.contexts.len();
        let keyed = match &self.contexts[n - 1] {
            Context::BoundKey(_) => true,
            Context::InSequence(_) => true,
            _ => false,
        };
        if keyed {
            self.begin_pair();
        }
        self.object_begins();
        self.contexts.push(Context::AwaitingKey);
        assert(self.places() =~= old(self).places().push(Place::AwaitingKey));
    }

    /// Ends the object that waits for a key, which began at `place` while
    /// `base` were open.
    fn close_object(&mut self, Ghost(base): Ghost<Seq<ElementKind>>, Ghost(place): Ghost<Place>)
        requires
            old(self).formatter.valid(),
            old(self).contexts@.len() >= 2,
            old(self).place() == Place::AwaitingKey,
            old(self).places()[old(self).places().len() - 2] == place,
            !(place is AwaitingKey),
            old(self).elements() == Self::opened(base, place),
        ensures
            final(self).formatter.valid(),
            final(self).written() == object_ended::<F>(old(self).written(), place),
            final(self).elements() == base,
            final(self).places() == old(self).places().drop_last(),
            final(self).place() == place,
            final(self).budget == old(self).budget,
    {
        let _ = self.contexts.pop();
        assert(self.places() =~= old(self).places().drop_last());
        let n = self.contexts.len();
        let keyed = match &self.contexts[n - 1] {
            Context::BoundKey(_) => true,
            Context::InSequence(_) => true,
            _ => false,
        };
        self.object_ends();
        if keyed {
            assert(self.elements() =~= base.push(ElementKind::KeyValue).push(ElementKind::Value));
            self.value_ends();
        }
        assert(self.elements() =~= base);
    }

    /// Encodes a boolean: `1` for true, `0` for false.
    fn serialize_bool(&mut self, v: bool) -> (res: Result<(), Error>)
        requires
            old(self).wf(),
            !(old(self).place() is AwaitingKey),
        ensures
            final(self).follows(
                old(self),
                res,
                Ok(string_written::<F>(old(self).written(), old(self).place(), bool_text(v))),
            ),
    {
        let s = bool_string(v);
        self.write_text(s.as_str())
    }

    /// Encodes a signed integer as its decimal text.
    fn serialize_i64(&mut self, v: i64) -> (res: Result<(), Error>)
        requires
            old(self).wf(),
            !(old(self).place() is AwaitingKey),
        ensures
            final(self).follows(
                old(self),
                res,
                Ok(
                    string_written::<F>(
                        old(self).written(),
                        old(self).place(),
                        signed_decimal(v as int),
                    ),
                ),
            ),
    {
        let s = signed_to_string(v);
        self.write_text(s.as_str())
    }

    /// Encodes an unsigned integer as its decimal text.
    fn serialize_u64(&mut self, v: u64) -> (res: Result<(), Error>)
        requires
            old(self).wf(),
            !(old(self).place() is AwaitingKey),
        ensures
            final(self).follows(
                old(self),
                res,
                Ok(string_written::<F>(old(self).written(), old(self).place(), decimal(v as nat))),
            ),
    {
        let s = unsigned_to_string(v);
        self.write_text(s.as_str())
    }

    /// Encodes a character as the string that holds it.
    fn serialize_char(&mut self, v: char) -> (res: Result<(), Error>)
        requires
            old(self).wf(),
            !(old(self).place() is AwaitingKey),
        ensures
            final(self).follows(
                old(self),
                res,
                Ok(string_written::<F>(old(self).written(), old(self).place(), seq![v])),
            ),
    {
        let s = char_to_string(v);
        self.write_text(s.as_str())
    }

    /// Refuses a signed integer of 128 bits.
    fn serialize_i128(&mut self, _v: i128) -> (res: Result<(), Error>)
        ensures
            final(self).follows(old(self), res, Err(Fault::UnsupportedType("i128"@))),
    {
        Err(Error::UnsupportedType(copy_str("i128")))
    }

    /// Refuses an unsigned integer of 128 bits.
    fn serialize_u128(&mut self, _v: u128) -> (res: Result<(), Error>)
        ensures
            final(self).follows(old(self), res, Err(Fault::UnsupportedType("u128"@))),
    {
        Err(Error::UnsupportedType(copy_str("u128")))
    }

    /// Encodes a finite floating-point number as its text, and refuses one
    /// that is infinite or not a number.
    fn serialize_float(&mut self, v: &Float) -> (res: Result<(), Error>)
        requires
            old(self).wf(),
            !(old(self).place() is AwaitingKey),
        ensures
            final(self).follows(
                old(self),
                res,
                encode_scalar::<F>(
                    old(self).written(),
                    old(self).place(),
                    scalar_of(Data::Float(*v)),
                ),
            ),
    {
        if finite_bits(v.bits) {
            self.write_text(v.text.as_str())
        } else {
            Err(Error::NonFiniteFloat(v.bits))
        }
    }

    /// Encodes a string.
    fn serialize_str(&mut self, v: &str) -> (res: Result<(), Error>)
        requires
            old(self).wf(),
            !(old(self).place() is AwaitingKey),
        ensures
            final(self).follows(
                old(self),
                res,
                Ok(string_written::<F>(old(self).written(), old(self).place(), v@)),
            ),
    {
        self.write_text(v)
    }

    /// Refuses raw bytes.
    fn serialize_bytes(&mut self, _v: &Vec<u8>) -> (res: Result<(), Error>)
        ensures
            final(self).follows(old(self), res, Err(Fault::UnsupportedType("bytes"@))),
    {
        Err(Error::UnsupportedType(copy_str("bytes")))
    }

    /// Encodes an absent value: the empty string at the root, nothing behind
    /// a key.
    fn serialize_none(&mut self) -> (res: Result<(), Error>)
        requires
            old(self).wf(),
            !(old(self).place() is AwaitingKey),
        ensures
            final(self).follows(
                old(self),
                res,
                encode_scalar::<F>(old(self).written(), old(self).place(), Scalar::Absent),
            ),
    {
        let n = self.contexts.len();
        let keyed = match &self.contexts[n - 1] {
            Context::BoundKey(_) => true,
            Context::InSequence(_) => true,
            _ => false,
        };
        if keyed {
            Ok(())
        } else {
            let empty = "";
            proof {
                reveal_strlit("");
                assert(empty@ =~= Seq::<char>::empty());
            }
            self.write_text(empty)
        }
    }

    /// Encodes a unit like an absent value.
    fn serialize_unit(&mut self) -> (res: Result<(), Error>)
        requires
            old(self).wf(),
            !(old(self).place() is AwaitingKey),
        ensures
            final(self).follows(
                old(self),
                res,
                encode_scalar::<F>(old(self).written(), old(self).place(), Scalar::Absent),
            ),
    {
        self.serialize_none()
    }

    /// Encodes a record without fields like an absent value.
    fn serialize_unit_struct(&mut self) -> (res: Result<(), Error>)
        requires
            old(self).wf(),
            !(old(self).place() is AwaitingKey),
        ensures
            final(self).follows(
                old(self),
                res,
                encode_scalar::<F>(old(self).written(), old(self).place(), Scalar::Absent),
            ),
    {
        self.serialize_unit()
    }

    /// Encodes a case without fields as its name.
    fn serialize_unit_variant(&mut self, variant: &str) -> (res: Result<(), Error>)
        requires
            old(self).wf(),
            !(old(self).place() is AwaitingKey),
        ensures
            final(self).follows(
                old(self),
                res,
                Ok(string_written::<F>(old(self).written(), old(self).place(), variant@)),
            ),
    {
        self.serialize_str(variant)
    }

    /// Walks `value` and writes it as the next value.
    fn walk(&mut self, value: &Data) -> (res: Result<(), Error>)
        requires
            old(self).wf(),
            !(old(self).place() is AwaitingKey),
        ensures
            final(self).follows(
                old(self),
                res,
                encode::<F>(old(self).written(), old(self).place(), *value, old(self).budget()),
            ),
        decreases value, 0int,
    {
        match value {
            Data::Bool(v) => self.serialize_bool(*v),
            Data::Signed(v) => self.serialize_i64(*v),
            Data::Unsigned(v) => self.serialize_u64(*v),
            Data::WideSigned(v) => self.serialize_i128(*v),
            Data::WideUnsigned(v) => self.serialize_u128(*v),
            Data::Float(v) => self.serialize_float(v),
            Data::Char(v) => self.serialize_char(*v),
            Data::Str(v) => self.serialize_str(v.as_str()),
            Data::Bytes(v) => self.serialize_bytes(v),
            Data::Absent => self.serialize_none(),
            Data::Present(inner) => self.serialize_some(inner),
            Data::Unit => self.serialize_unit(),
            Data::UnitStruct => self.serialize_unit_struct(),
            Data::UnitVariant(name) => self.serialize_unit_variant(name.as_str()),
            Data::NewtypeStruct(inner) => self.serialize_newtype_struct(inner),
            Data::NewtypeVariant(name, inner) => self.serialize_newtype_variant(
                name.as_str(),
                inner,
            ),
            Data::Sequence(items) => self.serialize_seq(items),
            Data::Tuple(items) => self.serialize_tuple(items),
            Data::TupleStruct(items) => self.serialize_tuple_struct(items),
            Data::TupleVariant(name, items) => self.serialize_tuple_variant(name.as_str(), items),
            Data::Mapping(entries) => self.serialize_map(entries),
            Data::Struct(fields) => self.serialize_struct(fields),
            Data::StructVariant(name, fields) => self.serialize_struct_variant(
                name.as_str(),
                fields,
            ),
        }
    }

    /// Encodes `value` one level below, where a level is left.
    fn serialize_nested(&mut self, value: &Data) -> (res: Result<(), Error>)
        requires
            old(self).wf(),
            !(old(self).place() is AwaitingKey),
        ensures
            final(self).follows(
                old(self),
                res,
                encode_nested::<F>(
                    old(self).written(),
                    old(self).place(),
                    *value,
                    old(self).budget(),
                ),
            ),
        decreases value, 1int,
    {
        if self.budget == 0 {
            return Err(Error::RecursionLimitExceeded);
        }
        self.budget -= 1;
        match self.walk(value) {
            Ok(()) => {
                self.budget += 1;
                Ok(())
            },
            Err(e) => Err(e),
        }
    }

    /// Encodes a present optional value as what it holds.
    fn serialize_some(&mut self, value: &Data) -> (res: Result<(), Error>)
        requires
            old(self).wf(),
            !(old(self).place() is AwaitingKey),
        ensures
            final(self).follows(
                old(self),
                res,
                encode_nested::<F>(
                    old(self).written(),
                    old(self).place(),
                    *value,
                    old(self).budget(),
                ),
            ),
        decreases value, 2int,
    {
        self.serialize_nested(value)
    }

    /// Encodes a wrapping record as what it holds.
    fn serialize_newtype_struct(&mut self, value: &Data) -> (res: Result<(), Error>)
        requires
            old(self).wf(),
            !(old(self).place() is AwaitingKey),
        ensures
            final(self).follows(
                old(self),
                res,
                encode_nested::<F>(
                    old(self).written(),
                    old(self).place(),
                    *value,
                    old(self).budget(),
                ),
            ),
        decreases value, 2int,
    {
        self.serialize_nested(value)
    }

    /// Chooses the key of the next entry of a map: the text of `key`.
    fn serialize_key(&mut self, key: &Data) -> (res: Result<(), Error>)
        requires
            old(self).wf(),
            old(self).place() is AwaitingKey,
        ensures
            match key_text(*key) {
                Err(fault) => res matches Err(e) && e@ == fault,
                Ok(text) => if old(self).budget() == 0 {
                    res matches Err(e) && e@ == Fault::RecursionLimitExceeded
                } else {
                    &&& res is Ok
                    &&& final(self).wf()
                    &&& final(self).written() == old(self).written()
                    &&& final(self).places() == old(self).places().push(Place::BoundKey(text))
                    &&& final(self).place() == Place::BoundKey(text)
                    &&& final(self).budget() == old(self).budget() - 1
                    &&& final(self).elements() == old(self).elements()
                },
            },
    {
        let text = match key_string(key) {
            Ok(text) => text,
            Err(e) => {
                return Err(e);
            },
        };
        self.bind_key(text)
    }

    /// Chooses `key` as the key of the next pair, one level below.
    fn bind_key(&mut self, key: String) -> (res: Result<(), Error>)
        requires
            old(self).wf(),
            old(self).place() is AwaitingKey,
        ensures
            if old(self).budget() == 0 {
                res matches Err(e) && e@ == Fault::RecursionLimitExceeded
            } else {
                &&& res is Ok
                &&& final(self).wf()
                &&& final(self).written() == old(self).written()
                &&& final(self).places() == old(self).places().push(Place::BoundKey(key@))
                &&& final(self).place() == Place::BoundKey(key@)
                &&& final(self).budget() == old(self).budget() - 1
                &&& final(self).elements() == old(self).elements()
            },
    {
        if self.budget == 0 {
            return Err(Error::RecursionLimitExceeded);
        }
        self.budget -= 1;
        self.contexts.push(Context::BoundKey(key));
        assert(self.places() =~= old(self).places().push(Place::BoundKey(key@)));
        Ok(())
    }

    /// Encodes `value` behind the key that was chosen, and waits for the
    /// next key.
    fn serialize_value(&mut self, value: &Data) -> (res: Result<(), Error>)
        requires
            old(self).wf(),
            old(self).place() is BoundKey,
            old(self).places().len() >= 2,
            old(self).places()[old(self).places().len() - 2] is AwaitingKey,
            old(self).budget() < 0xffff,
        ensures
            match encode::<F>(
                old(self).written(),
                old(self).place(),
                *value,
                old(self).budget(),
            ) {
                Err(fault) => res matches Err(e) && e@ == fault,
                Ok(w) => {
                    &&& res is Ok
                    &&& final(self).wf()
                    &&& final(self).written() == w
                    &&& final(self).places() == old(self).places().drop_last()
                    &&& final(self).place() == Place::AwaitingKey
                    &&& final(self).budget() == old(self).budget() + 1
                    &&& final(self).elements() == old(self).elements()
                },
            },
        decreases value, 1int,
    {
        match self.walk(value) {
            Ok(()) => {},
            Err(e) => {
                return Err(e);
            },
        }
        self.unbind_key();
        Ok(())
    }

    /// Leaves the key that was chosen and waits for the next one.
    fn unbind_key(&mut self)
        requires
            old(self).wf(),
            old(self).place() is BoundKey,
            old(self).places().len() >= 2,
            old(self).places()[old(self).places().len() - 2] is AwaitingKey,
            old(self).budget() < 0xffff,
        ensures
            final(self).wf(),
            final(self).written() == old(self).written(),
            final(self).places() == old(self).places().drop_last(),
            final(self).place() == Place::AwaitingKey,
            final(self).budget() == old(self).budget() + 1,
            final(self).elements() == old(self).elements(),
    {
        let _ = self.contexts.pop();
        self.budget += 1;
        assert(self.places() =~= old(self).places().drop_last());
    }

    /// Encodes one field of a record: `value` behind `key`.
    fn serialize_field(&mut self, key: &str, value: &Data) -> (res: Result<(), Error>)
        requires
            old(self).wf(),
            old(self).place() is AwaitingKey,
        ensures
            final(self).follows(
                old(self),
                res,
                encode_nested::<F>(
                    old(self).written(),
                    Place::BoundKey(key@),
                    *value,
                    old(self).budget(),
                ),
            ),
        decreases value, 2int,
    {
        match self.bind_key(copy_str(key)) {
            Ok(()) => {},
            Err(e) => {
                return Err(e);
            },
        }
        let res = self.serialize_value(value);
        proof {
            if res is Ok {
                assert(self.places() =~= old(self).places());
            }
        }
        res
    }

    /// Encodes one element of a sequence behind a repetition of the key.
    fn serialize_element(&mut self, value: &Data) -> (res: Result<(), Error>)
        requires
            old(self).wf(),
            old(self).place() is InSequence,
        ensures
            final(self).follows(
                old(self),
                res,
                encode_nested::<F>(
                    old(self).written(),
                    old(self).place(),
                    *value,
                    old(self).budget(),
                ),
            ),
        decreases value, 2int,
    {
        self.serialize_nested(value)
    }

    /// Encodes a sequence: each of `items` behind a repetition of the
    /// pending key. Fails with [`Error::RootLevelSequence`] where no key is
    /// pending, and with [`Error::NestedSequence`] inside a sequence.
    fn serialize_seq(&mut self, items: &Vec<Data>) -> (res: Result<(), Error>)
        requires
            old(self).wf(),
            !(old(self).place() is AwaitingKey),
        ensures
            final(self).follows(
                old(self),
                res,
                encode_sequence::<F>(
                    old(self).written(),
                    old(self).place(),
                    items@,
                    old(self).budget(),
                ),
            ),
        decreases items, 2int,
    {
        let n = self.contexts.len();
        match &self.contexts[n - 1] {
            Context::BoundKey(_) => {},
            Context::InSequence(_) => {
                return Err(Error::NestedSequence);
            },
            _ => {
                return Err(Error::RootLevelSequence);
            },
        }
        let ghost key = self.place().key();
        match self.contexts.pop() {
            Some(Context::BoundKey(k)) => {
                self.contexts.push(Context::InSequence(k));
            },
            _ => {},
        }
        let ghost inside = self.places();
        let mut i: usize = 0;
        assert(items@.skip(0) =~= items@);
        assert(inside =~= old(self).places().drop_last().push(Place::InSequence(key)));
        while i < items.len()
            invariant
                i <= items.len(),
                self.wf(),
                old(self).place() == Place::BoundKey(key),
                old(self).places().len() >= 1,
                old(self).places().last() == Place::BoundKey(key),
                inside == old(self).places().drop_last().push(Place::InSequence(key)),
                self.place() == Place::InSequence(key),
                self.places() == inside,
                self.budget() == old(self).budget(),
                self.elements() == old(self).elements(),
                encode_elements::<F>(old(self).written(), key, items@, old(self).budget())
                    == encode_elements::<F>(
                    self.written(),
                    key,
                    items@.skip(i as int),
                    old(self).budget(),
                ),
            decreases items.len() - i,
        {
            proof {
                assert(items@.skip(i as int)[0] == items@[i as int]);
                assert(items@.skip(i as int).drop_first() =~= items@.skip(i + 1));
            }
            match self.serialize_element(&items[i]) {
                Ok(()) => {},
                Err(e) => {
                    return Err(e);
                },
            }
            i += 1;
        }
        match self.contexts.pop() {
            Some(Context::InSequence(k)) => {
                self.contexts.push(Context::BoundKey(k));
            },
            _ => {},
        }
        assert(self.places() =~= inside.drop_last().push(Place::BoundKey(key)));
        assert(self.places() =~= old(self).places());
        Ok(())
    }

    /// Encodes a tuple like a sequence.
    fn serialize_tuple(&mut self, items: &Vec<Data>) -> (res: Result<(), Error>)
        requires
            old(self).wf(),
            !(old(self).place() is AwaitingKey),
        ensures
            final(self).follows(
                old(self),
                res,
                encode_sequence::<F>(
                    old(self).written(),
                    old(self).place(),
                    items@,
                    old(self).budget(),
                ),
            ),
        decreases items, 3int,
    {
        self.serialize_seq(items)
    }

    /// Encodes a record of unnamed fields like a sequence.
    fn serialize_tuple_struct(&mut self, items: &Vec<Data>) -> (res: Result<(), Error>)
        requires
            old(self).wf(),
            !(old(self).place() is AwaitingKey),
        ensures
            final(self).follows(
                old(self),
                res,
                encode_sequence::<F>(
                    old(self).written(),
                    old(self).place(),
                    items@,
                    old(self).budget(),
                ),
            ),
        decreases items, 4int,
    {
        self.serialize_tuple(items)
    }

    /// Encodes a case that wraps one value as what it holds: the name of
    /// the case is not written.
    fn serialize_newtype_variant(&mut self, _variant: &str, value: &Data) -> (res: Result<
        (),
        Error,
    >)
        requires
            old(self).wf(),
            !(old(self).place() is AwaitingKey),
        ensures
            final(self).follows(
                old(self),
                res,
                encode_nested::<F>(
                    old(self).written(),
                    old(self).place(),
                    *value,
                    old(self).budget(),
                ),
            ),
        decreases value, 2int,
    {
        self.serialize_nested(value)
    }

    /// Encodes an object whose only pair is `value` behind `key`.
    fn serialize_pair(&mut self, key: &str, value: &Data) -> (res: Result<(), Error>)
        requires
            old(self).wf(),
            !(old(self).place() is AwaitingKey),
        ensures
            final(self).follows(
                old(self),
                res,
                ended::<F>(
                    encode_nested::<F>(
                        object_begun::<F>(old(self).written(), old(self).place()),
                        Place::BoundKey(key@),
                        *value,
                        old(self).budget(),
                    ),
                    old(self).place(),
                ),
            ),
    {
        let ghost base = self.elements();
        let ghost place = self.place();
        self.open_object();
        match self.serialize_field(key, value) {
            Ok(()) => {},
            Err(e) => {
                return Err(e);
            },
        }
        self.close_object(Ghost(base), Ghost(place));
        assert(self.places() =~= old(self).places());
        Ok(())
    }

    /// Encodes a case of unnamed fields: an object whose only key is the
    /// name of the case, repeated for each field.
    fn serialize_tuple_variant(&mut self, variant: &str, items: &Vec<Data>) -> (res: Result<
        (),
        Error,
    >)
        requires
            old(self).wf(),
            !(old(self).place() is AwaitingKey),
        ensures
            final(self).follows(
                old(self),
                res,
                if old(self).budget() == 0 {
                    Err(Fault::RecursionLimitExceeded)
                } else {
                    ended::<F>(
                        encode_sequence::<F>(
                            object_begun::<F>(old(self).written(), old(self).place()),
                            Place::BoundKey(variant@),
                            items@,
                            (old(self).budget() - 1) as nat,
                        ),
                        old(self).place(),
                    )
                },
            ),
        decreases items, 3int,
    {
        if self.budget == 0 {
            return Err(Error::RecursionLimitExceeded);
        }
        let ghost base = self.elements();
        let ghost place = self.place();
        self.open_object();
        match self.bind_key(copy_str(variant)) {
            Ok(()) => {},
            Err(e) => {
                return Err(e);
            },
        }
        match self.serialize_seq(items) {
            Ok(()) => {},
            Err(e) => {
                return Err(e);
            },
        }
        self.unbind_key();
        self.close_object(Ghost(base), Ghost(place));
        assert(self.places() =~= old(self).places());
        Ok(())
    }

    /// Encodes a map: an object with one pair for each of `entries`, in
    /// order. Fails with [`Error::KeyMustBeAString`] where a key has no text.
    fn serialize_map(&mut self, entries: &Vec<(Data, Data)>) -> (res: Result<(), Error>)
        requires
            old(self).wf(),
            !(old(self).place() is AwaitingKey),
        ensures
            final(self).follows(
                old(self),
                res,
                encode_mapping::<F>(
                    old(self).written(),
                    old(self).place(),
                    entries@,
                    old(self).budget(),
                ),
            ),
        decreases entries, 2int,
    {
        let ghost base = self.elements();
        let ghost place = self.place();
        self.open_object();
        let ghost inside = self.places();
        let ghost begun = self.written();
        let mut i: usize = 0;
        assert(entries@.skip(0) =~= entries@);
        while i < entries.len()
            invariant
                i <= entries.len(),
                self.wf(),
                self.place() == Place::AwaitingKey,
                self.places() == inside,
                self.budget() == old(self).budget(),
                self.elements() == Self::opened(base, place),
                place == old(self).place(),
                begun == object_begun::<F>(old(self).written(), place),
                encode_entries::<F>(begun, entries@, old(self).budget()) == encode_entries::<F>(
                    self.written(),
                    entries@.skip(i as int),
                    old(self).budget(),
                ),
            decreases entries.len() - i,
        {
            proof {
                assert(entries@.skip(i as int)[0] == entries@[i as int]);
                assert(entries@.skip(i as int).drop_first() =~= entries@.skip(i + 1));
            }
            let ghost w = self.written();
            assert(encode_entries::<F>(w, entries@.skip(i as int), old(self).budget()) == (
            match key_text(entries@[i as int].0) {
                Ok(key) => match encode_nested::<F>(
                    w,
                    Place::BoundKey(key),
                    entries@[i as int].1,
                    old(self).budget(),
                ) {
                    Ok(w1) => encode_entries::<F>(
                        w1,
                        entries@.skip(i + 1),
                        old(self).budget(),
                    ),
                    Err(fault) => Err(fault),
                },
                Err(fault) => Err(fault),
            }));
            match self.serialize_key(&entries[i].0) {
                Ok(()) => {},
                Err(e) => {
                    return Err(e);
                },
            }
            match self.serialize_value(&entries[i].1) {
                Ok(()) => {},
                Err(e) => {
                    return Err(e);
                },
            }
            assert(self.places() =~= inside);
            i += 1;
        }
        self.close_object(Ghost(base), Ghost(place));
        assert(self.places() =~= old(self).places());
        Ok(())
    }

    /// Encodes a record: an object with one pair for each of `fields`, in
    /// order.
    fn serialize_struct(&mut self, fields: &Vec<(String, Data)>) -> (res: Result<(), Error>)
        requires
            old(self).wf(),
            !(old(self).place() is AwaitingKey),
        ensures
            final(self).follows(
                old(self),
                res,
                encode_record::<F>(
                    old(self).written(),
                    old(self).place(),
                    fields@,
                    old(self).budget(),
                ),
            ),
        decreases fields, 2int,
    {
        let ghost base = self.elements();
        let ghost place = self.place();
        self.open_object();
        let ghost inside = self.places();
        let ghost begun = self.written();
        let mut i: usize = 0;
        assert(fields@.skip(0) =~= fields@);
        while i < fields.len()
            invariant
                i <= fields.len(),
                self.wf(),
                self.place() == Place::AwaitingKey,
                self.places() == inside,
                self.budget() == old(self).budget(),
                self.elements() == Self::opened(base, place),
                place == old(self).place(),
                begun == object_begun::<F>(old(self).written(), place),
                encode_fields::<F>(begun, fields@, old(self).budget()) == encode_fields::<F>(
                    self.written(),
                    fields@.skip(i as int),
                    old(self).budget(),
                ),
            decreases fields.len() - i,
        {
            proof {
                assert(fields@.skip(i as int)[0] == fields@[i as int]);
                assert(fields@.skip(i as int).drop_first() =~= fields@.skip(i + 1));
            }
            match self.serialize_field(fields[i].0.as_str(), &fields[i].1) {
                Ok(()) => {},
                Err(e) => {
                    return Err(e);
                },
            }
            i += 1;
        }
        self.close_object(Ghost(base), Ghost(place));
        assert(self.places() =~= old(self).places());
        Ok(())
    }

    /// Encodes a case of named fields: an object whose only key is the name
    /// of the case, and whose value is the record of the fields.
    fn serialize_struct_variant(
        &mut self,
        variant: &str,
        fields: &Vec<(String, Data)>,
    ) -> (res: Result<(), Error>)
        requires
            old(self).wf(),
            !(old(self).place() is AwaitingKey),
        ensures
            final(self).follows(
                old(self),
                res,
                if old(self).budget() == 0 {
                    Err(Fault::RecursionLimitExceeded)
                } else {
                    ended::<F>(
                        encode_record::<F>(
                            object_begun::<F>(old(self).written(), old(self).place()),
                            Place::BoundKey(variant@),
                            fields@,
                            (old(self).budget() - 1) as nat,
                        ),
                        old(self).place(),
                    )
                },
            ),
        decreases fields, 3int,
    {
        if self.budget == 0 {
            return Err(Error::RecursionLimitExceeded);
        }
        let ghost base = self.elements();
        let ghost place = self.place();
        self.open_object();
        match self.bind_key(copy_str(variant)) {
            Ok(()) => {},
            Err(e) => {
                return Err(e);
            },
        }
        match self.serialize_struct(fields) {
            Ok(()) => {},
            Err(e) => {
                return Err(e);
            },
        }
        self.unbind_key();
        self.close_object(Ghost(base), Ghost(place));
        assert(self.places() =~= old(self).places());
        Ok(())
    }

    /// Walks the tree `value` and writes it as the next value.
    fn walk_tree(&mut self, value: &Value) -> (res: Result<(), Error>)
        requires
            old(self).wf(),
            !(old(self).place() is AwaitingKey),
        ensures
            final(self).follows(
                old(self),
                res,
                encode_node::<F>(
                    old(self).written(),
                    old(self).place(),
                    value@,
                    old(self).budget(),
                ),
            ),
        decreases height(value@), 3int,
    {
        match value {
            Value::String(text) => self.serialize_str(text.as_str()),
            Value::Object(object) => self.walk_object(object),
        }
    }

    /// Encodes `object` as the next value: an object with one pair for each
    /// value of each key, in order.
    fn walk_object(&mut self, object: &Object) -> (res: Result<(), Error>)
        requires
            old(self).wf(),
            !(old(self).place() is AwaitingKey),
        ensures
            final(self).follows(
                old(self),
                res,
                encode_node::<F>(
                    old(self).written(),
                    old(self).place(),
                    Node::Object(object@),
                    old(self).budget(),
                ),
            ),
        decreases height(Node::Object(object@)), 2int,
    {
        let ghost base = self.elements();
        let ghost place = self.place();
        self.open_object();
        let ghost inside = self.places();
        let ghost begun = self.written();
        let mut i: usize = 0;
        assert(object@.skip(0) =~= object@);
        while i < object.len()
            invariant
                i <= object@.len(),
                self.wf(),
                self.place() == Place::AwaitingKey,
                self.places() == inside,
                self.budget() == old(self).budget(),
                self.elements() == Self::opened(base, place),
                place == old(self).place(),
                begun == object_begun::<F>(old(self).written(), place),
                encode_node_entries::<F>(begun, object@, old(self).budget())
                    == encode_node_entries::<F>(
                    self.written(),
                    object@.skip(i as int),
                    old(self).budget(),
                ),
            decreases object@.len() - i,
        {
            proof {
                assert(object@.skip(i as int)[0] == object@[i as int]);
                assert(object@.skip(i as int).drop_first() =~= object@.skip(i + 1));
            }
            match self.bind_key(copy_str(object.key_at(i))) {
                Ok(()) => {},
                Err(e) => {
                    return Err(e);
                },
            }
            match self.serialize_values(object.values_at(i), Ghost(object@), Ghost(i as int)) {
                Ok(()) => {},
                Err(e) => {
                    return Err(e);
                },
            }
            self.unbind_key();
            assert(self.places() =~= inside);
            i += 1;
        }
        self.close_object(Ghost(base), Ghost(place));
        assert(self.places() =~= old(self).places());
        Ok(())
    }

    /// Encodes `values`, which stand at place `at` of `entries`, each
    /// behind a repetition of the pending key.
    fn serialize_values(
        &mut self,
        values: &Vec<Value>,
        Ghost(entries): Ghost<Entries>,
        Ghost(at): Ghost<int>,
    ) -> (res: Result<(), Error>)
        requires
            old(self).wf(),
            old(self).place() is BoundKey,
            0 <= at < entries.len(),
            nodes_of(values@) == entries[at].1,
        ensures
            final(self).follows(
                old(self),
                res,
                encode_node_values::<F>(
                    old(self).written(),
                    old(self).place().key(),
                    nodes_of(values@),
                    old(self).budget(),
                ),
            ),
        decreases height(Node::Object(entries)), 1int,
    {
        let ghost key = self.place().key();
        match self.contexts.pop() {
            Some(Context::BoundKey(k)) => {
                self.contexts.push(Context::InSequence(k));
            },
            _ => {},
        }
        let ghost inside = self.places();
        let mut i: usize = 0;
        assert(nodes_of(values@).skip(0) =~= nodes_of(values@));
        assert(inside =~= old(self).places().drop_last().push(Place::InSequence(key)));
        while i < values.len()
            invariant
                i <= values.len(),
                self.wf(),
                0 <= at < entries.len(),
                nodes_of(values@) == entries[at].1,
                old(self).place() == Place::BoundKey(key),
                old(self).places().len() >= 1,
                old(self).places().last() == Place::BoundKey(key),
                inside == old(self).places().drop_last().push(Place::InSequence(key)),
                self.place() == Place::InSequence(key),
                self.places() == inside,
                self.budget() == old(self).budget(),
                self.elements() == old(self).elements(),
                encode_node_values::<F>(
                    old(self).written(),
                    key,
                    nodes_of(values@),
                    old(self).budget(),
                ) == encode_node_values::<F>(
                    self.written(),
                    key,
                    nodes_of(values@).skip(i as int),
                    old(self).budget(),
                ),
            decreases values.len() - i,
        {
            proof {
                assert(nodes_of(values@).skip(i as int)[0] == values@[i as int]@);
                assert(nodes_of(values@).skip(i as int).drop_first() =~= nodes_of(values@).skip(
                    i + 1,
                ));
                assert(nodes_of(values@)[i as int] == values@[i as int]@);
                member_is_lower(entries, at, i as int);
            }
            if self.budget == 0 {
                return Err(Error::RecursionLimitExceeded);
            }
            self.budget -= 1;
            match self.walk_tree(&values[i]) {
                Ok(()) => {},
                Err(e) => {
                    return Err(e);
                },
            }
            self.budget += 1;
            i += 1;
        }
        match self.contexts.pop() {
            Some(Context::InSequence(k)) => {
                self.contexts.push(Context::BoundKey(k));
            },
            _ => {},
        }
        assert(self.places() =~= inside.drop_last().push(Place::BoundKey(key)));
        assert(self.places() =~= old(self).places());
        Ok(())
    }

    /// How the next value stands.
    fn standing(&self) -> (standing: Standing)
        requires
            self.wf(),
        ensures
            standing == standing_at(self.place()),
    {
        let n = self.contexts.len();
        match &self.contexts[n - 1] {
            Context::BoundKey(_) => Standing::Keyed,
            Context::InSequence(_) => Standing::Element,
            _ => Standing::Root,
        }
    }

    /// Encodes `value` as the next value.
    ///
    /// The value is looked through before anything is written: where it has
    /// a fault, the call fails with it and the encoder is left as it was.
    pub fn serialize(&mut self, value: &Data) -> (res: Result<(), Error>)
        requires
            old(self).wf(),
            !(old(self).place() is AwaitingKey),
        ensures
            final(self).follows(
                old(self),
                res,
                encode::<F>(old(self).written(), old(self).place(), *value, old(self).budget()),
            ),
            fails_with(res, fault_of(standing_at(old(self).place()), *value, old(self).budget())),
            res is Err ==> *final(self) == *old(self),
    {
        proof {
            encoding_fails_by_the_value::<F>(self.written(), self.place(), *value, self.budget());
        }
        match find_fault(self.standing(), value, self.budget) {
            Some(e) => Err(e),
            None => self.walk(value),
        }
    }

    /// Encodes `value` behind `key`, as the only pair of an object that is
    /// the next value.
    ///
    /// The value is looked through before anything is written: where it has
    /// a fault, the call fails with it and the encoder is left as it was.
    pub fn serialize_keyed(&mut self, key: &str, value: &Data) -> (res: Result<(), Error>)
        requires
            old(self).wf(),
            !(old(self).place() is AwaitingKey),
        ensures
            final(self).follows(
                old(self),
                res,
                ended::<F>(
                    encode_nested::<F>(
                        object_begun::<F>(old(self).written(), old(self).place()),
                        Place::BoundKey(key@),
                        *value,
                        old(self).budget(),
                    ),
                    old(self).place(),
                ),
            ),
            fails_with(res, nested_fault_of(Standing::Keyed, *value, old(self).budget())),
            res is Err ==> *final(self) == *old(self),
    {
        proof {
            nested_fails_by_the_value::<F>(
                object_begun::<F>(self.written(), self.place()),
                Place::BoundKey(key@),
                *value,
                self.budget(),
            );
        }
        if self.budget == 0 {
            return Err(Error::RecursionLimitExceeded);
        }
        match find_fault(Standing::Keyed, value, self.budget - 1) {
            Some(e) => Err(e),
            None => self.serialize_pair(key, value),
        }
    }

    /// Encodes the tree `value` as the next value.
    ///
    /// The tree is looked through before anything is written: where it is
    /// nested too deep, the call fails and the encoder is left as it was.
    pub fn serialize_tree(&mut self, value: &Value) -> (res: Result<(), Error>)
        requires
            old(self).wf(),
            !(old(self).place() is AwaitingKey),
        ensures
            final(self).follows(
                old(self),
                res,
                encode_node::<F>(
                    old(self).written(),
                    old(self).place(),
                    value@,
                    old(self).budget(),
                ),
            ),
            fails_with(res, node_fault_of(value@, old(self).budget())),
            res is Err ==> *final(self) == *old(self),
    {
        proof {
            tree_fails_by_the_tree::<F>(self.written(), self.place(), value@, self.budget());
        }
        match find_tree_fault(value, self.budget) {
            Some(e) => Err(e),
            None => self.walk_tree(value),
        }
    }

    /// Encodes `object` as the next value: an object with one pair for each
    /// value of each key, in order.
    ///
    /// The object is looked through before anything is written: where it is
    /// nested too deep, the call fails and the encoder is left as it was.
    pub fn serialize_object(&mut self, object: &Object) -> (res: Result<(), Error>)
        requires
            old(self).wf(),
            !(old(self).place() is AwaitingKey),
        ensures
            final(self).follows(
                old(self),
                res,
                encode_node::<F>(
                    old(self).written(),
                    old(self).place(),
                    Node::Object(object@),
                    old(self).budget(),
                ),
            ),
            fails_with(res, node_entries_fault_of(object@, old(self).budget())),
            res is Err ==> *final(self) == *old(self),
    {
        proof {
            tree_fails_by_the_tree::<F>(
                self.written(),
                self.place(),
                Node::Object(object@),
                self.budget(),
            );
        }
        match find_object_fault(object, self.budget) {
            Some(e) => Err(e),
            None => self.walk_object(object),
        }
    }
}

} // verus!
