//! The generic tree that text is read into and written from.

use crate::error::Error;
use crate::ser::fault::{fails_with, node_entries_fault_of, node_fault_of};
use crate::ser::formatter::Formatter;
use crate::ser::serializer::{Serializer, encode_node};
use crate::text::{copy_str, same_text};
use indexmap::IndexMap;
use vstd::prelude::*;
use vstd::std_specs::cmp::PartialEqSpecImpl;

verus! {

/// A KeyValues value: a string or an object.
#[derive(Debug)]
pub enum Value {
    /// A string.
    String(String),
    /// An object.
    Object(Object),
}

/// A KeyValues object: keys in the order in which they first came, each with
/// the values that were given under it, in order.
///
/// Trusted: the entries are held in an `indexmap::IndexMap`, which is not
/// looked into. What it holds is known by [`object_entries`] alone, through
/// the contracts of the functions that call its methods.
#[verifier::external_body]
#[derive(Debug)]
pub struct Object {
    inner: IndexMap<String, Vec<Value>>,
}

/// A KeyValues document: the entries of its root.
#[derive(Debug)]
pub struct KeyValues {
    /// The root object of the document.
    pub root: Object,
}

/// The mathematical content of a [`Value`].
pub enum Node {
    Text(Seq<char>),
    Object(Seq<(Seq<char>, Seq<Node>)>),
}

/// The mathematical content of an [`Object`]: its keys, each with its
/// values.
pub type Entries = Seq<(Seq<char>, Seq<Node>)>;

/// The contents of the values `values`.
pub open spec fn nodes_of(values: Seq<Value>) -> Seq<Node> {
    Seq::new(values.len(), |j: int| values[j]@)
}

/// The entries that `object` holds, in the order in which their keys were
/// first inserted: each key with the contents of its values.
pub uninterp spec fn object_entries(object: Object) -> Seq<(Seq<char>, Seq<Node>)>;

impl View for Value {
    type V = Node;

    open spec fn view(&self) -> Node {
        match self {
            Value::String(s) => Node::Text(s@),
            Value::Object(o) => Node::Object(object_entries(*o)),
        }
    }
}

impl View for Object {
    type V = Entries;

    open spec fn view(&self) -> Entries {
        object_entries(*self)
    }
}

/// The first place at or behind `from` where `key` stands in `entries`, or
/// the length of `entries` where it stands nowhere.
pub open spec fn position_from(entries: Entries, key: Seq<char>, from: int) -> int
    decreases entries.len() - from,
{
    if from < 0 || from >= entries.len() {
        entries.len() as int
    } else if entries[from].0 == key {
        from
    } else {
        position_from(entries, key, from + 1)
    }
}

/// The first place where `key` stands in `entries`, or the length of
/// `entries`.
pub open spec fn position_of(entries: Entries, key: Seq<char>) -> int {
    position_from(entries, key, 0)
}

/// `entries` with `node` given under `key`: behind the values that the key
/// has already, or under a new key at the end.
pub open spec fn pushed(entries: Entries, key: Seq<char>, node: Node) -> Entries {
    let at = position_of(entries, key);
    if at < entries.len() {
        entries.update(at, (key, entries[at].1.push(node)))
    } else {
        entries.push((key, seq![node]))
    }
}

/// `entries` with `nodes` as the values of `key`: in place of the values
/// that the key has already, or under a new key at the end.
pub open spec fn inserted(entries: Entries, key: Seq<char>, nodes: Seq<Node>) -> Entries {
    let at = position_of(entries, key);
    if at < entries.len() {
        entries.update(at, (key, nodes))
    } else {
        entries.push((key, nodes))
    }
}

/// `position_from` gives the first place of `key` at or behind `from`.
pub proof fn position_from_is_first(entries: Entries, key: Seq<char>, from: int)
    requires
        0 <= from <= entries.len(),
    ensures
        from <= position_from(entries, key, from) <= entries.len(),
        position_from(entries, key, from) < entries.len() ==> entries[position_from(
            entries,
            key,
            from,
        )].0 == key,
        forall|k: int|
            from <= k < position_from(entries, key, from) ==> (#[trigger] entries[k]).0 != key,
    decreases entries.len() - from,
{
    if from < entries.len() && entries[from].0 != key {
        position_from_is_first(entries, key, from + 1);
    }
}

/// `acc` with each of `values` given under `key`, in order.
pub open spec fn pushed_values(acc: Entries, key: Seq<char>, values: Seq<Node>) -> Entries
    decreases values.len(),
{
    if values.len() == 0 {
        acc
    } else {
        pushed_values(pushed(acc, key, values[0]), key, values.drop_first())
    }
}

/// `acc` with each value of each key of `entries` given under its key, in
/// order.
pub open spec fn pushed_entries(acc: Entries, entries: Entries) -> Entries
    decreases entries.len(),
{
    if entries.len() == 0 {
        acc
    } else {
        pushed_entries(pushed_values(acc, entries[0].0, entries[0].1), entries.drop_first())
    }
}

/// Whether no key stands twice in `entries`.
pub open spec fn distinct_keys(entries: Entries) -> bool {
    forall|i: int, j: int|
        0 <= i < j < entries.len() ==> (#[trigger] entries[i]).0 != (#[trigger] entries[j]).0
}

/// Whether `node` is well formed: in every object in it, no key stands
/// twice and every key has a value.
pub open spec fn node_wf(node: Node) -> bool
    decreases node,
{
    match node {
        Node::Text(_) => true,
        Node::Object(entries) => entries_wf(entries),
    }
}

/// Whether `entries` are well formed: no key stands twice, every key has a
/// value, and every value is well formed.
pub open spec fn entries_wf(entries: Entries) -> bool
    decreases entries,
{
    &&& distinct_keys(entries)
    &&& forall|i: int| 0 <= i < entries.len() ==> (#[trigger] entries[i]).1.len() > 0
    &&& forall|i: int, j: int|
        0 <= i < entries.len() && 0 <= j < entries[i].1.len() ==> node_wf(
            #[trigger] entries[i].1[j],
        )
}

/// Giving a well-formed value under a key keeps entries well formed.
pub proof fn pushed_is_wf(entries: Entries, key: Seq<char>, node: Node)
    requires
        entries_wf(entries),
        node_wf(node),
    ensures
        entries_wf(pushed(entries, key, node)),
{
    let after = pushed(entries, key, node);
    let at = position_of(entries, key);
    position_from_is_first(entries, key, 0);
    if at < entries.len() {
        assert forall|i: int, j: int| 0 <= i < j < after.len() implies (#[trigger] after[i]).0 != (
        #[trigger] after[j]).0 by {
            assert(after[i].0 == entries[i].0);
            assert(after[j].0 == entries[j].0);
        }
        assert forall|i: int| 0 <= i < after.len() implies (#[trigger] after[i]).1.len() > 0 by {
            if i != at {
                assert(after[i] == entries[i]);
            }
        }
        assert forall|i: int, j: int|
            0 <= i < after.len() && 0 <= j < after[i].1.len() implies node_wf(
            #[trigger] after[i].1[j],
        ) by {
            if i != at {
                assert(after[i] == entries[i]);
            } else if j < entries[at].1.len() {
                assert(after[i].1[j] == entries[i].1[j]);
            }
        }
    } else {
        assert forall|i: int, j: int| 0 <= i < j < after.len() implies (#[trigger] after[i]).0 != (
        #[trigger] after[j]).0 by {
            assert(after[i] == entries[i]);
            if j < entries.len() {
                assert(after[j] == entries[j]);
            }
        }
        assert forall|i: int| 0 <= i < after.len() implies (#[trigger] after[i]).1.len() > 0 by {
            if i < entries.len() {
                assert(after[i] == entries[i]);
            }
        }
        assert forall|i: int, j: int|
            0 <= i < after.len() && 0 <= j < after[i].1.len() implies node_wf(
            #[trigger] after[i].1[j],
        ) by {
            if i < entries.len() {
                assert(after[i] == entries[i]);
            }
        }
    }
}

/// Making well-formed values, at least one, the values of a key keeps
/// entries well formed.
pub proof fn inserted_is_wf(entries: Entries, key: Seq<char>, nodes: Seq<Node>)
    requires
        entries_wf(entries),
        nodes.len() > 0,
        forall|j: int| 0 <= j < nodes.len() ==> node_wf(#[trigger] nodes[j]),
    ensures
        entries_wf(inserted(entries, key, nodes)),
{
    let after = inserted(entries, key, nodes);
    let at = position_of(entries, key);
    position_from_is_first(entries, key, 0);
    if at < entries.len() {
        assert forall|i: int, j: int| 0 <= i < j < after.len() implies (#[trigger] after[i]).0 != (
        #[trigger] after[j]).0 by {
            assert(after[i].0 == entries[i].0);
            assert(after[j].0 == entries[j].0);
        }
        assert forall|i: int| 0 <= i < after.len() implies (#[trigger] after[i]).1.len() > 0 by {
            if i != at {
                assert(after[i] == entries[i]);
            }
        }
        assert forall|i: int, j: int|
            0 <= i < after.len() && 0 <= j < after[i].1.len() implies node_wf(
            #[trigger] after[i].1[j],
        ) by {
            if i != at {
                assert(after[i] == entries[i]);
            }
        }
    } else {
        assert forall|i: int, j: int| 0 <= i < j < after.len() implies (#[trigger] after[i]).0 != (
        #[trigger] after[j]).0 by {
            assert(after[i] == entries[i]);
            if j < entries.len() {
                assert(after[j] == entries[j]);
            }
        }
        assert forall|i: int| 0 <= i < after.len() implies (#[trigger] after[i]).1.len() > 0 by {
            if i < entries.len() {
                assert(after[i] == entries[i]);
            }
        }
        assert forall|i: int, j: int|
            0 <= i < after.len() && 0 <= j < after[i].1.len() implies node_wf(
            #[trigger] after[i].1[j],
        ) by {
            if i < entries.len() {
                assert(after[i] == entries[i]);
            }
        }
    }
}

/// The number of objects that stand inside one another in `node`, itself
/// included.
pub open spec fn height(node: Node) -> nat
    decreases node, 0int,
{
    match node {
        Node::Text(_) => 0,
        Node::Object(entries) => 1 + entries_height(entries),
    }
}

/// The greatest height of a value of `values`.
pub open spec fn values_height(values: Seq<Node>) -> nat
    decreases values, 1int,
{
    if values.len() == 0 {
        0
    } else {
        let first = height(values[0]);
        let rest = values_height(values.drop_first());
        if first >= rest {
            first
        } else {
            rest
        }
    }
}

/// The greatest height of a value of `entries`.
pub open spec fn entries_height(entries: Entries) -> nat
    decreases entries, 1int,
{
    if entries.len() == 0 {
        0
    } else {
        let first = values_height(entries[0].1);
        let rest = entries_height(entries.drop_first());
        if first >= rest {
            first
        } else {
            rest
        }
    }
}

/// A value of an object is lower than the object.
pub proof fn member_is_lower(entries: Entries, i: int, j: int)
    requires
        0 <= i < entries.len(),
        0 <= j < entries[i].1.len(),
    ensures
        height(entries[i].1[j]) < height(Node::Object(entries)),
    decreases entries.len(),
{
    value_is_not_higher(entries[i].1, j);
    entry_is_not_higher(entries, i);
}

/// A value of a key is not higher than the values of the key together.
pub proof fn value_is_not_higher(values: Seq<Node>, j: int)
    requires
        0 <= j < values.len(),
    ensures
        height(values[j]) <= values_height(values),
    decreases values.len(),
{
    if j > 0 {
        value_is_not_higher(values.drop_first(), j - 1);
    }
}

/// The values of a key are not higher than the entries together.
pub proof fn entry_is_not_higher(entries: Entries, i: int)
    requires
        0 <= i < entries.len(),
    ensures
        values_height(entries[i].1) <= entries_height(entries),
    decreases entries.len(),
{
    if i > 0 {
        entry_is_not_higher(entries.drop_first(), i - 1);
    }
}

/// Whether the values `a` and `b` are alike: as many, and alike one by one.
pub open spec fn values_alike(a: Seq<Node>, b: Seq<Node>) -> bool
    decreases a, 1int,
{
    a.len() == b.len() && forall|j: int| 0 <= j < a.len() ==> alike(#[trigger] a[j], b[j])
}

/// Whether the entries `a` and `b` are alike: as many, and each key of `a`
/// stands in `b` with values that are alike. The order of the keys does not
/// count.
pub open spec fn entries_alike(a: Entries, b: Entries) -> bool
    decreases a, 1int,
{
    a.len() == b.len() && forall|i: int|
        0 <= i < a.len() ==> position_of(b, (#[trigger] a[i]).0) < b.len() && values_alike(
            a[i].1,
            b[position_of(b, a[i].0)].1,
        )
}

/// Whether the trees `a` and `b` are alike: the same string, or objects
/// whose entries are alike.
pub open spec fn alike(a: Node, b: Node) -> bool
    decreases a, 0int,
{
    match (a, b) {
        (Node::Text(x), Node::Text(y)) => x == y,
        (Node::Object(x), Node::Object(y)) => entries_alike(x, y),
        _ => false,
    }
}

/// Makes a map without entries. Trusted: `IndexMap::new` returns a map that
/// holds nothing.
#[verifier::external_body]
fn map_new() -> (object: Object)
    ensures
        object_entries(object) == Seq::<(Seq<char>, Seq<Node>)>::empty(),
{
    Object { inner: IndexMap::new() }
}

/// The number of keys. Trusted: `IndexMap::len` returns the number of
/// key-value pairs that the map holds.
#[verifier::external_body]
fn map_len(object: &Object) -> (n: usize)
    ensures
        n == object_entries(*object).len(),
{
    object.inner.len()
}

/// The key at place `i`. Trusted: `IndexMap::get_index` returns the pair at
/// the given place in the order of insertion, where the place is below the
/// length; a map holds no key twice, so that the key stands at no place
/// before this one.
#[verifier::external_body]
fn map_key(object: &Object, i: usize) -> (key: &str)
    requires
        i < object_entries(*object).len(),
    ensures
        key@ == object_entries(*object)[i as int].0,
        position_of(object_entries(*object), key@) == i,
{
    object.inner.get_index(i).unwrap().0.as_str()
}

/// The values at place `i`. Trusted: `IndexMap::get_index` returns the pair
/// at the given place in the order of insertion, where the place is below
/// the length.
#[verifier::external_body]
fn map_values(object: &Object, i: usize) -> (values: &Vec<Value>)
    requires
        i < object_entries(*object).len(),
    ensures
        nodes_of(values@) == object_entries(*object)[i as int].1,
{
    object.inner.get_index(i).unwrap().1
}

/// The values at place `i`, to be changed. Trusted: `IndexMap::get_index_mut`
/// returns the pair at the given place in the order of insertion, where the
/// place is below the length; the key and the other pairs stay as they are.
#[verifier::external_body]
fn map_values_mut(object: &mut Object, i: usize) -> (values: &mut Vec<Value>)
    requires
        i < object_entries(*old(object)).len(),
    ensures
        nodes_of(values@) == object_entries(*old(object))[i as int].1,
        object_entries(*final(object)) == object_entries(*old(object)).update(
            i as int,
            (object_entries(*old(object))[i as int].0, nodes_of(final(values)@)),
        ),
{
    object.inner.get_index_mut(i).unwrap().1
}

/// The place of `key`. Trusted: `IndexMap::get_index_of` returns the place
/// of the key in the order of insertion, if the map holds the key; a map
/// holds no key twice.
#[verifier::external_body]
fn map_index_of(object: &Object, key: &str) -> (at: Option<usize>)
    ensures
        match at {
            Some(i) => i < object_entries(*object).len() && i == position_of(
                object_entries(*object),
                key@,
            ),
            None => position_of(object_entries(*object), key@) == object_entries(*object).len(),
        },
{
    object.inner.get_index_of(key)
}

/// Binds `key` to `values`. Trusted: `IndexMap::insert` puts the values in
/// the place of those that the key has, which it returns, and keeps the
/// place of the key; a key that the map does not hold is inserted last, and
/// nothing is returned.
#[verifier::external_body]
fn map_insert(object: &mut Object, key: String, values: Vec<Value>) -> (previous: Option<
    Vec<Value>,
>)
    ensures
        object_entries(*final(object)) == inserted(
            object_entries(*old(object)),
            key@,
            nodes_of(values@),
        ),
        match previous {
            Some(before) => position_of(object_entries(*old(object)), key@) < object_entries(
                *old(object),
            ).len() && nodes_of(before@) == object_entries(*old(object))[position_of(
                object_entries(*old(object)),
                key@,
            )].1,
            None => position_of(object_entries(*old(object)), key@) == object_entries(
                *old(object),
            ).len(),
        },
{
    object.inner.insert(key, values)
}

/// Takes the last pair out. Trusted: `IndexMap::pop` removes the pair that
/// is last in the order of insertion and returns it, and returns nothing
/// where the map holds nothing.
#[verifier::external_body]
fn map_pop(object: &mut Object) -> (last: Option<(String, Vec<Value>)>)
    ensures
        match last {
            Some((key, values)) => object_entries(*old(object)).len() > 0 && object_entries(
                *final(object),
            ) == object_entries(*old(object)).drop_last() && key@ == object_entries(
                *old(object),
            ).last().0 && nodes_of(values@) == object_entries(*old(object)).last().1,
            None => object_entries(*old(object)).len() == 0 && object_entries(*final(object))
                == object_entries(*old(object)),
        },
{
    object.inner.pop()
}

impl Object {
    /// An object without entries.
    pub fn new() -> (o: Self)
        ensures
            o@ == Seq::<(Seq<char>, Seq<Node>)>::empty(),
            entries_wf(o@),
    {
        map_new()
    }

    /// The number of keys.
    pub fn len(&self) -> (n: usize)
        ensures
            n == self@.len(),
    {
        map_len(self)
    }

    /// Whether the object has no key.
    pub fn is_empty(&self) -> (r: bool)
        ensures
            r == (self@.len() == 0),
    {
        map_len(self) == 0
    }

    /// The key at place `i`, which stands at no place before it.
    pub fn key_at(&self, i: usize) -> (key: &str)
        requires
            i < self@.len(),
        ensures
            key@ == self@[i as int].0,
            position_of(self@, key@) == i,
    {
        map_key(self, i)
    }

    /// The values of the key at place `i`.
    pub fn values_at(&self, i: usize) -> (values: &Vec<Value>)
        requires
            i < self@.len(),
        ensures
            nodes_of(values@) == self@[i as int].1,
    {
        map_values(self, i)
    }

    /// The first place where `key` stands, or the number of keys where it
    /// stands nowhere.
    pub fn position(&self, key: &str) -> (at: usize)
        ensures
            at == position_of(self@, key@),
            at <= self@.len(),
    {
        match map_index_of(self, key) {
            Some(at) => at,
            None => map_len(self),
        }
    }

    /// The values of `key`, if it stands in the object.
    pub fn get(&self, key: &str) -> (res: Option<&Vec<Value>>)
        ensures
            match res {
                Some(values) => position_of(self@, key@) < self@.len() && nodes_of(values@)
                    == self@[position_of(self@, key@)].1,
                None => position_of(self@, key@) == self@.len(),
            },
    {
        match map_index_of(self, key) {
            Some(at) => Some(map_values(self, at)),
            None => None,
        }
    }

    /// Gives `value` under `key`: behind the values that the key has
    /// already, or under a new key at the end.
    pub fn push(&mut self, key: String, value: Value)
        ensures
            final(self)@ == pushed(old(self)@, key@, value@),
            entries_wf(old(self)@) && node_wf(value@) ==> entries_wf(final(self)@),
    {
        proof {
            position_from_is_first(self@, key@, 0);
            if entries_wf(self@) && node_wf(value@) {
                pushed_is_wf(self@, key@, value@);
            }
        }
        match map_index_of(self, key.as_str()) {
            Some(at) => {
                let values = map_values_mut(self, at);
                let ghost before = values@;
                values.push(value);
                assert(nodes_of(values@) =~= nodes_of(before).push(value@));
            },
            None => {
                let mut values: Vec<Value> = Vec::new();
                values.push(value);
                assert(nodes_of(values@) =~= seq![value@]);
                let _ = map_insert(self, key, values);
            },
        }
    }

    /// Takes the last key out of the object, with its values.
    pub fn pop(&mut self) -> (last: Option<(String, Vec<Value>)>)
        ensures
            match last {
                Some((key, values)) => old(self)@.len() > 0 && final(self)@ == old(
                    self,
                )@.drop_last() && key@ == old(self)@.last().0 && nodes_of(values@) == old(
                    self,
                )@.last().1,
                None => old(self)@.len() == 0 && final(self)@ == old(self)@,
            },
    {
        map_pop(self)
    }

    /// Makes `values` the values of `key`: in place of the values that the
    /// key has already, which are returned, or under a new key at the end.
    pub fn insert(&mut self, key: String, values: Vec<Value>) -> (previous: Option<Vec<Value>>)
        ensures
            final(self)@ == inserted(old(self)@, key@, nodes_of(values@)),
            entries_wf(old(self)@) && values@.len() > 0 && (forall|j: int|
                0 <= j < values@.len() ==> node_wf(#[trigger] nodes_of(values@)[j]))
                ==> entries_wf(final(self)@),
            match previous {
                Some(before) => position_of(old(self)@, key@) < old(self)@.len() && nodes_of(
                    before@,
                ) == old(self)@[position_of(old(self)@, key@)].1,
                None => position_of(old(self)@, key@) == old(self)@.len(),
            },
    {
        proof {
            if entries_wf(self@) && values@.len() > 0 && (forall|j: int|
                0 <= j < values@.len() ==> node_wf(#[trigger] nodes_of(values@)[j])) {
                inserted_is_wf(self@, key@, nodes_of(values@));
            }
        }
        map_insert(self, key, values)
    }

    /// Whether this object and `other` hold the same keys with the same
    /// values in the same order.
    pub fn same(&self, other: &Object) -> (r: bool)
        ensures
            r == (self@ == other@),
        decreases height(Node::Object(self@)), 2int,
    {
        if self.len() != other.len() {
            return false;
        }
        let mut i: usize = 0;
        while i < self.len()
            invariant
                i <= self@.len(),
                self@.len() == other@.len(),
                forall|k: int| 0 <= k < i ==> self@[k] == other@[k],
            decreases self@.len() - i,
        {
            if !same_text(self.key_at(i), other.key_at(i)) {
                assert(self@[i as int].0 != other@[i as int].0);
                return false;
            }
            if !same_values(self.values_at(i), other.values_at(i), Ghost(self@), Ghost(i as int)) {
                assert(self@[i as int].1 != other@[i as int].1);
                return false;
            }
            i += 1;
        }
        assert(self@ =~= other@);
        true
    }

    /// Whether this object and `other` are alike: they hold the same keys,
    /// in whatever order, each with values that are alike.
    pub fn alike(&self, other: &Object) -> (r: bool)
        ensures
            r == entries_alike(self@, other@),
        decreases height(Node::Object(self@)), 2int,
    {
        if self.len() != other.len() {
            return false;
        }
        let mut i: usize = 0;
        while i < self.len()
            invariant
                i <= self@.len(),
                self@.len() == other@.len(),
                forall|k: int|
                    0 <= k < i ==> position_of(other@, (#[trigger] self@[k]).0) < other@.len()
                        && values_alike(self@[k].1, other@[position_of(other@, self@[k].0)].1),
            decreases self@.len() - i,
        {
            let at = other.position(self.key_at(i));
            if at >= other.len() {
                return false;
            }
            let values = self.values_at(i);
            if !alike_values(values, other.values_at(at), Ghost(self@), Ghost(i as int)) {
                return false;
            }
            i += 1;
        }
        true
    }

    /// A copy of this object.
    pub fn copy(&self) -> (r: Object)
        ensures
            r@ == self@,
        decreases height(Node::Object(self@)), 2int,
    {
        let mut r = Object::new();
        let mut i: usize = 0;
        assert(self@.take(0) =~= r@);
        while i < self.len()
            invariant
                i <= self@.len(),
                r@ == self@.take(i as int),
            decreases self@.len() - i,
        {
            let key = self.key_at(i);
            let values = copy_values(self.values_at(i), Ghost(self@), Ghost(i as int));
            proof {
                new_in_prefix(self@, key@, i as int);
            }
            let _ = r.insert(copy_str(key), values);
            assert(r@ =~= self@.take(i + 1));
            i += 1;
        }
        assert(self@.take(i as int) =~= self@);
        r
    }
}

/// A key that stands at no place before `i` stands nowhere in the first
/// `i` entries.
proof fn new_in_prefix(entries: Entries, key: Seq<char>, i: int)
    requires
        0 <= i <= entries.len(),
        position_of(entries, key) >= i,
    ensures
        position_of(entries.take(i), key) == i,
{
    let prefix = entries.take(i);
    position_from_is_first(entries, key, 0);
    position_from_is_first(prefix, key, 0);
    let at = position_of(prefix, key);
    if at < i {
        assert(prefix[at] == entries[at]);
    }
}

/// Copies of the values `a`, which stand at place `i` of `entries`.
fn copy_values(a: &Vec<Value>, Ghost(entries): Ghost<Entries>, Ghost(i): Ghost<int>) -> (r: Vec<
    Value,
>)
    requires
        0 <= i < entries.len(),
        nodes_of(a@) == entries[i].1,
    ensures
        nodes_of(r@) == nodes_of(a@),
    decreases height(Node::Object(entries)), 1int,
{
    let mut r: Vec<Value> = Vec::new();
    let mut j: usize = 0;
    while j < a.len()
        invariant
            j <= a.len(),
            0 <= i < entries.len(),
            nodes_of(a@) == entries[i].1,
            r@.len() == j,
            forall|k: int| 0 <= k < j ==> r@[k]@ == a@[k]@,
        decreases a.len() - j,
    {
        proof {
            assert(nodes_of(a@)[j as int] == a@[j as int]@);
            member_is_lower(entries, i, j as int);
        }
        r.push(a[j].copy());
        j += 1;
    }
    assert(nodes_of(r@) =~= nodes_of(a@));
    r
}

/// Whether the values `a`, which stand at place `i` of `entries`, and `b`
/// have the same contents.
fn same_values(
    a: &Vec<Value>,
    b: &Vec<Value>,
    Ghost(entries): Ghost<Entries>,
    Ghost(i): Ghost<int>,
) -> (r: bool)
    requires
        0 <= i < entries.len(),
        nodes_of(a@) == entries[i].1,
    ensures
        r == (nodes_of(a@) == nodes_of(b@)),
    decreases height(Node::Object(entries)), 1int,
{
    if a.len() != b.len() {
        assert(nodes_of(a@).len() != nodes_of(b@).len());
        return false;
    }
    let mut j: usize = 0;
    while j < a.len()
        invariant
            j <= a.len(),
            a.len() == b.len(),
            0 <= i < entries.len(),
            nodes_of(a@) == entries[i].1,
            forall|k: int| 0 <= k < j ==> a@[k]@ == b@[k]@,
        decreases a.len() - j,
    {
        proof {
            assert(nodes_of(a@)[j as int] == a@[j as int]@);
            member_is_lower(entries, i, j as int);
        }
        if !a[j].same(&b[j]) {
            assert(nodes_of(a@)[j as int] != nodes_of(b@)[j as int]);
            return false;
        }
        j += 1;
    }
    assert(nodes_of(a@) =~= nodes_of(b@));
    true
}

/// Whether the values `a`, which stand at place `i` of `entries`, and `b`
/// are alike.
fn alike_values(
    a: &Vec<Value>,
    b: &Vec<Value>,
    Ghost(entries): Ghost<Entries>,
    Ghost(i): Ghost<int>,
) -> (r: bool)
    requires
        0 <= i < entries.len(),
        nodes_of(a@) == entries[i].1,
    ensures
        r == values_alike(nodes_of(a@), nodes_of(b@)),
    decreases height(Node::Object(entries)), 1int,
{
    if a.len() != b.len() {
        return false;
    }
    let mut j: usize = 0;
    while j < a.len()
        invariant
            j <= a.len(),
            a.len() == b.len(),
            0 <= i < entries.len(),
            nodes_of(a@) == entries[i].1,
            forall|k: int|
                0 <= k < j ==> alike(#[trigger] nodes_of(a@)[k], nodes_of(b@)[k]),
        decreases a.len() - j,
    {
        proof {
            assert(nodes_of(a@)[j as int] == a@[j as int]@);
            member_is_lower(entries, i, j as int);
        }
        if !a[j].alike(&b[j]) {
            assert(!alike(nodes_of(a@)[j as int], nodes_of(b@)[j as int]));
            return false;
        }
        j += 1;
    }
    true
}

impl KeyValues {
    /// The document whose only root key is `key`, bound to `value`.
    pub fn new(key: String, value: Value) -> (document: Self)
        ensures
            document.root@ == seq![(key@, seq![value@])],
            node_wf(value@) ==> entries_wf(document.root@),
    {
        let mut root = Object::new();
        let mut values: Vec<Value> = Vec::new();
        values.push(value);
        assert(nodes_of(values@) =~= seq![value@]);
        let _ = root.insert(key, values);
        assert(root@ =~= seq![(key@, seq![value@])]);
        Self { root }
    }

    /// The document whose root is `root`, which may hold several keys.
    pub fn with_root(root: Object) -> (document: Self)
        ensures
            document.root == root,
    {
        Self { root }
    }
}

impl Value {
    /// Encodes this value as the next value of `serializer`.
    pub fn serialize<F: Formatter>(&self, serializer: &mut Serializer<F>) -> (res: Result<
        (),
        Error,
    >)
        requires
            old(serializer).wf(),
            !(old(serializer).place() is AwaitingKey),
        ensures
            final(serializer).follows(
                old(serializer),
                res,
                encode_node::<F>(
                    old(serializer).written(),
                    old(serializer).place(),
                    self@,
                    old(serializer).budget(),
                ),
            ),
            fails_with(res, node_fault_of(self@, old(serializer).budget())),
            res is Err ==> *final(serializer) == *old(serializer),
    {
        serializer.serialize_tree(self)
    }
}

impl KeyValues {
    /// Encodes the root of this document as the next value of `serializer`.
    pub fn serialize<F: Formatter>(&self, serializer: &mut Serializer<F>) -> (res: Result<
        (),
        Error,
    >)
        requires
            old(serializer).wf(),
            !(old(serializer).place() is AwaitingKey),
        ensures
            final(serializer).follows(
                old(serializer),
                res,
                encode_node::<F>(
                    old(serializer).written(),
                    old(serializer).place(),
                    Node::Object(self.root@),
                    old(serializer).budget(),
                ),
            ),
            fails_with(res, node_entries_fault_of(self.root@, old(serializer).budget())),
            res is Err ==> *final(serializer) == *old(serializer),
    {
        serializer.serialize_object(&self.root)
    }
}

impl Value {
    /// Whether this value and `other` have the same content: the same
    /// strings under the same keys in the same order.
    pub fn same(&self, other: &Value) -> (r: bool)
        ensures
            r == (self@ == other@),
        decreases height(self@), 3int,
    {
        match (self, other) {
            (Value::String(a), Value::String(b)) => same_text(a.as_str(), b.as_str()),
            (Value::Object(a), Value::Object(b)) => a.same(b),
            _ => false,
        }
    }

    /// Whether this value and `other` are alike: the same string, or
    /// objects that hold the same keys, in whatever order, each with values
    /// that are alike.
    pub fn alike(&self, other: &Value) -> (r: bool)
        ensures
            r == alike(self@, other@),
        decreases height(self@), 3int,
    {
        match (self, other) {
            (Value::String(a), Value::String(b)) => same_text(a.as_str(), b.as_str()),
            (Value::Object(a), Value::Object(b)) => a.alike(b),
            _ => false,
        }
    }

    /// A copy of this value.
    pub fn copy(&self) -> (r: Value)
        ensures
            r@ == self@,
        decreases height(self@), 3int,
    {
        match self {
            Value::String(text) => Value::String(copy_str(text.as_str())),
            Value::Object(object) => Value::Object(object.copy()),
        }
    }
}

impl KeyValues {
    /// Whether this document and `other` have the same content in the same
    /// order.
    pub fn same(&self, other: &KeyValues) -> (r: bool)
        ensures
            r == (self.root@ == other.root@),
    {
        self.root.same(&other.root)
    }

    /// A copy of this document.
    pub fn copy(&self) -> (r: KeyValues)
        ensures
            r.root@ == self.root@,
    {
        KeyValues { root: self.root.copy() }
    }
}

impl PartialEq for Value {
    fn eq(&self, other: &Self) -> (r: bool) {
        self.alike(other)
    }
}

impl PartialEqSpecImpl for Value {
    open spec fn obeys_eq_spec() -> bool {
        true
    }

    open spec fn eq_spec(&self, other: &Self) -> bool {
        alike(self@, other@)
    }
}

impl Eq for Value {

}

impl Clone for Value {
    fn clone(&self) -> (r: Self)
        ensures
            r@ == self@,
    {
        self.copy()
    }
}

impl PartialEq for Object {
    fn eq(&self, other: &Self) -> (r: bool) {
        self.alike(other)
    }
}

impl PartialEqSpecImpl for Object {
    open spec fn obeys_eq_spec() -> bool {
        true
    }

    open spec fn eq_spec(&self, other: &Self) -> bool {
        entries_alike(self@, other@)
    }
}

impl Eq for Object {

}

impl Clone for Object {
    fn clone(&self) -> (r: Self)
        ensures
            r@ == self@,
    {
        self.copy()
    }
}

impl PartialEq for KeyValues {
    fn eq(&self, other: &Self) -> (r: bool) {
        self.root.alike(&other.root)
    }
}

impl PartialEqSpecImpl for KeyValues {
    open spec fn obeys_eq_spec() -> bool {
        true
    }

    open spec fn eq_spec(&self, other: &Self) -> bool {
        entries_alike(self.root@, other.root@)
    }
}

impl Eq for KeyValues {

}

impl Clone for KeyValues {
    fn clone(&self) -> (r: Self)
        ensures
            r.root@ == self.root@,
    {
        self.copy()
    }
}

} // verus!
