//! The text of a tree as a [`PrettyFormatter`] lays it out, in closed
//! form: one line for each pair of a key and a string, and for each pair of
//! a key and an object the key, an opening brace, the lines of the object
//! one step deeper, and a closing brace.
//!
//! [`PrettyFormatter`]: crate::ser::formatter::PrettyFormatter

use crate::ser::formatter::{BraceStyle, Style, is_macro_key, quoted_under, repeat};
use crate::text::written;
use crate::value::{Entries, Node};
use vstd::prelude::*;

verus! {

/// The indent of a line at `depth`.
pub open spec fn indent_at(style: Style, depth: int) -> Seq<char> {
    repeat(style.indent, depth)
}

/// The key `key` as it is written.
pub open spec fn key_text(style: Style, key: Seq<char>) -> Seq<char> {
    written(
        key,
        quoted_under(
            if is_macro_key(key) {
                style.quote_macro_keys
            } else {
                style.quote_keys
            },
            key,
        ),
    )
}

/// The string value `text` as it is written.
pub open spec fn value_text(style: Style, text: Seq<char>) -> Seq<char> {
    written(text, quoted_under(style.quote_values, text))
}

/// What stands between a key at `depth` and the pairs of its object.
pub open spec fn opening_at(style: Style, depth: int) -> Seq<char> {
    match style.brace_style {
        BraceStyle::Allman => seq!['\n'] + indent_at(style, depth) + seq!['{', '\n'],
        BraceStyle::KAndR => seq![' ', '{', '\n'],
    }
}

/// The lines of the pair of `key` and `node` at `depth`.
pub open spec fn pair_text(style: Style, depth: int, key: Seq<char>, node: Node) -> Seq<char>
    decreases node, 0int,
{
    match node {
        Node::Text(text) => indent_at(style, depth) + key_text(style, key) + style.separator
            + value_text(style, text) + seq!['\n'],
        Node::Object(entries) => indent_at(style, depth) + key_text(style, key) + opening_at(
            style,
            depth,
        ) + entries_text(style, depth + 1, entries) + indent_at(style, depth) + seq!['}', '\n'],
    }
}

/// The lines of the pairs of `key` and each of `values` at `depth`.
pub open spec fn values_text(style: Style, depth: int, key: Seq<char>, values: Seq<Node>) -> Seq<
    char,
>
    decreases values, 1int,
{
    if values.len() == 0 {
        Seq::empty()
    } else {
        pair_text(style, depth, key, values[0]) + values_text(
            style,
            depth,
            key,
            values.drop_first(),
        )
    }
}

/// The lines of `entries` at `depth`: the pairs of each key and each of its
/// values, in order.
pub open spec fn entries_text(style: Style, depth: int, entries: Entries) -> Seq<char>
    decreases entries, 1int,
{
    if entries.len() == 0 {
        Seq::empty()
    } else {
        values_text(style, depth, entries[0].0, entries[0].1) + entries_text(
            style,
            depth,
            entries.drop_first(),
        )
    }
}

} // verus!
