//! Reading back what was written.

use crate::de::parser::{Frame, Token, next_token, parse_from, parse_text, value_token};
use crate::error::Fault;
use crate::laws::reading::{
    all_quoted, default_style_is_readable, entries_readable, quoted_entries_are_readable,
    readable, text_reads_back,
};
use crate::laws::rendering::document_is_entries_text;
use crate::ser::tree_document;
use crate::ser::formatter::{Formatter, PrettyFormatter, Style, default_style, pretty_start};
use crate::ser::serializer::{
    Place, Written, encode_node, encode_node_entries, encode_node_values, object_begun, start,
};
use crate::value::{
    Entries, Node, entries_height, entries_wf, height, pushed, pushed_is_wf, values_height,
};
use vstd::prelude::*;

verus! {

/// A tree that is encoded within a budget of levels is at most half as
/// high, and one more.
pub proof fn encoded_node_height<F: Formatter>(
    w: Written<F::State>,
    place: Place,
    node: Node,
    budget: nat,
)
    requires
        encode_node::<F>(w, place, node, budget) is Ok,
    ensures
        2 * height(node) <= budget + 2,
    decreases node, 0int,
{
    match node {
        Node::Text(_) => {},
        Node::Object(entries) => {
            encoded_entries_height::<F>(object_begun::<F>(w, place), entries, budget);
        },
    }
}

/// Values that are encoded within a budget of levels are at most half as
/// high, and a half more.
pub proof fn encoded_values_height<F: Formatter>(
    w: Written<F::State>,
    key: Seq<char>,
    values: Seq<Node>,
    budget: nat,
)
    requires
        encode_node_values::<F>(w, key, values, budget) is Ok,
    ensures
        2 * values_height(values) <= budget + 1,
    decreases values, 1int,
{
    if values.len() > 0 {
        encoded_node_height::<F>(w, Place::InSequence(key), values[0], (budget - 1) as nat);
        let w1 = encode_node::<F>(w, Place::InSequence(key), values[0], (budget - 1) as nat)->Ok_0;
        encoded_values_height::<F>(w1, key, values.drop_first(), budget);
    }
}

/// Entries that are encoded within a budget of levels are at most half as
/// high.
pub proof fn encoded_entries_height<F: Formatter>(
    w: Written<F::State>,
    entries: Entries,
    budget: nat,
)
    requires
        encode_node_entries::<F>(w, entries, budget) is Ok,
    ensures
        2 * entries_height(entries) <= budget,
    decreases entries, 1int,
{
    if entries.len() > 0 {
        encoded_values_height::<F>(w, entries[0].0, entries[0].1, (budget - 1) as nat);
        let w1 = encode_node_values::<F>(w, entries[0].0, entries[0].1, (budget - 1) as nat)->Ok_0;
        encoded_entries_height::<F>(w1, entries.drop_first(), budget);
    }
}

/// Round trip of documents: the text that a [`PrettyFormatter`] writes for
/// a well-formed document, in a style whose indent and separator are white
/// space, reads back as the same document.
///
/// Left out are the strings that begin with `//` where they are written
/// without quotes, which read back as comments, and a nesting limit of the
/// reader below half the depth limit of the writer.
pub proof fn document_round_trip(
    style: Style,
    entries: Entries,
    depth_limit: nat,
    nesting_limit: nat,
)
    requires
        readable(style),
        entries_readable(style, entries),
        entries_wf(entries),
        depth_limit <= 2 * nesting_limit,
    ensures
        tree_document::<PrettyFormatter>(pretty_start(style), entries, depth_limit) matches Ok(
            text,
        ) ==> parse_text(text, nesting_limit) == Ok::<Entries, Fault>(entries),
{
    let w = start::<PrettyFormatter>(pretty_start(style));
    if encode_node::<PrettyFormatter>(w, Place::Root, Node::Object(entries), depth_limit) is Ok {
        encoded_entries_height::<PrettyFormatter>(
            object_begun::<PrettyFormatter>(w, Place::Root),
            entries,
            depth_limit,
        );
        document_is_entries_text(style, entries, depth_limit);
        text_reads_back(style, entries, nesting_limit);
    }
}

/// Round trip of documents between quotes: in a style that puts every key
/// and every string between quotes, and whose indent and separator are
/// white space, the text of every well-formed document reads back as the
/// same document, whatever its strings are.
pub proof fn quoted_document_round_trip(
    style: Style,
    entries: Entries,
    depth_limit: nat,
    nesting_limit: nat,
)
    requires
        readable(style),
        all_quoted(style),
        entries_wf(entries),
        depth_limit <= 2 * nesting_limit,
    ensures
        tree_document::<PrettyFormatter>(pretty_start(style), entries, depth_limit) matches Ok(
            text,
        ) ==> parse_text(text, nesting_limit) == Ok::<Entries, Fault>(entries),
{
    quoted_entries_are_readable(style, entries);
    document_round_trip(style, entries, depth_limit, nesting_limit);
}

/// Round trip of documents in the style that is used where none is given:
/// the text of every well-formed document reads back as the same document.
pub proof fn default_document_round_trip(entries: Entries, depth_limit: nat, nesting_limit: nat)
    requires
        entries_wf(entries),
        depth_limit <= 2 * nesting_limit,
    ensures
        tree_document::<PrettyFormatter>(
            pretty_start(default_style()),
            entries,
            depth_limit,
        ) matches Ok(text) ==> parse_text(text, nesting_limit) == Ok::<Entries, Fault>(entries),
{
    default_style_is_readable();
    quoted_document_round_trip(default_style(), entries, depth_limit, nesting_limit);
}

/// Writing again what was read back gives the same text: where the text of
/// a document reads back, the document that was read is written as the same
/// text.
pub proof fn rewriting_keeps_text(
    style: Style,
    entries: Entries,
    depth_limit: nat,
    nesting_limit: nat,
)
    requires
        readable(style),
        entries_readable(style, entries),
        entries_wf(entries),
        depth_limit <= 2 * nesting_limit,
    ensures
        tree_document::<PrettyFormatter>(pretty_start(style), entries, depth_limit) matches Ok(
            text,
        ) ==> parse_text(text, nesting_limit) matches Ok(read) && tree_document::<
            PrettyFormatter,
        >(pretty_start(style), read, depth_limit) == Ok::<Seq<char>, Fault>(text),
{
    document_round_trip(style, entries, depth_limit, nesting_limit);
}

/// Writing a document that was read gives text that reads back as the same
/// document, whatever the text was that the document was read from.
pub proof fn read_document_is_rewritten_alike(
    s: Seq<char>,
    style: Style,
    depth_limit: nat,
    nesting_limit: nat,
)
    requires
        readable(style),
        depth_limit <= 2 * nesting_limit,
        parse_text(s, nesting_limit) matches Ok(entries) && entries_readable(style, entries),
    ensures
        tree_document::<PrettyFormatter>(
            pretty_start(style),
            parse_text(s, nesting_limit)->Ok_0,
            depth_limit,
        ) matches Ok(text) ==> parse_text(text, nesting_limit) == parse_text(s, nesting_limit),
{
    read_document_is_wf(s, nesting_limit);
    document_round_trip(style, parse_text(s, nesting_limit)->Ok_0, depth_limit, nesting_limit);
}

/// Writing a document that was read, in a style that puts every key and
/// every string between quotes and whose indent and separator are white
/// space, gives text that reads back as the same document and is written
/// again as the same text, whatever the text was that the document was read
/// from.
pub proof fn read_document_is_rewritten_between_quotes(
    s: Seq<char>,
    style: Style,
    depth_limit: nat,
    nesting_limit: nat,
)
    requires
        readable(style),
        all_quoted(style),
        depth_limit <= 2 * nesting_limit,
        parse_text(s, nesting_limit) is Ok,
    ensures
        tree_document::<PrettyFormatter>(
            pretty_start(style),
            parse_text(s, nesting_limit)->Ok_0,
            depth_limit,
        ) matches Ok(text) ==> parse_text(text, nesting_limit) == parse_text(s, nesting_limit)
            && tree_document::<PrettyFormatter>(
            pretty_start(style),
            parse_text(text, nesting_limit)->Ok_0,
            depth_limit,
        ) == Ok::<Seq<char>, Fault>(text),
{
    quoted_entries_are_readable(style, parse_text(s, nesting_limit)->Ok_0);
    read_document_is_rewritten_alike(s, style, depth_limit, nesting_limit);
}

/// Whether the entries of every object that waits are well formed.
pub open spec fn frames_wf(stack: Seq<Frame>) -> bool {
    forall|k: int| 0 <= k < stack.len() ==> entries_wf((#[trigger] stack[k]).entries)
}

/// What the reader makes of a text, going on from well-formed entries, is
/// well formed.
pub proof fn reading_is_wf(s: Seq<char>, i: int, stack: Seq<Frame>, acc: Entries, limit: nat)
    requires
        0 <= i <= s.len(),
        entries_wf(acc),
        frames_wf(stack),
    ensures
        parse_from(s, i, stack, acc, limit) matches Ok(entries) ==> entries_wf(entries),
    decreases s.len() - i,
{
    crate::de::parser::token_advances(s, i);
    match next_token(s, i) {
        Err(_) => {},
        Ok(lexeme) => match lexeme.token {
            Token::End => {},
            Token::Close => {
                if stack.len() > 0 {
                    let top = stack.last();
                    pushed_is_wf(top.entries, top.key, Node::Object(acc));
                    assert(frames_wf(stack.drop_last())) by {
                        assert forall|k: int| 0 <= k < stack.drop_last().len() implies entries_wf(
                            (#[trigger] stack.drop_last()[k]).entries,
                        ) by {
                            assert(stack.drop_last()[k] == stack[k]);
                        }
                    }
                    reading_is_wf(
                        s,
                        lexeme.end,
                        stack.drop_last(),
                        pushed(top.entries, top.key, Node::Object(acc)),
                        limit,
                    );
                }
            },
            Token::Open => {},
            Token::Text { text: key, .. } => {
                crate::de::parser::value_token_advances(s, lexeme.end);
                match value_token(s, lexeme.end) {
                    Err(_) => {},
                    Ok(value) => match value.token {
                        Token::End => {},
                        Token::Close => {},
                        Token::Text { text, .. } => {
                            pushed_is_wf(acc, key, Node::Text(text));
                            reading_is_wf(
                                s,
                                value.end,
                                stack,
                                pushed(acc, key, Node::Text(text)),
                                limit,
                            );
                        },
                        Token::Open => {
                            if stack.len() < limit {
                                let deeper = stack.push(Frame { entries: acc, key });
                                assert(frames_wf(deeper)) by {
                                    assert forall|k: int| 0 <= k < deeper.len() implies entries_wf(
                                        (#[trigger] deeper[k]).entries,
                                    ) by {
                                        if k < stack.len() {
                                            assert(deeper[k] == stack[k]);
                                        }
                                    }
                                }
                                reading_is_wf(s, value.end, deeper, Seq::empty(), limit);
                            }
                        },
                    },
                }
            },
        },
    }
}

/// Every document that is read is well formed: in every object, no key
/// stands twice and every key has a value.
pub proof fn read_document_is_wf(s: Seq<char>, limit: nat)
    ensures
        parse_text(s, limit) matches Ok(entries) ==> entries_wf(entries),
{
    reading_is_wf(s, 0, Seq::empty(), Seq::empty(), limit);
}

} // verus!
