//! What the reader makes of text that a [`PrettyFormatter`] wrote.
//!
//! [`PrettyFormatter`]: crate::ser::formatter::PrettyFormatter

use crate::de::parser::{
    Frame, Lexeme, Token, escape_at, is_tag, next_token, parse_from, scan_quoted, scan_unquoted,
    skip_trivia, unescaped, value_token,
};
use crate::error::Fault;
use crate::ser::formatter::{
    BraceStyle, Quoting, Style, default_style, is_macro_key, quoted_under, repeat,
};
use crate::ser::layout::{
    entries_text, indent_at, key_text, opening_at, pair_text, value_text, values_text,
};
use crate::text::{
    escape, escape_char, escape_letter, forces_quotes, is_escaped, is_whitespace, needs_quotes,
    written,
};
use crate::value::{
    Entries, Node, distinct_keys, entries_height, entries_wf, height, node_wf,
    position_from_is_first, position_of, pushed, pushed_entries, pushed_values, values_height,
};
use vstd::prelude::*;

verus! {

/// Whether the text `x` stands in `s` at `i`.
pub open spec fn has_at(s: Seq<char>, i: int, x: Seq<char>) -> bool {
    0 <= i && i + x.len() <= s.len() && s.subrange(i, i + x.len()) == x
}

/// Whether `w` holds nothing but white space.
pub open spec fn blank(w: Seq<char>) -> bool {
    forall|k: int| 0 <= k < w.len() ==> is_whitespace(#[trigger] w[k])
}

/// Where `a` and behind it `b` stand at `i`, `a` stands at `i` and `b`
/// behind it.
pub proof fn has_at_split(s: Seq<char>, i: int, a: Seq<char>, b: Seq<char>)
    requires
        has_at(s, i, a + b),
    ensures
        has_at(s, i, a),
        has_at(s, i + a.len(), b),
{
    let x = a + b;
    assert(s.subrange(i, i + a.len()) =~= x.subrange(0, a.len() as int));
    assert(x.subrange(0, a.len() as int) =~= a);
    assert(s.subrange(i + a.len(), i + a.len() + b.len()) =~= x.subrange(
        a.len() as int,
        x.len() as int,
    ));
    assert(x.subrange(a.len() as int, x.len() as int) =~= b);
}

/// The character at `k` of a text that stands at `i`.
pub proof fn has_at_index(s: Seq<char>, i: int, x: Seq<char>, k: int)
    requires
        has_at(s, i, x),
        0 <= k < x.len(),
    ensures
        s[i + k] == x[k],
{
    assert(s.subrange(i, i + x.len())[k] == s[i + k]);
}

/// White space is skipped.
pub proof fn blank_is_skipped(s: Seq<char>, i: int, w: Seq<char>)
    requires
        has_at(s, i, w),
        blank(w),
    ensures
        skip_trivia(s, i, false) == skip_trivia(s, i + w.len(), false),
    decreases w.len(),
{
    if w.len() > 0 {
        has_at_index(s, i, w, 0);
        assert(is_whitespace(w[0]));
        let rest = w.drop_first();
        assert(w =~= seq![w[0]] + rest);
        has_at_split(s, i, seq![w[0]], rest);
        assert(blank(rest)) by {
            assert forall|k: int| 0 <= k < rest.len() implies is_whitespace(
                #[trigger] rest[k],
            ) by {
                assert(rest[k] == w[k + 1]);
            }
        }
        blank_is_skipped(s, i + 1, rest);
    }
}

/// Skipping stops at once before a character that begins a token.
pub proof fn token_start_is_kept(s: Seq<char>, i: int)
    requires
        0 <= i < s.len(),
        !is_whitespace(s[i]),
        !(s[i] == '/' && i + 1 < s.len() && s[i + 1] == '/'),
    ensures
        skip_trivia(s, i, false) == i,
{
}

/// What the reader does at a place depends only on where the next token
/// begins.
pub proof fn same_start_same_reading(
    s: Seq<char>,
    i: int,
    j: int,
    stack: Seq<Frame>,
    acc: Entries,
    limit: nat,
)
    requires
        0 <= i <= s.len(),
        0 <= j <= s.len(),
        skip_trivia(s, i, false) == skip_trivia(s, j, false),
    ensures
        next_token(s, i) == next_token(s, j),
        value_token(s, i) == value_token(s, j),
        parse_from(s, i, stack, acc, limit) == parse_from(s, j, stack, acc, limit),
{
}

/// Escaping goes character by character from the front.
pub proof fn escape_from_front(c: char, t: Seq<char>)
    ensures
        escape(seq![c] + t) == escape_char(c) + escape(t),
    decreases t.len(),
{
    let all = seq![c] + t;
    if t.len() == 0 {
        assert(all.drop_last() =~= Seq::<char>::empty());
        assert(escape(all.drop_last()) =~= Seq::<char>::empty());
        assert(escape(t) =~= Seq::<char>::empty());
        assert(escape(all) =~= escape_char(c) + escape(t));
    } else {
        assert(all.drop_last() =~= seq![c] + t.drop_last());
        assert(all.last() == t.last());
        escape_from_front(c, t.drop_last());
        assert(escape(all) =~= escape_char(c) + escape(t));
    }
}

/// A string that was written between quotes is read back as it was.
pub proof fn quoted_is_read_back(s: Seq<char>, i: int, t: Seq<char>, acc: Seq<char>)
    requires
        has_at(s, i, escape(t) + seq!['"']),
    ensures
        scan_quoted(s, i, acc) == Some((acc + t, i + escape(t).len() + 1)),
    decreases t.len(),
{
    if t.len() == 0 {
        assert(escape(t) =~= Seq::<char>::empty());
        has_at_index(s, i, escape(t) + seq!['"'], 0);
        assert(acc + t =~= acc);
    } else {
        let c = t[0];
        let rest = t.drop_first();
        assert(t =~= seq![c] + rest);
        escape_from_front(c, rest);
        let head = escape_char(c);
        let tail = escape(rest) + seq!['"'];
        assert(escape(t) + seq!['"'] =~= head + tail);
        has_at_split(s, i, head, tail);
        has_at_index(s, i, head, 0);
        if is_escaped(c) {
            has_at_index(s, i, head, 1);
            assert(escape_at(s, i));
            assert(unescaped(escape_letter(c)) == c);
            quoted_is_read_back(s, i + 2, rest, acc.push(c));
            assert(acc.push(c) + rest =~= acc + t);
        } else {
            assert(!escape_at(s, i));
            quoted_is_read_back(s, i + 1, rest, acc.push(c));
            assert(acc.push(c) + rest =~= acc + t);
        }
    }
}

/// Whether no character of `t` forces quotes.
pub open spec fn plain(t: Seq<char>) -> bool {
    forall|k: int| 0 <= k < t.len() ==> !forces_quotes(#[trigger] t[k])
}

/// A string that was written without quotes, and stands before white
/// space, a brace, a quote or the end of the text, is read back as it was.
pub proof fn unquoted_is_read_back(s: Seq<char>, i: int, t: Seq<char>, acc: Seq<char>)
    requires
        has_at(s, i, escape(t)),
        plain(t),
        i + escape(t).len() == s.len() || forces_quotes(s[i + escape(t).len()]),
    ensures
        scan_unquoted(s, i, acc) == (acc + t, i + escape(t).len()),
    decreases t.len(),
{
    if t.len() == 0 {
        assert(escape(t) =~= Seq::<char>::empty());
        assert(acc + t =~= acc);
    } else {
        let c = t[0];
        let rest = t.drop_first();
        assert(t =~= seq![c] + rest);
        escape_from_front(c, rest);
        let head = escape_char(c);
        let tail = escape(rest);
        assert(escape(t) =~= head + tail);
        has_at_split(s, i, head, tail);
        has_at_index(s, i, head, 0);
        assert(!forces_quotes(t[0]));
        assert(plain(rest)) by {
            assert forall|k: int| 0 <= k < rest.len() implies !forces_quotes(
                #[trigger] rest[k],
            ) by {
                assert(rest[k] == t[k + 1]);
            }
        }
        if is_escaped(c) {
            assert(c == '\\');
            has_at_index(s, i, head, 1);
            assert(escape_at(s, i));
            unquoted_is_read_back(s, i + 2, rest, acc.push(c));
            assert(acc.push(c) + rest =~= acc + t);
        } else {
            assert(!escape_at(s, i));
            unquoted_is_read_back(s, i + 1, rest, acc.push(c));
            assert(acc.push(c) + rest =~= acc + t);
        }
    }
}

/// Whether `t` can be read back where it is written without quotes: it
/// does not begin like a comment.
pub open spec fn bare_readable(t: Seq<char>) -> bool {
    !(t.len() >= 2 && t[0] == '/' && t[1] == '/')
}

/// Whether `t` can be read back as it is written under `quoting`.
pub open spec fn string_readable(quoting: Quoting, t: Seq<char>) -> bool {
    quoted_under(quoting, t) || bare_readable(t)
}

/// The quoting policy for the key `key`.
pub open spec fn key_quoting(style: Style, key: Seq<char>) -> Quoting {
    if is_macro_key(key) {
        style.quote_macro_keys
    } else {
        style.quote_keys
    }
}

/// Whether text in the style `style` can be read back: the indent and the
/// separator are white space, and the separator is not empty where keys may
/// be written without quotes.
pub open spec fn readable(style: Style) -> bool {
    &&& blank(style.indent)
    &&& blank(style.separator)
    &&& (style.quote_keys == Quoting::WhenRequired || style.quote_macro_keys
        == Quoting::WhenRequired) ==> style.separator.len() > 0
}

/// Whether every string of `node` can be read back as it is written in the
/// style `style`.
pub open spec fn node_readable(style: Style, node: Node) -> bool
    decreases node,
{
    match node {
        Node::Text(text) => string_readable(style.quote_values, text),
        Node::Object(entries) => entries_readable(style, entries),
    }
}

/// Whether every key and every string of `entries` can be read back as it
/// is written in the style `style`.
pub open spec fn entries_readable(style: Style, entries: Entries) -> bool
    decreases entries,
{
    &&& forall|i: int|
        0 <= i < entries.len() ==> string_readable(
            key_quoting(style, (#[trigger] entries[i]).0),
            entries[i].0,
        )
    &&& forall|i: int, j: int|
        0 <= i < entries.len() && 0 <= j < entries[i].1.len() ==> node_readable(
            style,
            #[trigger] entries[i].1[j],
        )
}

/// Whether the style `style` puts every key and every string between
/// quotes.
pub open spec fn all_quoted(style: Style) -> bool {
    &&& style.quote_keys == Quoting::Always
    &&& style.quote_macro_keys == Quoting::Always
    &&& style.quote_values == Quoting::Always
}

/// Where everything is put between quotes, every tree can be read back as
/// it is written.
pub proof fn quoted_node_is_readable(style: Style, node: Node)
    requires
        all_quoted(style),
    ensures
        node_readable(style, node),
    decreases node,
{
    match node {
        Node::Text(_) => {},
        Node::Object(entries) => {
            quoted_entries_are_readable(style, entries);
        },
    }
}

/// Where everything is put between quotes, the entries of every object can
/// be read back as they are written.
pub proof fn quoted_entries_are_readable(style: Style, entries: Entries)
    requires
        all_quoted(style),
    ensures
        entries_readable(style, entries),
    decreases entries,
{
    assert forall|i: int, j: int|
        0 <= i < entries.len() && 0 <= j < entries[i].1.len() implies node_readable(
        style,
        #[trigger] entries[i].1[j],
    ) by {
        quoted_node_is_readable(style, entries[i].1[j]);
    }
}

/// The style that is used where none is given can be read back, and puts
/// everything between quotes.
pub proof fn default_style_is_readable()
    ensures
        readable(default_style()),
        all_quoted(default_style()),
{
}

/// Copies of white space are white space.
pub proof fn indent_is_blank(style: Style, depth: int)
    requires
        blank(style.indent),
    ensures
        blank(indent_at(style, depth)),
    decreases depth,
{
    if depth > 0 {
        indent_is_blank(style, depth - 1);
        let before = repeat(style.indent, depth - 1);
        assert forall|k: int| 0 <= k < indent_at(style, depth).len() implies is_whitespace(
            #[trigger] indent_at(style, depth)[k],
        ) by {
            if k < before.len() {
                assert(indent_at(style, depth)[k] == before[k]);
            } else {
                assert(indent_at(style, depth)[k] == style.indent[k - before.len()]);
            }
        }
    }
}

/// A string that was written under `quoting`, and stands before white
/// space, a brace, a quote or the end of the text where it was written
/// without quotes, is the next token, and is read back as it was.
pub proof fn string_is_read_back(s: Seq<char>, i: int, quoting: Quoting, t: Seq<char>)
    requires
        has_at(s, i, written(t, quoted_under(quoting, t))),
        string_readable(quoting, t),
        quoted_under(quoting, t) || i + escape(t).len() == s.len() || forces_quotes(
            s[i + escape(t).len()],
        ),
    ensures
        next_token(s, i) == Ok::<Lexeme, Fault>(
            Lexeme {
                token: Token::Text { text: t, quoted: quoted_under(quoting, t) },
                start: i,
                end: i + written(t, quoted_under(quoting, t)).len(),
            },
        ),
        !is_tag(Token::Text { text: t, quoted: quoted_under(quoting, t) }),
{
    let quoted = quoted_under(quoting, t);
    let text = written(t, quoted);
    if quoted {
        let body = escape(t) + seq!['"'];
        assert(text =~= seq!['"'] + body);
        has_at_split(s, i, seq!['"'], body);
        has_at_index(s, i, seq!['"'], 0);
        token_start_is_kept(s, i);
        quoted_is_read_back(s, i + 1, t, Seq::empty());
        assert(Seq::<char>::empty() + t =~= t);
    } else {
        assert(!needs_quotes(t));
        assert(plain(t)) by {
            assert forall|k: int| 0 <= k < t.len() implies !forces_quotes(#[trigger] t[k]) by {
                if forces_quotes(t[k]) {
                    assert(crate::text::has_forcing_char(t));
                }
            }
        }
        let c = t[0];
        let rest = t.drop_first();
        assert(t =~= seq![c] + rest);
        escape_from_front(c, rest);
        let head = escape_char(c);
        assert(text =~= head + escape(rest));
        has_at_split(s, i, head, escape(rest));
        has_at_index(s, i, head, 0);
        assert(!forces_quotes(t[0]));
        if s[i] == '/' && i + 1 < s.len() && s[i + 1] == '/' {
            assert(c == '/');
            if rest.len() > 0 {
                let d = rest[0];
                let more = rest.drop_first();
                assert(rest =~= seq![d] + more);
                escape_from_front(d, more);
                has_at_split(s, i + 1, escape_char(d), escape(more));
                has_at_index(s, i + 1, escape_char(d), 0);
                assert(t[1] == d);
                assert(false);
            } else {
                assert(escape(rest) =~= Seq::<char>::empty());
                assert(false);
            }
        }
        token_start_is_kept(s, i);
        unquoted_is_read_back(s, i, t, Seq::empty());
        assert(Seq::<char>::empty() + t =~= t);
    }
}

/// Where `key` stands behind every entry of `acc`, its place in `acc` with
/// one more entry of that key is that of the new entry.
pub proof fn position_of_new_key(acc: Entries, key: Seq<char>, values: Seq<Node>)
    requires
        position_of(acc, key) == acc.len(),
    ensures
        position_of(acc.push((key, values)), key) == acc.len(),
{
    let more = acc.push((key, values));
    position_from_is_first(acc, key, 0);
    position_from_is_first(more, key, 0);
    let at = position_of(more, key);
    assert(more[acc.len() as int].0 == key);
    if at < acc.len() {
        assert(more[at] == acc[at]);
    }
}

/// Values given under the key of the last entry come behind its values.
pub proof fn pushed_values_extend(
    acc: Entries,
    key: Seq<char>,
    have: Seq<Node>,
    more: Seq<Node>,
)
    requires
        position_of(acc, key) == acc.len(),
    ensures
        pushed_values(acc.push((key, have)), key, more) == acc.push((key, have + more)),
    decreases more.len(),
{
    if more.len() == 0 {
        assert(have + more =~= have);
    } else {
        position_of_new_key(acc, key, have);
        let next = pushed(acc.push((key, have)), key, more[0]);
        assert(next =~= acc.push((key, have.push(more[0]))));
        pushed_values_extend(acc, key, have.push(more[0]), more.drop_first());
        assert(have.push(more[0]) + more.drop_first() =~= have + more);
    }
}

/// One or more values given under a key that stands nowhere make one new
/// entry at the end.
pub proof fn pushed_values_new_key(acc: Entries, key: Seq<char>, values: Seq<Node>)
    requires
        position_of(acc, key) == acc.len(),
        values.len() > 0,
    ensures
        pushed_values(acc, key, values) == acc.push((key, values)),
{
    let first = pushed(acc, key, values[0]);
    assert(first == acc.push((key, seq![values[0]])));
    pushed_values_extend(acc, key, seq![values[0]], values.drop_first());
    assert(seq![values[0]] + values.drop_first() =~= values);
}

/// Entries whose keys are new and differ, each with a value, come behind
/// the entries that are there, as they are.
pub proof fn pushed_entries_append(acc: Entries, entries: Entries)
    requires
        distinct_keys(acc + entries),
        forall|i: int| 0 <= i < entries.len() ==> (#[trigger] entries[i]).1.len() > 0,
    ensures
        pushed_entries(acc, entries) == acc + entries,
    decreases entries.len(),
{
    if entries.len() == 0 {
        assert(acc + entries =~= acc);
    } else {
        let all = acc + entries;
        let key = entries[0].0;
        position_from_is_first(acc, key, 0);
        let at = position_of(acc, key);
        if at < acc.len() {
            assert(all[at] == acc[at]);
            assert(all[acc.len() as int] == entries[0]);
            assert(false);
        }
        pushed_values_new_key(acc, key, entries[0].1);
        let next = acc.push(entries[0]);
        assert(entries[0] == (key, entries[0].1));
        let rest = entries.drop_first();
        assert(next + rest =~= all);
        assert forall|i: int| 0 <= i < rest.len() implies (#[trigger] rest[i]).1.len() > 0 by {
            assert(rest[i] == entries[i + 1]);
        }
        pushed_entries_append(next, rest);
    }
}

/// Well-formed entries, given one by one to an object without entries, make
/// the same entries.
pub proof fn pushed_entries_identity(entries: Entries)
    requires
        entries_wf(entries),
    ensures
        pushed_entries(Seq::empty(), entries) == entries,
{
    let none: Entries = Seq::empty();
    assert(none + entries =~= entries);
    pushed_entries_append(none, entries);
}

/// The key at the head of a line is the next token, and is read back as
/// it was.
pub proof fn line_start_is_read(
    style: Style,
    s: Seq<char>,
    i: int,
    depth: int,
    key: Seq<char>,
    tail: Seq<char>,
)
    requires
        blank(style.indent),
        string_readable(key_quoting(style, key), key),
        has_at(s, i, indent_at(style, depth) + key_text(style, key) + tail),
        quoted_under(key_quoting(style, key), key) || (tail.len() > 0 && is_whitespace(tail[0])),
    ensures
        next_token(s, i) == Ok::<Lexeme, Fault>(
            Lexeme {
                token: Token::Text {
                    text: key,
                    quoted: quoted_under(key_quoting(style, key), key),
                },
                start: i + indent_at(style, depth).len(),
                end: i + indent_at(style, depth).len() + key_text(style, key).len(),
            },
        ),
        has_at(s, i + indent_at(style, depth).len() + key_text(style, key).len(), tail),
{
    let ind = indent_at(style, depth);
    let k = key_text(style, key);
    has_at_split(s, i, ind + k, tail);
    has_at_split(s, i, ind, k);
    indent_is_blank(style, depth);
    blank_is_skipped(s, i, ind);
    let i1 = i + ind.len();
    let i2 = i1 + k.len();
    if !quoted_under(key_quoting(style, key), key) {
        has_at_index(s, i2, tail, 0);
    }
    string_is_read_back(s, i1, key_quoting(style, key), key);
    same_start_same_reading(s, i, i1, Seq::empty(), Seq::empty(), 0);
}

/// Whether every value of `values` is well formed and can be read back.
pub open spec fn values_sound(style: Style, values: Seq<Node>) -> bool {
    forall|j: int|
        0 <= j < values.len() ==> node_wf(#[trigger] values[j]) && node_readable(style, values[j])
}

/// Whether every key of `entries` can be read back and every value is well
/// formed and can be read back.
pub open spec fn entries_sound(style: Style, entries: Entries) -> bool {
    forall|i: int|
        0 <= i < entries.len() ==> string_readable(
            key_quoting(style, (#[trigger] entries[i]).0),
            entries[i].0,
        ) && values_sound(style, entries[i].1)
}

/// The line of a key and a string is read as this pair.
pub proof fn string_pair_is_read(
    style: Style,
    s: Seq<char>,
    i: int,
    stack: Seq<Frame>,
    acc: Entries,
    limit: nat,
    depth: int,
    key: Seq<char>,
    t: Seq<char>,
)
    requires
        readable(style),
        string_readable(key_quoting(style, key), key),
        string_readable(style.quote_values, t),
        has_at(s, i, pair_text(style, depth, key, Node::Text(t))),
    ensures
        parse_from(s, i, stack, acc, limit) == parse_from(
            s,
            i + pair_text(style, depth, key, Node::Text(t)).len(),
            stack,
            pushed(acc, key, Node::Text(t)),
            limit,
        ),
{
    let ind = indent_at(style, depth);
    let k = key_text(style, key);
    let nl = seq!['\n'];
    let i1 = i + ind.len();
    let i2 = i1 + k.len();
    let key_quoted = quoted_under(key_quoting(style, key), key);
    let sep = style.separator;
    let v = value_text(style, t);
    let tail = sep + v + nl;
    assert(pair_text(style, depth, key, Node::Text(t)) =~= ind + k + tail);
    if !key_quoted {
        assert(sep.len() > 0);
        assert(tail[0] == sep[0]);
    }
    line_start_is_read(style, s, i, depth, key, tail);
    assert(tail =~= sep + (v + nl));
    has_at_split(s, i2, sep, v + nl);
    let i3 = i2 + sep.len();
    has_at_split(s, i3, v, nl);
    let i4 = i3 + v.len();
    has_at_index(s, i4, nl, 0);
    blank_is_skipped(s, i2, sep);
    same_start_same_reading(s, i2, i3, stack, acc, limit);
    string_is_read_back(s, i3, style.quote_values, t);
    let next = pushed(acc, key, Node::Text(t));
    assert(parse_from(s, i, stack, acc, limit) == parse_from(s, i4, stack, next, limit));
    blank_is_skipped(s, i4, nl);
    same_start_same_reading(s, i4, i4 + 1, stack, next, limit);
}

/// The head of the lines of a key and an object is read as the key and the
/// opening of an object: the reader goes on inside the object.
pub proof fn object_head_is_read(
    style: Style,
    s: Seq<char>,
    i: int,
    stack: Seq<Frame>,
    acc: Entries,
    limit: nat,
    depth: int,
    key: Seq<char>,
    tail: Seq<char>,
)
    requires
        readable(style),
        string_readable(key_quoting(style, key), key),
        has_at(
            s,
            i,
            indent_at(style, depth) + key_text(style, key) + opening_at(style, depth) + tail,
        ),
        stack.len() < limit,
    ensures
        parse_from(s, i, stack, acc, limit) == parse_from(
            s,
            i + indent_at(style, depth).len() + key_text(style, key).len() + opening_at(
                style,
                depth,
            ).len(),
            stack.push(Frame { entries: acc, key }),
            Seq::empty(),
            limit,
        ),
        has_at(
            s,
            i + indent_at(style, depth).len() + key_text(style, key).len() + opening_at(
                style,
                depth,
            ).len(),
            tail,
        ),
{
    let ind = indent_at(style, depth);
    let k = key_text(style, key);
    let nl = seq!['\n'];
    let i1 = i + ind.len();
    let i2 = i1 + k.len();
    let open = opening_at(style, depth);
    let pre = match style.brace_style {
        BraceStyle::Allman => nl + ind,
        BraceStyle::KAndR => seq![' '],
    };
    indent_is_blank(style, depth);
    assert(blank(pre));
    assert(open =~= pre + seq!['{'] + nl);
    let after = open + tail;
    assert(ind + k + open + tail =~= ind + k + after);
    assert(after[0] == pre[0]);
    line_start_is_read(style, s, i, depth, key, after);
    assert(after =~= pre + (seq!['{'] + (nl + tail)));
    has_at_split(s, i2, pre, seq!['{'] + (nl + tail));
    let i3 = i2 + pre.len();
    has_at_split(s, i3, seq!['{'], nl + tail);
    has_at_index(s, i3, seq!['{'], 0);
    has_at_split(s, i3 + 1, nl, tail);
    blank_is_skipped(s, i2, pre);
    token_start_is_kept(s, i3);
    same_start_same_reading(s, i2, i3, stack, acc, limit);
    let deeper = stack.push(Frame { entries: acc, key });
    let none: Entries = Seq::empty();
    assert(next_token(s, i3) == Ok::<Lexeme, Fault>(
        Lexeme { token: Token::Open, start: i3, end: i3 + 1 },
    ));
    assert(parse_from(s, i, stack, acc, limit) == parse_from(s, i3 + 1, deeper, none, limit));
    blank_is_skipped(s, i3 + 1, nl);
    same_start_same_reading(s, i3 + 1, i3 + 2, deeper, none, limit);
}

/// The closing line of an object is read as the end of the object: the
/// reader goes on behind it, in the object around it, with the object given
/// under its key.
pub proof fn object_foot_is_read(
    style: Style,
    s: Seq<char>,
    i: int,
    stack: Seq<Frame>,
    acc: Entries,
    limit: nat,
    depth: int,
    key: Seq<char>,
    inner: Entries,
)
    requires
        readable(style),
        has_at(s, i, indent_at(style, depth) + seq!['}', '\n']),
    ensures
        parse_from(s, i, stack.push(Frame { entries: acc, key }), inner, limit) == parse_from(
            s,
            i + indent_at(style, depth).len() + 2,
            stack,
            pushed(acc, key, Node::Object(inner)),
            limit,
        ),
{
    let ind = indent_at(style, depth);
    let nl = seq!['\n'];
    let shut = seq!['}', '\n'];
    let deeper = stack.push(Frame { entries: acc, key });
    has_at_split(s, i, ind, shut);
    let i7 = i + ind.len();
    has_at_index(s, i7, shut, 0);
    assert(shut =~= seq!['}'] + nl);
    has_at_split(s, i7, seq!['}'], nl);
    indent_is_blank(style, depth);
    blank_is_skipped(s, i, ind);
    token_start_is_kept(s, i7);
    same_start_same_reading(s, i, i7, deeper, inner, limit);
    assert(next_token(s, i7) == Ok::<Lexeme, Fault>(
        Lexeme { token: Token::Close, start: i7, end: i7 + 1 },
    ));
    assert(deeper.drop_last() =~= stack);
    let next = pushed(acc, key, Node::Object(inner));
    assert(parse_from(s, i, deeper, inner, limit) == parse_from(s, i7 + 1, stack, next, limit));
    blank_is_skipped(s, i7 + 1, nl);
    same_start_same_reading(s, i7 + 1, i7 + 2, stack, next, limit);
}

/// The lines of a pair are read as the pair: the reader goes on behind them
/// with the value given under the key.
pub proof fn pair_is_read(
    style: Style,
    s: Seq<char>,
    i: int,
    stack: Seq<Frame>,
    acc: Entries,
    limit: nat,
    depth: int,
    key: Seq<char>,
    node: Node,
)
    requires
        readable(style),
        string_readable(key_quoting(style, key), key),
        node_readable(style, node),
        node_wf(node),
        has_at(s, i, pair_text(style, depth, key, node)),
        stack.len() + height(node) <= limit,
    ensures
        parse_from(s, i, stack, acc, limit) == parse_from(
            s,
            i + pair_text(style, depth, key, node).len(),
            stack,
            pushed(acc, key, node),
            limit,
        ),
    decreases node, 0int,
{
    match node {
        Node::Text(t) => {
            string_pair_is_read(style, s, i, stack, acc, limit, depth, key, t);
        },
        Node::Object(inner) => {
            let ind = indent_at(style, depth);
            let k = key_text(style, key);
            let open = opening_at(style, depth);
            let body = entries_text(style, depth + 1, inner);
            let shut = seq!['}', '\n'];
            let tail = body + (ind + shut);
            assert(pair_text(style, depth, key, node) =~= ind + k + open + tail);
            object_head_is_read(style, s, i, stack, acc, limit, depth, key, tail);
            let i5 = i + ind.len() + k.len() + open.len();
            let deeper = stack.push(Frame { entries: acc, key });
            let none: Entries = Seq::empty();
            has_at_split(s, i5, body, ind + shut);
            assert(entries_sound(style, inner));
            entries_are_read(style, s, i5, deeper, none, limit, depth + 1, inner);
            pushed_entries_identity(inner);
            object_foot_is_read(style, s, i5 + body.len(), stack, acc, limit, depth, key, inner);
        },
    }
}

/// The lines of the values of a key are read as these values: the reader
/// goes on behind them with each of them given under the key.
pub proof fn values_are_read(
    style: Style,
    s: Seq<char>,
    i: int,
    stack: Seq<Frame>,
    acc: Entries,
    limit: nat,
    depth: int,
    key: Seq<char>,
    values: Seq<Node>,
)
    requires
        readable(style),
        string_readable(key_quoting(style, key), key),
        values_sound(style, values),
        has_at(s, i, values_text(style, depth, key, values)),
        stack.len() + values_height(values) <= limit,
    ensures
        parse_from(s, i, stack, acc, limit) == parse_from(
            s,
            i + values_text(style, depth, key, values).len(),
            stack,
            pushed_values(acc, key, values),
            limit,
        ),
    decreases values, 1int,
{
    if values.len() > 0 {
        let first = pair_text(style, depth, key, values[0]);
        let rest = values.drop_first();
        has_at_split(s, i, first, values_text(style, depth, key, rest));
        pair_is_read(style, s, i, stack, acc, limit, depth, key, values[0]);
        assert(values_sound(style, rest)) by {
            assert forall|j: int| 0 <= j < rest.len() implies node_wf(#[trigger] rest[j])
                && node_readable(style, rest[j]) by {
                assert(rest[j] == values[j + 1]);
            }
        }
        values_are_read(
            style,
            s,
            i + first.len(),
            stack,
            pushed(acc, key, values[0]),
            limit,
            depth,
            key,
            rest,
        );
    }
}

/// The lines of entries are read as these entries: the reader goes on
/// behind them with each value of each key given under its key.
pub proof fn entries_are_read(
    style: Style,
    s: Seq<char>,
    i: int,
    stack: Seq<Frame>,
    acc: Entries,
    limit: nat,
    depth: int,
    entries: Entries,
)
    requires
        readable(style),
        entries_sound(style, entries),
        has_at(s, i, entries_text(style, depth, entries)),
        stack.len() + entries_height(entries) <= limit,
    ensures
        parse_from(s, i, stack, acc, limit) == parse_from(
            s,
            i + entries_text(style, depth, entries).len(),
            stack,
            pushed_entries(acc, entries),
            limit,
        ),
    decreases entries, 1int,
{
    if entries.len() > 0 {
        let first = values_text(style, depth, entries[0].0, entries[0].1);
        let rest = entries.drop_first();
        has_at_split(s, i, first, entries_text(style, depth, rest));
        values_are_read(style, s, i, stack, acc, limit, depth, entries[0].0, entries[0].1);
        assert(entries_sound(style, rest)) by {
            assert forall|j: int| 0 <= j < rest.len() implies string_readable(
                key_quoting(style, (#[trigger] rest[j]).0),
                rest[j].0,
            ) && values_sound(style, rest[j].1) by {
                assert(rest[j] == entries[j + 1]);
            }
        }
        entries_are_read(
            style,
            s,
            i + first.len(),
            stack,
            pushed_values(acc, entries[0].0, entries[0].1),
            limit,
            depth,
            rest,
        );
    }
}

/// The text of well-formed entries, written in a style that can be read
/// back, reads back as these entries.
pub proof fn text_reads_back(style: Style, entries: Entries, limit: nat)
    requires
        readable(style),
        entries_readable(style, entries),
        entries_wf(entries),
        entries_height(entries) <= limit,
    ensures
        crate::de::parser::parse_text(entries_text(style, 0, entries), limit) == Ok::<
            Entries,
            Fault,
        >(entries),
{
    let s = entries_text(style, 0, entries);
    let none: Entries = Seq::empty();
    let stack: Seq<Frame> = Seq::empty();
    assert(s.subrange(0, s.len() as int) =~= s);
    assert(entries_sound(style, entries));
    entries_are_read(style, s, 0, stack, none, limit, 0, entries);
    pushed_entries_identity(entries);
    assert(skip_trivia(s, s.len() as int, false) == s.len());
}

} // verus!
