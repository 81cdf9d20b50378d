//! The reader: from text to the generic tree.
//!
//! Text is a run of tokens between white space and `//` comments. A token is
//! a brace or a string; a string stands between quotes, or is a run of
//! characters that are neither white space, nor braces, nor quotes. The
//! entries of an object are pairs of a key and a value; the value is a
//! string or an object between braces. A key that comes again adds to the
//! values that it has.

use crate::error::{Error, Expected, Fault, Position};
use crate::laws::round_trip::read_document_is_wf;
use crate::text::{chars_of, forces_quotes, is_whitespace, is_whitespace_char, push_char};
use crate::value::{Entries, KeyValues, Node, Object, Value, entries_wf, pushed};
use vstd::prelude::*;

verus! {

/// A token, as a mathematical value.
pub enum Token {
    /// The end of the text.
    End,
    /// A `{`.
    Open,
    /// A `}`.
    Close,
    /// A string, and whether it stood between quotes.
    Text { text: Seq<char>, quoted: bool },
}

/// A token with the place where it begins and the place behind it.
pub struct Lexeme {
    pub token: Token,
    pub start: int,
    pub end: int,
}

/// An object that waits for the object inside it to end: the entries that
/// it has so far and the key that the inner object belongs to.
pub struct Frame {
    pub entries: Entries,
    pub key: Seq<char>,
}

/// The place of the first character at or behind `i` that is neither white
/// space nor part of a comment; the length of `s` if there is none.
/// `in_comment` says whether `i` stands inside a comment.
pub open spec fn skip_trivia(s: Seq<char>, i: int, in_comment: bool) -> int
    decreases s.len() - i,
{
    if i < 0 || i >= s.len() {
        s.len() as int
    } else if in_comment {
        skip_trivia(s, i + 1, s[i] != '\n')
    } else if is_whitespace(s[i]) {
        skip_trivia(s, i + 1, false)
    } else if s[i] == '/' && i + 1 < s.len() && s[i + 1] == '/' {
        skip_trivia(s, i + 2, true)
    } else {
        i
    }
}

/// Whether a backslash before `c` makes an escape.
pub open spec fn is_escape_letter(c: char) -> bool {
    c == 'n' || c == 't' || c == '\\' || c == '"'
}

/// The character that the escape with the letter `c` stands for.
pub open spec fn unescaped(c: char) -> char {
    if c == 'n' {
        '\n'
    } else if c == 't' {
        '\t'
    } else {
        c
    }
}

/// Whether an escape begins at `i`.
pub open spec fn escape_at(s: Seq<char>, i: int) -> bool {
    0 <= i && i + 1 < s.len() && s[i] == '\\' && is_escape_letter(s[i + 1])
}

/// The rest of a quoted string that goes on at `i`, behind `acc`, and the
/// place behind its closing quote; nothing if the text ends first.
pub open spec fn scan_quoted(s: Seq<char>, i: int, acc: Seq<char>) -> Option<(Seq<char>, int)>
    decreases s.len() - i,
{
    if i < 0 || i >= s.len() {
        None
    } else if s[i] == '"' {
        Some((acc, i + 1))
    } else if escape_at(s, i) {
        scan_quoted(s, i + 2, acc.push(unescaped(s[i + 1])))
    } else {
        scan_quoted(s, i + 1, acc.push(s[i]))
    }
}

/// The rest of an unquoted string that goes on at `i`, behind `acc`, and the
/// place behind it: it ends before white space, a brace, a quote or the end
/// of the text.
pub open spec fn scan_unquoted(s: Seq<char>, i: int, acc: Seq<char>) -> (Seq<char>, int)
    decreases s.len() - i,
{
    if i < 0 || i >= s.len() || forces_quotes(s[i]) {
        (acc, i)
    } else if escape_at(s, i) {
        scan_unquoted(s, i + 2, acc.push(unescaped(s[i + 1])))
    } else {
        scan_unquoted(s, i + 1, acc.push(s[i]))
    }
}

/// The number of line breaks among the first `i` characters of `s`.
pub open spec fn line_breaks_before(s: Seq<char>, i: int) -> int
    decreases i,
{
    if i <= 0 || i > s.len() {
        0
    } else {
        line_breaks_before(s, i - 1) + if s[i - 1] == '\n' {
            1int
        } else {
            0int
        }
    }
}

/// The place where the line of the character at `i` begins.
pub open spec fn line_start(s: Seq<char>, i: int) -> int
    decreases i,
{
    if i <= 0 || i > s.len() {
        0
    } else if s[i - 1] == '\n' {
        i
    } else {
        line_start(s, i - 1)
    }
}

/// The place in `s` before which `offset` characters stand.
pub open spec fn position_at(s: Seq<char>, offset: int) -> Position {
    Position {
        offset: offset as usize,
        line: line_breaks_before(s, offset) as usize,
        column: (offset - line_start(s, offset)) as usize,
    }
}

/// The fault of the text `s` that goes wrong where `offset` characters
/// stand before.
pub open spec fn syntax(s: Seq<char>, offset: int, expected: Expected) -> Fault {
    Fault::Syntax { position: position_at(s, offset), expected }
}

/// The first token at or behind `i`.
pub open spec fn next_token(s: Seq<char>, i: int) -> Result<Lexeme, Fault> {
    let j = skip_trivia(s, i, false);
    if j >= s.len() {
        Ok(Lexeme { token: Token::End, start: s.len() as int, end: s.len() as int })
    } else if s[j] == '{' {
        Ok(Lexeme { token: Token::Open, start: j, end: j + 1 })
    } else if s[j] == '}' {
        Ok(Lexeme { token: Token::Close, start: j, end: j + 1 })
    } else if s[j] == '"' {
        match scan_quoted(s, j + 1, Seq::empty()) {
            Some((text, end)) => Ok(
                Lexeme { token: Token::Text { text, quoted: true }, start: j, end },
            ),
            None => Err(syntax(s, s.len() as int, Expected::ClosingQuote)),
        }
    } else {
        let (text, end) = scan_unquoted(s, j, Seq::empty());
        Ok(Lexeme { token: Token::Text { text, quoted: false }, start: j, end })
    }
}

/// Whether `token` is a conditional tag: an unquoted string that begins
/// with `[`.
pub open spec fn is_tag(token: Token) -> bool {
    token matches Token::Text { text, quoted } && !quoted && text.len() > 0 && text[0] == '['
}

/// The token of the value behind a key that ends at `i`: the first token,
/// or the one behind it where the first is a conditional tag, which is
/// dropped.
pub open spec fn value_token(s: Seq<char>, i: int) -> Result<Lexeme, Fault> {
    match next_token(s, i) {
        Ok(lexeme) => if is_tag(lexeme.token) {
            if lexeme.token->text.last() == ']' {
                next_token(s, lexeme.end)
            } else {
                Err(syntax(s, lexeme.end, Expected::ClosingBracket))
            }
        } else {
            Ok(lexeme)
        },
        Err(fault) => Err(fault),
    }
}

/// A token that is not the end of the text ends behind the place where the
/// reader stood, inside the text.
pub proof fn token_advances(s: Seq<char>, i: int)
    requires
        0 <= i <= s.len(),
    ensures
        match next_token(s, i) {
            Ok(lexeme) => {
                &&& i <= lexeme.start <= lexeme.end <= s.len()
                &&& !(lexeme.token is End) ==> lexeme.start < lexeme.end
            },
            Err(_) => true,
        },
{
    trivia_bounds(s, i, false);
    let j = skip_trivia(s, i, false);
    if j < s.len() {
        if s[j] == '"' {
            quoted_bounds(s, j + 1, Seq::empty());
        } else if s[j] != '{' && s[j] != '}' {
            unquoted_bounds(s, j, Seq::empty());
        }
    }
}

/// Skipping ends at or behind the place where it began, inside the text,
/// and outside a comment it ends before a character that is not white space.
pub proof fn trivia_bounds(s: Seq<char>, i: int, in_comment: bool)
    requires
        0 <= i <= s.len(),
    ensures
        i <= skip_trivia(s, i, in_comment) <= s.len(),
        skip_trivia(s, i, in_comment) < s.len() ==> !is_whitespace(
            s[skip_trivia(s, i, in_comment)],
        ),
    decreases s.len() - i,
{
    if i < s.len() {
        if in_comment {
            trivia_bounds(s, i + 1, s[i] != '\n');
        } else if is_whitespace(s[i]) {
            trivia_bounds(s, i + 1, false);
        } else if s[i] == '/' && i + 1 < s.len() && s[i + 1] == '/' {
            trivia_bounds(s, i + 2, true);
        }
    }
}

/// A quoted string ends behind the place where it goes on, inside the text.
pub proof fn quoted_bounds(s: Seq<char>, i: int, acc: Seq<char>)
    requires
        0 <= i <= s.len(),
    ensures
        scan_quoted(s, i, acc) matches Some((_, end)) ==> i < end <= s.len(),
    decreases s.len() - i,
{
    if i < s.len() && s[i] != '"' {
        if escape_at(s, i) {
            quoted_bounds(s, i + 2, acc.push(unescaped(s[i + 1])));
        } else {
            quoted_bounds(s, i + 1, acc.push(s[i]));
        }
    }
}

/// An unquoted string that begins with a character that may stand in one
/// ends behind it, inside the text.
pub proof fn unquoted_bounds(s: Seq<char>, i: int, acc: Seq<char>)
    requires
        0 <= i <= s.len(),
    ensures
        i <= scan_unquoted(s, i, acc).1 <= s.len(),
        i < s.len() && !forces_quotes(s[i]) ==> i < scan_unquoted(s, i, acc).1,
        scan_unquoted(s, i, acc).0.len() >= acc.len(),
        i < s.len() && !forces_quotes(s[i]) ==> scan_unquoted(s, i, acc).0.len() > acc.len(),
    decreases s.len() - i,
{
    if i < s.len() && !forces_quotes(s[i]) {
        if escape_at(s, i) {
            unquoted_bounds(s, i + 2, acc.push(unescaped(s[i + 1])));
        } else {
            unquoted_bounds(s, i + 1, acc.push(s[i]));
        }
    }
}

/// The token of a value ends behind the place where the reader stood.
pub proof fn value_token_advances(s: Seq<char>, i: int)
    requires
        0 <= i <= s.len(),
    ensures
        match value_token(s, i) {
            Ok(lexeme) => {
                &&& i <= lexeme.start <= lexeme.end <= s.len()
                &&& !(lexeme.token is End) ==> lexeme.start < lexeme.end
            },
            Err(_) => true,
        },
{
    token_advances(s, i);
    match next_token(s, i) {
        Ok(lexeme) => {
            if is_tag(lexeme.token) {
                token_advances(s, lexeme.end);
            }
        },
        Err(_) => {},
    }
}

/// The entries of the document `s`, read on from `i`, where `acc` are the
/// entries of the object that is open and `stack` holds the objects around
/// it, outermost first; or the first fault of the text.
///
/// At most `limit` objects may be open around the one that is being read.
pub open spec fn parse_from(
    s: Seq<char>,
    i: int,
    stack: Seq<Frame>,
    acc: Entries,
    limit: nat,
) -> Result<Entries, Fault>
    decreases s.len() - i,
{
    if i < 0 || i > s.len() {
        Err(syntax(s, i, Expected::KeyOrEnd))
    } else {
        match next_token(s, i) {
            Err(fault) => Err(fault),
            Ok(lexeme) => match lexeme.token {
                Token::End => if stack.len() == 0 {
                    Ok(acc)
                } else {
                    Err(syntax(s, s.len() as int, Expected::ClosingBrace))
                },
                Token::Close => if stack.len() == 0 {
                    Err(syntax(s, lexeme.start, Expected::KeyOrEnd))
                } else {
                    proof {
                        token_advances(s, i);
                    }
                    parse_from(
                        s,
                        lexeme.end,
                        stack.drop_last(),
                        pushed(stack.last().entries, stack.last().key, Node::Object(acc)),
                        limit,
                    )
                },
                Token::Open => Err(syntax(s, lexeme.start, Expected::Key)),
                Token::Text { text: key, .. } => match value_token(s, lexeme.end) {
                    Err(fault) => Err(fault),
                    Ok(value) => {
                        proof {
                            token_advances(s, i);
                            value_token_advances(s, lexeme.end);
                        }
                        match value.token {
                            Token::End => Err(syntax(s, s.len() as int, Expected::Value)),
                            Token::Close => Err(syntax(s, value.start, Expected::Value)),
                            Token::Text { text, .. } => parse_from(
                                s,
                                value.end,
                                stack,
                                pushed(acc, key, Node::Text(text)),
                                limit,
                            ),
                            Token::Open => if stack.len() >= limit {
                                Err(Fault::RecursionLimitExceeded)
                            } else {
                                parse_from(
                                    s,
                                    value.end,
                                    stack.push(Frame { entries: acc, key }),
                                    Seq::empty(),
                                    limit,
                                )
                            },
                        }
                    },
                },
            },
        }
    }
}

/// The entries of the document `s`, or its first fault.
pub open spec fn parse_text(s: Seq<char>, limit: nat) -> Result<Entries, Fault> {
    parse_from(s, 0, Seq::empty(), Seq::empty(), limit)
}

/// The number of objects that may be open around an object where no other
/// limit is given.
pub const DEFAULT_NESTING_LIMIT: usize = 128;

/// A token as the reader holds it.
enum Lexed {
    End,
    Open,
    Close,
    Text(String, bool),
}

/// A token with the place where it begins and the place behind it.
struct Found {
    token: Lexed,
    start: usize,
    end: usize,
}

impl View for Lexed {
    type V = Token;

    closed spec fn view(&self) -> Token {
        match self {
            Lexed::End => Token::End,
            Lexed::Open => Token::Open,
            Lexed::Close => Token::Close,
            Lexed::Text(text, quoted) => Token::Text { text: text@, quoted: *quoted },
        }
    }
}

impl View for Found {
    type V = Lexeme;

    closed spec fn view(&self) -> Lexeme {
        Lexeme { token: self.token@, start: self.start as int, end: self.end as int }
    }
}

/// How a token that was read relates to the one that the text holds.
spec fn token_result(res: Result<Found, Error>, expected: Result<Lexeme, Fault>) -> bool {
    match expected {
        Ok(lexeme) => res matches Ok(found) && found@ == lexeme,
        Err(fault) => res matches Err(e) && e@ == fault,
    }
}

/// The objects that wait for the one that is being read.
pub open spec fn frames_of(stack: Seq<(Object, String)>) -> Seq<Frame> {
    Seq::new(stack.len(), |k: int| Frame { entries: stack[k].0@, key: stack[k].1@ })
}

/// The error of the text `s` that goes wrong where `offset` characters
/// stand before.
fn syntax_error(s: &Vec<char>, offset: usize, expected: Expected) -> (e: Error)
    requires
        offset <= s.len(),
    ensures
        e@ == syntax(s@, offset as int, expected),
{
    let mut line: usize = 0;
    let mut start: usize = 0;
    let mut i: usize = 0;
    while i < offset
        invariant
            i <= offset <= s.len(),
            line == line_breaks_before(s@, i as int),
            start == line_start(s@, i as int),
            line <= i,
            start <= i,
        decreases offset - i,
    {
        if s[i] == '\n' {
            line += 1;
            start = i + 1;
        }
        i += 1;
    }
    Error::Syntax { position: Position { offset, line, column: offset - start }, expected }
}

fn skip(s: &Vec<char>, from: usize) -> (j: usize)
    requires
        from <= s.len(),
    ensures
        j == skip_trivia(s@, from as int, false),
        from <= j <= s.len(),
{
    let mut i: usize = from;
    let mut in_comment = false;
    proof {
        trivia_bounds(s@, from as int, false);
    }
    while i < s.len()
        invariant
            from <= i <= s.len(),
            skip_trivia(s@, from as int, false) == skip_trivia(s@, i as int, in_comment),
        decreases s.len() - i,
    {
        let c = s[i];
        if in_comment {
            in_comment = c != '\n';
            i += 1;
        } else if is_whitespace_char(c) {
            i += 1;
        } else if c == '/' && i + 1 < s.len() && s[i + 1] == '/' {
            in_comment = true;
            i += 2;
        } else {
            return i;
        }
    }
    i
}

fn escape_begins(s: &Vec<char>, i: usize) -> (r: bool)
    requires
        i < s.len(),
    ensures
        r == escape_at(s@, i as int),
{
    if s[i] == '\\' && i + 1 < s.len() {
        let c = s[i + 1];
        c == 'n' || c == 't' || c == '\\' || c == '"'
    } else {
        false
    }
}

fn unescape(c: char) -> (r: char)
    ensures
        r == unescaped(c),
{
    if c == 'n' {
        '\n'
    } else if c == 't' {
        '\t'
    } else {
        c
    }
}

fn read_quoted(s: &Vec<char>, from: usize) -> (res: Option<(String, usize)>)
    requires
        from <= s.len(),
    ensures
        match scan_quoted(s@, from as int, Seq::empty()) {
            Some((text, end)) => res matches Some((t, e)) && t@ == text && e == end,
            None => res is None,
        },
{
    let mut text = String::new();
    let mut i: usize = from;
    while i < s.len()
        invariant
            from <= i <= s.len(),
            scan_quoted(s@, from as int, Seq::empty()) == scan_quoted(s@, i as int, text@),
        decreases s.len() - i,
    {
        let c = s[i];
        if c == '"' {
            return Some((text, i + 1));
        } else if escape_begins(s, i) {
            push_char(&mut text, unescape(s[i + 1]));
            i += 2;
        } else {
            push_char(&mut text, c);
            i += 1;
        }
    }
    None
}

fn read_unquoted(s: &Vec<char>, from: usize) -> (res: (String, usize))
    requires
        from <= s.len(),
    ensures
        res.0@ == scan_unquoted(s@, from as int, Seq::empty()).0,
        res.1 == scan_unquoted(s@, from as int, Seq::empty()).1,
{
    let mut text = String::new();
    let mut i: usize = from;
    while i < s.len()
        invariant
            from <= i <= s.len(),
            scan_unquoted(s@, from as int, Seq::empty()) == scan_unquoted(s@, i as int, text@),
        decreases s.len() - i,
    {
        let c = s[i];
        if c == '{' || c == '}' || c == '"' || is_whitespace_char(c) {
            return (text, i);
        } else if escape_begins(s, i) {
            push_char(&mut text, unescape(s[i + 1]));
            i += 2;
        } else {
            push_char(&mut text, c);
            i += 1;
        }
    }
    (text, i)
}

fn read_token(s: &Vec<char>, from: usize) -> (res: Result<Found, Error>)
    requires
        from <= s.len(),
    ensures
        token_result(res, next_token(s@, from as int)),
{
    let j = skip(s, from);
    if j >= s.len() {
        return Ok(Found { token: Lexed::End, start: s.len(), end: s.len() });
    }
    let c = s[j];
    if c == '{' {
        Ok(Found { token: Lexed::Open, start: j, end: j + 1 })
    } else if c == '}' {
        Ok(Found { token: Lexed::Close, start: j, end: j + 1 })
    } else if c == '"' {
        match read_quoted(s, j + 1) {
            Some((text, end)) => Ok(Found { token: Lexed::Text(text, true), start: j, end }),
            None => Err(syntax_error(s, s.len(), Expected::ClosingQuote)),
        }
    } else {
        let (text, end) = read_unquoted(s, j);
        Ok(Found { token: Lexed::Text(text, false), start: j, end })
    }
}

fn tag_ends(text: &String) -> (r: bool)
    requires
        text@.len() > 0,
    ensures
        r == (text@.last() == ']'),
{
    let v = chars_of(text.as_str());
    v[v.len() - 1] == ']'
}

fn tag_begins(text: &String) -> (r: bool)
    ensures
        r == (text@.len() > 0 && text@[0] == '['),
{
    let v = chars_of(text.as_str());
    v.len() > 0 && v[0] == '['
}

fn read_value_token(s: &Vec<char>, from: usize) -> (res: Result<Found, Error>)
    requires
        from <= s.len(),
    ensures
        token_result(res, value_token(s@, from as int)),
{
    proof {
        token_advances(s@, from as int);
    }
    let first = match read_token(s, from) {
        Ok(found) => found,
        Err(e) => {
            return Err(e);
        },
    };
    let tagged = match &first.token {
        Lexed::Text(text, quoted) => !*quoted && tag_begins(text),
        _ => false,
    };
    if tagged {
        let closed = match &first.token {
            Lexed::Text(text, _) => tag_ends(text),
            _ => false,
        };
        if closed {
            read_token(s, first.end)
        } else {
            Err(syntax_error(s, first.end, Expected::ClosingBracket))
        }
    } else {
        Ok(first)
    }
}

/// How a document that was read relates to the entries that the text holds.
pub open spec fn document_result(
    res: Result<KeyValues, Error>,
    expected: Result<Entries, Fault>,
) -> bool {
    match expected {
        Ok(entries) => res matches Ok(document) && document.root@ == entries,
        Err(fault) => res matches Err(e) && e@ == fault,
    }
}

/// Reads `text` as a document, with at most [`DEFAULT_NESTING_LIMIT`] objects
/// open around any object.
pub fn parse(text: &str) -> (res: Result<KeyValues, Error>)
    ensures
        document_result(res, parse_text(text@, DEFAULT_NESTING_LIMIT as nat)),
        res matches Ok(document) ==> entries_wf(document.root@),
{
    parse_with_limit(text, DEFAULT_NESTING_LIMIT)
}

/// Reads `text` as a document, with at most `limit` objects open around any
/// object.
pub fn parse_with_limit(text: &str, limit: usize) -> (res: Result<KeyValues, Error>)
    ensures
        document_result(res, parse_text(text@, limit as nat)),
        res matches Ok(document) ==> entries_wf(document.root@),
{
    proof {
        read_document_is_wf(text@, limit as nat);
    }
    let s = chars_of(text);
    let mut stack: Vec<(Object, String)> = Vec::new();
    let mut acc = Object::new();
    let mut i: usize = 0;
    assert(frames_of(stack@) =~= Seq::<Frame>::empty());
    loop
        invariant
            i <= s.len(),
            s@ == text@,
            parse_text(text@, limit as nat) matches Ok(entries) ==> entries_wf(entries),
            parse_text(text@, limit as nat) == parse_from(
                s@,
                i as int,
                frames_of(stack@),
                acc@,
                limit as nat,
            ),
        decreases s.len() - i,
    {
        proof {
            token_advances(s@, i as int);
        }
        let key_token = match read_token(&s, i) {
            Ok(found) => found,
            Err(e) => {
                return Err(e);
            },
        };
        match key_token.token {
            Lexed::End => {
                if stack.len() == 0 {
                    return Ok(KeyValues::with_root(acc));
                } else {
                    return Err(syntax_error(&s, s.len(), Expected::ClosingBrace));
                }
            },
            Lexed::Close => {
                let ghost frames = frames_of(stack@);
                match stack.pop() {
                    Some((mut outer, key)) => {
                        assert(frames_of(stack@) =~= frames.drop_last());
                        outer.push(key, Value::Object(acc));
                        acc = outer;
                        i = key_token.end;
                    },
                    None => {
                        return Err(syntax_error(&s, key_token.start, Expected::KeyOrEnd));
                    },
                }
            },
            Lexed::Open => {
                return Err(syntax_error(&s, key_token.start, Expected::Key));
            },
            Lexed::Text(key, _) => {
                proof {
                    value_token_advances(s@, key_token.end as int);
                }
                let value_token = match read_value_token(&s, key_token.end) {
                    Ok(found) => found,
                    Err(e) => {
                        return Err(e);
                    },
                };
                match value_token.token {
                    Lexed::End => {
                        return Err(syntax_error(&s, s.len(), Expected::Value));
                    },
                    Lexed::Close => {
                        return Err(syntax_error(&s, value_token.start, Expected::Value));
                    },
                    Lexed::Text(text, _) => {
                        acc.push(key, Value::String(text));
                        i = value_token.end;
                    },
                    Lexed::Open => {
                        if stack.len() >= limit {
                            return Err(Error::RecursionLimitExceeded);
                        }
                        let ghost frames = frames_of(stack@);
                        let ghost entries = acc@;
                        stack.push((acc, key));
                        assert(frames_of(stack@) =~= frames.push(
                            Frame { entries, key: key@ },
                        ));
                        acc = Object::new();
                        i = value_token.end;
                    },
                }
            },
        }
    }
}

} // verus!
