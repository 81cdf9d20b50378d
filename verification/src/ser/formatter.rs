//! Rendering of structural tokens under a style.

use crate::text::{must_quote, needs_quotes, push_char, push_written, same_text, written};
use vstd::prelude::*;
use vstd::string::*;

verus! {

/// Controls the formatting of curly brackets around objects.
#[derive(Copy, Clone, Debug, PartialEq, Eq, Structural)]
pub enum BraceStyle {
    /// Place `{` and `}` on lines of their own.
    Allman,
    /// Place `{` on the line of the key, and `}` on a line of its own.
    KAndR,
}

/// Controls whether strings are written between quotes.
#[derive(Copy, Clone, Debug, PartialEq, Eq, Structural)]
pub enum Quoting {
    /// Always add quotes.
    Always,
    /// Add quotes only where the string could not be read back without them:
    /// it is empty, it begins with `[`, or it holds a brace, a quote or white
    /// space.
    WhenRequired,
}

/// The style of the text that a [`PrettyFormatter`] writes.
#[derive(Clone, Debug, PartialEq, Eq)]
pub struct FormatOpts {
    /// The characters written once per indent level.
    pub indent: String,
    /// The characters written between a key and its string value.
    pub separator: String,
    /// Where braces are placed.
    pub brace_style: BraceStyle,
    /// How object keys are quoted.
    pub quote_keys: Quoting,
    /// How the keys `#base` and `#include` are quoted.
    pub quote_macro_keys: Quoting,
    /// How string values are quoted.
    pub quote_values: Quoting,
}

/// The mathematical content of a [`FormatOpts`].
pub struct Style {
    pub indent: Seq<char>,
    pub separator: Seq<char>,
    pub brace_style: BraceStyle,
    pub quote_keys: Quoting,
    pub quote_macro_keys: Quoting,
    pub quote_values: Quoting,
}

impl View for FormatOpts {
    type V = Style;

    open spec fn view(&self) -> Style {
        Style {
            indent: self.indent@,
            separator: self.separator@,
            brace_style: self.brace_style,
            quote_keys: self.quote_keys,
            quote_macro_keys: self.quote_macro_keys,
            quote_values: self.quote_values,
        }
    }
}

/// The style used where none is given: four spaces of indent, one space
/// between key and value, braces on their own lines, everything quoted.
pub open spec fn default_style() -> Style {
    Style {
        indent: seq![' ', ' ', ' ', ' '],
        separator: seq![' '],
        brace_style: BraceStyle::Allman,
        quote_keys: Quoting::Always,
        quote_macro_keys: Quoting::Always,
        quote_values: Quoting::Always,
    }
}

impl Default for FormatOpts {
    fn default() -> (opts: Self)
        ensures
            opts@ == default_style(),
    {
        let mut indent = String::new();
        push_char(&mut indent, ' ');
        push_char(&mut indent, ' ');
        push_char(&mut indent, ' ');
        push_char(&mut indent, ' ');
        let mut separator = String::new();
        push_char(&mut separator, ' ');
        assert(indent@ =~= seq![' ', ' ', ' ', ' ']);
        assert(separator@ =~= seq![' ']);
        FormatOpts {
            indent,
            separator,
            brace_style: BraceStyle::Allman,
            quote_keys: Quoting::Always,
            quote_macro_keys: Quoting::Always,
            quote_values: Quoting::Always,
        }
    }
}

/// What a formatter has open: an object, a key-value pair, or the key or the
/// value of a pair.
#[derive(Copy, Clone, Debug, PartialEq, Eq, Structural)]
pub enum ElementKind {
    Object,
    KeyValue,
    Key,
    Value,
}

/// One call on a [`Formatter`], as a mathematical value.
pub enum Event {
    BeginObject,
    EndObject,
    BeginKey,
    EndKey,
    BeginValue,
    EndValue,
    /// A string, written as a key or as a value.
    Text(Seq<char>),
    /// A conditional tag, written behind a key.
    Conditional(Seq<char>),
    /// A comment on a line of its own.
    LineComment(Seq<char>),
}

/// The largest number of elements that may be open when an object begins.
pub open spec fn max_open_elements() -> nat {
    0x7fff_ffff
}

/// Whether `event` may come while `elements` are open, outermost first.
///
/// Objects end what they began, a key ends inside its pair, a value begins
/// inside a pair and ends with it, a string is never written directly into an
/// object or a pair, a conditional tag belongs to a key, and a comment stands
/// between pairs.
pub open spec fn admits(elements: Seq<ElementKind>, event: Event) -> bool {
    let n = elements.len() as int;
    match event {
        Event::BeginObject => n < max_open_elements(),
        Event::EndObject => n >= 1 && elements[n - 1] == ElementKind::Object,
        Event::BeginKey => true,
        Event::EndKey => n >= 2 && elements[n - 1] == ElementKind::Key && elements[n - 2]
            == ElementKind::KeyValue,
        Event::BeginValue => n >= 1 && elements[n - 1] == ElementKind::KeyValue,
        Event::EndValue => n >= 2 && elements[n - 1] == ElementKind::Value && elements[n - 2]
            == ElementKind::KeyValue,
        Event::Text(_) => n == 0 || elements[n - 1] == ElementKind::Key || elements[n - 1]
            == ElementKind::Value,
        Event::Conditional(_) => n >= 1 && elements[n - 1] == ElementKind::Key,
        Event::LineComment(_) => n == 0 || elements[n - 1] == ElementKind::Object,
    }
}

/// The open elements after `event` came while `elements` were open.
pub open spec fn elements_after(elements: Seq<ElementKind>, event: Event) -> Seq<ElementKind> {
    match event {
        Event::BeginObject => elements.push(ElementKind::Object),
        Event::EndObject => elements.drop_last(),
        Event::BeginKey => elements.push(ElementKind::KeyValue).push(ElementKind::Key),
        Event::EndKey => elements.drop_last(),
        Event::BeginValue => elements.push(ElementKind::Value),
        Event::EndValue => elements.drop_last().drop_last(),
        Event::Text(_) => elements,
        Event::Conditional(_) => elements,
        Event::LineComment(_) => elements,
    }
}

/// A rendering policy for the structural tokens of KeyValues text.
///
/// A formatter is a state machine over a model of its own choosing. Each
/// method stands for one [`Event`]: it appends to `writer` the text that
/// [`Formatter::output`] gives for the event in the current state, and moves
/// to the state that [`Formatter::next`] gives. Callers keep to the order
/// that [`admits`] describes.
pub trait Formatter: Sized {
    /// The mathematical model of a formatter.
    type State;

    /// The model of this formatter.
    spec fn state(&self) -> Self::State;

    /// The invariant that a formatter keeps between calls.
    spec fn valid(&self) -> bool;

    /// The elements that are open in `state`, outermost first.
    spec fn open_elements(state: Self::State) -> Seq<ElementKind>;

    /// The state that follows `state` on `event`.
    spec fn next(state: Self::State, event: Event) -> Self::State;

    /// The text written for `event` in `state`.
    spec fn output(state: Self::State, event: Event) -> Seq<char>;

    /// The open elements change as [`elements_after`] says.
    proof fn next_keeps_order(state: Self::State, event: Event)
        requires
            admits(Self::open_elements(state), event),
        ensures
            Self::open_elements(Self::next(state, event)) == elements_after(
                Self::open_elements(state),
                event,
            ),
    ;

    /// Whether nothing is open: the formatter stands before a document or
    /// behind one.
    fn is_idle(&self) -> (idle: bool)
        requires
            self.valid(),
        ensures
            idle == (Self::open_elements(self.state()).len() == 0),
    ;

    /// Called before an object is written (the root too).
    fn begin_object(&mut self, writer: &mut String)
        requires
            old(self).valid(),
            admits(Self::open_elements(old(self).state()), Event::BeginObject),
        ensures
            final(self).valid(),
            final(self).state() == Self::next(old(self).state(), Event::BeginObject),
            final(writer)@ == old(writer)@ + Self::output(old(self).state(), Event::BeginObject),
    ;

    /// Called after an object is written (the root too).
    fn end_object(&mut self, writer: &mut String)
        requires
            old(self).valid(),
            admits(Self::open_elements(old(self).state()), Event::EndObject),
        ensures
            final(self).valid(),
            final(self).state() == Self::next(old(self).state(), Event::EndObject),
            final(writer)@ == old(writer)@ + Self::output(old(self).state(), Event::EndObject),
    ;

    /// Called before the key of a key-value pair is written.
    fn begin_key(&mut self, writer: &mut String)
        requires
            old(self).valid(),
            admits(Self::open_elements(old(self).state()), Event::BeginKey),
        ensures
            final(self).valid(),
            final(self).state() == Self::next(old(self).state(), Event::BeginKey),
            final(writer)@ == old(writer)@ + Self::output(old(self).state(), Event::BeginKey),
    ;

    /// Called after the key of a key-value pair is written.
    fn end_key(&mut self, writer: &mut String)
        requires
            old(self).valid(),
            admits(Self::open_elements(old(self).state()), Event::EndKey),
        ensures
            final(self).valid(),
            final(self).state() == Self::next(old(self).state(), Event::EndKey),
            final(writer)@ == old(writer)@ + Self::output(old(self).state(), Event::EndKey),
    ;

    /// Called before the value of a key-value pair is written.
    fn begin_value(&mut self, writer: &mut String)
        requires
            old(self).valid(),
            admits(Self::open_elements(old(self).state()), Event::BeginValue),
        ensures
            final(self).valid(),
            final(self).state() == Self::next(old(self).state(), Event::BeginValue),
            final(writer)@ == old(writer)@ + Self::output(old(self).state(), Event::BeginValue),
    ;

    /// Called after the value of a key-value pair is written.
    fn end_value(&mut self, writer: &mut String)
        requires
            old(self).valid(),
            admits(Self::open_elements(old(self).state()), Event::EndValue),
        ensures
            final(self).valid(),
            final(self).state() == Self::next(old(self).state(), Event::EndValue),
            final(writer)@ == old(writer)@ + Self::output(old(self).state(), Event::EndValue),
    ;

    /// Writes a string: a key inside a key, a value elsewhere.
    fn write_string(&mut self, writer: &mut String, s: &str)
        requires
            old(self).valid(),
            admits(Self::open_elements(old(self).state()), Event::Text(s@)),
        ensures
            final(self).valid(),
            final(self).state() == Self::next(old(self).state(), Event::Text(s@)),
            final(writer)@ == old(writer)@ + Self::output(old(self).state(), Event::Text(s@)),
    ;

    /// Writes a conditional tag behind the key that is open.
    fn write_conditional(&mut self, writer: &mut String, condition: &str)
        requires
            old(self).valid(),
            admits(Self::open_elements(old(self).state()), Event::Conditional(condition@)),
        ensures
            final(self).valid(),
            final(self).state() == Self::next(old(self).state(), Event::Conditional(condition@)),
            final(writer)@ == old(writer)@ + Self::output(
                old(self).state(),
                Event::Conditional(condition@),
            ),
    ;

    /// Writes a comment on a line of its own, between key-value pairs.
    fn write_line_comment(&mut self, writer: &mut String, comment: &str)
        requires
            old(self).valid(),
            admits(Self::open_elements(old(self).state()), Event::LineComment(comment@)),
        ensures
            final(self).valid(),
            final(self).state() == Self::next(old(self).state(), Event::LineComment(comment@)),
            final(writer)@ == old(writer)@ + Self::output(
                old(self).state(),
                Event::LineComment(comment@),
            ),
    ;
}

/// The mathematical model of a [`PrettyFormatter`]: its style and the
/// elements that are open, outermost first.
pub struct PrettyState {
    pub style: Style,
    pub elements: Seq<ElementKind>,
}

/// The number of objects among `elements`.
pub open spec fn objects_in(elements: Seq<ElementKind>) -> int
    decreases elements.len(),
{
    if elements.len() == 0 {
        0
    } else {
        objects_in(elements.drop_last()) + if elements.last() == ElementKind::Object {
            1int
        } else {
            0int
        }
    }
}

/// `n` copies of `s`, one after the other; nothing where `n` is not positive.
pub open spec fn repeat(s: Seq<char>, n: int) -> Seq<char>
    decreases n,
{
    if n <= 0 {
        Seq::empty()
    } else {
        repeat(s, n - 1) + s
    }
}

/// The indent of a line written while `elements` are open: one step for each
/// open object but the root.
pub open spec fn indentation(style: Style, elements: Seq<ElementKind>) -> Seq<char> {
    repeat(style.indent, objects_in(elements) - 1)
}

/// Whether `s` is the name of a macro: `#include` or `#base`.
pub open spec fn is_macro_key(s: Seq<char>) -> bool {
    s == seq!['#', 'i', 'n', 'c', 'l', 'u', 'd', 'e'] || s == seq!['#', 'b', 'a', 's', 'e']
}

/// The quoting policy for the string `s`, written while `elements` are open:
/// that of keys (of macro keys for a macro's name) inside a key, that of
/// values elsewhere.
pub open spec fn quoting_for(style: Style, elements: Seq<ElementKind>, s: Seq<char>) -> Quoting {
    if elements.len() > 0 && elements.last() == ElementKind::Key {
        if is_macro_key(s) {
            style.quote_macro_keys
        } else {
            style.quote_keys
        }
    } else {
        style.quote_values
    }
}

/// Whether `s` is written between quotes under `quoting`.
pub open spec fn quoted_under(quoting: Quoting, s: Seq<char>) -> bool {
    quoting == Quoting::Always || needs_quotes(s)
}

/// The text that a [`PrettyFormatter`] writes for `event` in `state`.
pub open spec fn pretty_output(state: PrettyState, event: Event) -> Seq<char> {
    let style = state.style;
    let elements = state.elements;
    match event {
        Event::BeginObject => if elements.len() == 0 {
            Seq::empty()
        } else {
            match style.brace_style {
                BraceStyle::Allman => seq!['\n'] + indentation(style, elements) + seq!['{', '\n'],
                BraceStyle::KAndR => seq![' ', '{', '\n'],
            }
        },
        Event::EndObject => if elements.len() <= 1 {
            Seq::empty()
        } else {
            indentation(style, elements.drop_last()) + seq!['}']
        },
        Event::BeginKey => indentation(style, elements),
        Event::EndKey => Seq::empty(),
        Event::BeginValue => Seq::empty(),
        Event::EndValue => seq!['\n'],
        Event::Text(s) => {
            let lead = if elements.len() > 0 && elements.last() == ElementKind::Value {
                style.separator
            } else {
                Seq::empty()
            };
            lead + written(s, quoted_under(quoting_for(style, elements, s), s))
        },
        Event::Conditional(condition) => seq![' ', '['] + condition + seq![']'],
        Event::LineComment(comment) => indentation(style, elements) + seq!['/', '/', ' ']
            + comment + seq!['\n'],
    }
}

/// The state of a [`PrettyFormatter`] after `event`: the style stays, the
/// open elements change as [`elements_after`] says.
pub open spec fn pretty_next(state: PrettyState, event: Event) -> PrettyState {
    PrettyState { style: state.style, elements: elements_after(state.elements, event) }
}

/// The state of a [`PrettyFormatter`] that has written nothing yet.
pub open spec fn pretty_start(style: Style) -> PrettyState {
    PrettyState { style, elements: Seq::empty() }
}

/// No more objects are open than elements.
pub proof fn objects_in_bounds(elements: Seq<ElementKind>)
    ensures
        0 <= objects_in(elements) <= elements.len(),
    decreases elements.len(),
{
    if elements.len() > 0 {
        objects_in_bounds(elements.drop_last());
    }
}

/// A [`Formatter`] that writes one key-value pair per line and indents the
/// pairs of an object by one step more than the object's key.
pub struct PrettyFormatter {
    opts: FormatOpts,
    elements: Vec<ElementKind>,
    indent_level: i32,
}

impl PrettyFormatter {
    /// A formatter with the default style.
    pub fn new() -> (f: Self)
        ensures
            f.valid(),
            f.state() == pretty_start(default_style()),
    {
        Self::with_opts(FormatOpts::default())
    }

    /// A formatter with the style `opts`.
    pub fn with_opts(opts: FormatOpts) -> (f: Self)
        ensures
            f.valid(),
            f.state() == pretty_start(opts@),
    {
        Self { opts, elements: Vec::new(), indent_level: -1 }
    }

    fn push_element(&mut self, kind: ElementKind)
        requires
            old(self).valid(),
            kind == ElementKind::Object ==> old(self).elements@.len() < max_open_elements(),
        ensures
            final(self).valid(),
            final(self).opts == old(self).opts,
            final(self).elements@ == old(self).elements@.push(kind),
    {
        proof {
            objects_in_bounds(self.elements@);
            assert(self.elements@.push(kind).drop_last() =~= self.elements@);
        }
        self.elements.push(kind);
        if kind == ElementKind::Object {
            self.indent_level += 1;
        }
    }

    fn pop_element(&mut self) -> (kind: ElementKind)
        requires
            old(self).valid(),
            old(self).elements@.len() > 0,
        ensures
            final(self).valid(),
            final(self).opts == old(self).opts,
            final(self).elements@ == old(self).elements@.drop_last(),
            kind == old(self).elements@.last(),
    {
        proof {
            objects_in_bounds(self.elements@.drop_last());
        }
        let elem = self.elements.pop().unwrap();
        if elem == ElementKind::Object {
            self.indent_level -= 1;
        }
        elem
    }

    fn write_indent(&self, writer: &mut String)
        requires
            self.valid(),
        ensures
            final(writer)@ == old(writer)@ + indentation(self.opts@, self.elements@),
    {
        let mut i: i32 = 0;
        assert(old(writer)@ + repeat(self.opts.indent@, 0) =~= old(writer)@);
        while i < self.indent_level
            invariant
                0 <= i,
                i <= self.indent_level || i == 0,
                writer@ == old(writer)@ + repeat(self.opts.indent@, i as int),
            decreases self.indent_level - i,
        {
            writer.append(self.opts.indent.as_str());
            i += 1;
            assert(writer@ =~= old(writer)@ + repeat(self.opts.indent@, i as int));
        }
        assert(repeat(self.opts.indent@, i as int) == repeat(
            self.opts.indent@,
            self.indent_level as int,
        ));
    }

    fn write_string_element(&self, writer: &mut String, s: &str, quoting: Quoting)
        ensures
            final(writer)@ == old(writer)@ + written(s@, quoted_under(quoting, s@)),
    {
        let need_quotes = match quoting {
            Quoting::Always => true,
            Quoting::WhenRequired => must_quote(s),
        };
        push_written(writer, s, need_quotes);
    }

    /// The style of this formatter.
    pub fn opts(&self) -> (opts: &FormatOpts)
        ensures
            opts@ == self.state().style,
    {
        &self.opts
    }
}

impl Default for PrettyFormatter {
    fn default() -> (f: Self)
        ensures
            f.valid(),
            f.state() == pretty_start(default_style()),
    {
        Self::new()
    }
}

impl Formatter for PrettyFormatter {
    type State = PrettyState;

    closed spec fn state(&self) -> PrettyState {
        PrettyState { style: self.opts@, elements: self.elements@ }
    }

    closed spec fn valid(&self) -> bool {
        self.indent_level == objects_in(self.elements@) - 1
    }

    open spec fn open_elements(state: PrettyState) -> Seq<ElementKind> {
        state.elements
    }

    open spec fn next(state: PrettyState, event: Event) -> PrettyState {
        pretty_next(state, event)
    }

    open spec fn output(state: PrettyState, event: Event) -> Seq<char> {
        pretty_output(state, event)
    }

    proof fn next_keeps_order(state: PrettyState, event: Event) {
    }

    fn is_idle(&self) -> (idle: bool) {
        self.elements.len() == 0
    }

    fn begin_object(&mut self, writer: &mut String) {
        if self.elements.len() == 0 {
            self.push_element(ElementKind::Object);
            assert(writer@ =~= old(writer)@ + Seq::<char>::empty());
            return ;
        }
        match self.opts.brace_style {
            BraceStyle::Allman => {
                push_char(writer, '\n');
                self.write_indent(writer);
                push_char(writer, '{');
                self.push_element(ElementKind::Object);
                push_char(writer, '\n');
                assert(writer@ =~= old(writer)@ + (seq!['\n'] + indentation(
                    old(self).opts@,
                    old(self).elements@,
                ) + seq!['{', '\n']));
            },
            BraceStyle::KAndR => {
                push_char(writer, ' ');
                push_char(writer, '{');
                self.push_element(ElementKind::Object);
                push_char(writer, '\n');
                assert(writer@ =~= old(writer)@ + seq![' ', '{', '\n']);
            },
        }
    }

    fn end_object(&mut self, writer: &mut String) {
        let _ = self.pop_element();
        if self.elements.len() != 0 {
            self.write_indent(writer);
            push_char(writer, '}');
            assert(writer@ =~= old(writer)@ + (indentation(
                old(self).opts@,
                old(self).elements@.drop_last(),
            ) + seq!['}']));
        } else {
            assert(writer@ =~= old(writer)@ + Seq::<char>::empty());
        }
    }

    fn begin_key(&mut self, writer: &mut String) {
        self.push_element(ElementKind::KeyValue);
        self.push_element(ElementKind::Key);
        proof {
            let e = old(self).elements@;
            assert(e.push(ElementKind::KeyValue).push(ElementKind::Key).drop_last() =~= e.push(
                ElementKind::KeyValue,
            ));
            assert(e.push(ElementKind::KeyValue).drop_last() =~= e);
        }
        self.write_indent(writer);
    }

    fn end_key(&mut self, writer: &mut String) {
        let _ = self.pop_element();
        assert(writer@ =~= old(writer)@ + Seq::<char>::empty());
    }

    fn begin_value(&mut self, writer: &mut String) {
        self.push_element(ElementKind::Value);
        assert(writer@ =~= old(writer)@ + Seq::<char>::empty());
    }

    fn end_value(&mut self, writer: &mut String) {
        let _ = self.pop_element();
        let _ = self.pop_element();
        push_char(writer, '\n');
        assert(writer@ =~= old(writer)@ + seq!['\n']);
    }

    fn write_string(&mut self, writer: &mut String, s: &str) {
        let n = self.elements.len();
        let in_key = n > 0 && self.elements[n - 1] == ElementKind::Key;
        let in_value = n > 0 && self.elements[n - 1] == ElementKind::Value;
        let quoting = if in_key {
            let directive = "#include";
            let base = "#base";
            proof {
                reveal_strlit("#include");
                reveal_strlit("#base");
                assert(directive@ =~= seq!['#', 'i', 'n', 'c', 'l', 'u', 'd', 'e']);
                assert(base@ =~= seq!['#', 'b', 'a', 's', 'e']);
            }
            if same_text(s, directive) || same_text(s, base) {
                self.opts.quote_macro_keys
            } else {
                self.opts.quote_keys
            }
        } else {
            self.opts.quote_values
        };
        if in_value {
            writer.append(self.opts.separator.as_str());
        }
        self.write_string_element(writer, s, quoting);
        assert(writer@ =~= old(writer)@ + pretty_output(old(self).state(), Event::Text(s@)));
    }

    fn write_conditional(&mut self, writer: &mut String, condition: &str) {
        push_char(writer, ' ');
        push_char(writer, '[');
        writer.append(condition);
        push_char(writer, ']');
        assert(writer@ =~= old(writer)@ + (seq![' ', '['] + condition@ + seq![']']));
    }

    fn write_line_comment(&mut self, writer: &mut String, comment: &str) {
        self.write_indent(writer);
        push_char(writer, '/');
        push_char(writer, '/');
        push_char(writer, ' ');
        writer.append(comment);
        push_char(writer, '\n');
        assert(writer@ =~= old(writer)@ + (indentation(self.opts@, self.elements@) + seq![
            '/',
            '/',
            ' ',
        ] + comment@ + seq!['\n']));
    }
}

} // verus!
