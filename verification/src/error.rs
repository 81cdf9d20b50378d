//! The failures of encoding and decoding.

use vstd::prelude::*;

verus! {

/// What a reader wanted at the place where the text went wrong.
#[derive(Copy, Clone, Debug, PartialEq, Eq, Structural)]
pub enum Expected {
    /// A key, where a `{` stands.
    Key,
    /// A value, where the text or the object ends behind a key.
    Value,
    /// The `}` of an object, where the text ends.
    ClosingBrace,
    /// The `"` at the end of a string, where the text ends.
    ClosingQuote,
    /// The `]` at the end of a conditional tag.
    ClosingBracket,
    /// A key or the end of the text, where a `}` closes nothing.
    KeyOrEnd,
}

/// A place in a text: the number of characters before it, the number of
/// line breaks before it, and the number of characters between the last of
/// these line breaks and the place.
#[derive(Copy, Clone, Debug, PartialEq, Eq, Structural)]
pub struct Position {
    /// The number of characters before the place.
    pub offset: usize,
    /// The number of the line, counted from zero.
    pub line: usize,
    /// The number of the character in its line, counted from zero.
    pub column: usize,
}

/// Why a tree does not have the shape that was asked of it.
#[derive(Copy, Clone, Debug, PartialEq, Eq, Structural)]
pub enum Reason {
    /// A string stands where an object is asked for.
    ExpectedObject,
    /// An object stands where a string is asked for.
    ExpectedString,
    /// An object of one key stands for a case; this object has none or
    /// several.
    ExpectedVariant,
    /// A key that must have a value has none.
    MissingValue,
    /// A key that must have one value has several.
    RepeatedValue,
    /// A key has another number of values than the tuple has fields.
    WrongArity,
    /// A key that must have no value has one.
    UnexpectedValue,
    /// An object holds a key that the record does not have.
    UnknownField,
    /// The enumeration has no such case, or the case has another form.
    UnknownVariant,
    /// The string is not a run of digits.
    InvalidBool,
    /// The string is not an integer in decimal digits.
    InvalidNumber,
    /// The integer is outside the range that was asked for.
    OutOfRange,
    /// The string is not one character.
    InvalidChar,
}

/// All the ways in which encoding or decoding fails.
#[derive(Debug, PartialEq, Eq)]
#[non_exhaustive]
pub enum Error {
    /// The type has no representation: integers wider than 64 bits, raw bytes.
    UnsupportedType(String),
    /// A document that must hold one root key holds several.
    MultipleRootKeys,
    /// The root key of a document is not the one that was asked for.
    UnsupportedKey(String),
    /// A sequence was written with no key to repeat.
    RootLevelSequence,
    /// A sequence was written as an element of a sequence.
    NestedSequence,
    /// A number that is infinite or not a number; its IEEE 754 double bits.
    NonFiniteFloat(u64),
    /// The key of a map entry has no text form.
    KeyMustBeAString(String),
    /// The text is not KeyValues: the place of the fault and what should
    /// have stood there.
    Syntax { position: Position, expected: Expected },
    /// Objects or values are nested deeper than the limit.
    RecursionLimitExceeded,
    /// The tree does not have the shape that was asked of it: the keys that
    /// lead to the fault, outermost first, and the reason.
    Mismatch { path: Vec<String>, reason: Reason },
}

/// The contents of the keys `path`.
pub open spec fn path_of(path: Seq<String>) -> Seq<Seq<char>> {
    Seq::new(path.len(), |i: int| path[i]@)
}

/// The mathematical content of an [`Error`].
pub enum Fault {
    UnsupportedType(Seq<char>),
    MultipleRootKeys,
    UnsupportedKey(Seq<char>),
    RootLevelSequence,
    NestedSequence,
    NonFiniteFloat(u64),
    KeyMustBeAString(Seq<char>),
    Syntax { position: Position, expected: Expected },
    RecursionLimitExceeded,
    Mismatch { path: Seq<Seq<char>>, reason: Reason },
}

impl View for Error {
    type V = Fault;

    open spec fn view(&self) -> Fault {
        match self {
            Error::UnsupportedType(s) => Fault::UnsupportedType(s@),
            Error::MultipleRootKeys => Fault::MultipleRootKeys,
            Error::UnsupportedKey(s) => Fault::UnsupportedKey(s@),
            Error::RootLevelSequence => Fault::RootLevelSequence,
            Error::NestedSequence => Fault::NestedSequence,
            Error::NonFiniteFloat(bits) => Fault::NonFiniteFloat(*bits),
            Error::KeyMustBeAString(s) => Fault::KeyMustBeAString(s@),
            Error::Syntax { position, expected } => Fault::Syntax {
                position: *position,
                expected: *expected,
            },
            Error::RecursionLimitExceeded => Fault::RecursionLimitExceeded,
            Error::Mismatch { path, reason } => Fault::Mismatch {
                path: path_of(path@),
                reason: *reason,
            },
        }
    }
}

} // verus!
