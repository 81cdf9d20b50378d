//! A text codec for the KeyValues (VDF) format: a brace-delimited,
//! string-only multimap language in which a repeated key stands for a
//! sequence.
//!
//! ```text
//! "Cat"
//! {
//!     "Name" "Boots"
//!     "Age" "22"
//!     "Toy" "ball"
//!     "Toy" "mouse"
//! }
//! ```
//!
//! # Parts
//!
//! - [`value`]: the generic tree, [`Value`], [`Object`] and [`KeyValues`].
//! - [`data`]: application values described by their shape, [`Data`].
//! - [`ser`]: the encoder. A [`ser::Formatter`] renders structural tokens
//!   in a style, the [`ser::Serializer`] walks a value and tells the
//!   formatter what to write.
//! - [`de`]: the decoder. [`parse`] reads text into the tree, and the
//!   mapper reads the tree as a value of a declared [`de::Shape`].
//! - [`laws`]: what holds of the codec as a whole, above all that what is
//!   written is read back as it was.
//!
//! # Encoding
//!
//! Scalars are written as one string: booleans as `0` or `1`, integers in
//! decimal digits. An absent value and a unit are left out behind a key. A
//! sequence repeats the key under which it stands for each of its elements,
//! so that it can stand neither at the root of a document nor inside another
//! sequence. Maps and records are objects. A case of an enumeration without
//! fields is the name of the case; a case that wraps one value is written as
//! that value, without the name; a case of several fields is an object whose
//! only key is the name.
//!
//! # Contracts
//!
//! Every function states what it returns over mathematical models: the
//! view of a string is a sequence of characters, that of a [`Value`] a
//! [`value::Node`], that of an [`Error`] a [`Fault`].

pub mod data;
pub mod de;
pub mod error;
pub mod laws;
pub mod ser;
pub mod text;
pub mod value;

pub use data::{Data, Float};
pub use de::{
    from_document, from_str, from_str_with, kv_from_document, kv_from_str, kv_from_str_expecting,
    kv_from_str_with, parse,
};
pub use error::{Error, Expected, Fault, Position, Reason};
pub use ser::{
    document_to_string, document_to_string_pretty, kv_to_document, kv_to_string,
    kv_to_string_pretty, to_document, to_string, to_string_pretty,
};
pub use value::{KeyValues, Object, Value};
