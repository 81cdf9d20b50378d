//! What holds of the codec as a whole, proved from the contracts of its
//! parts.

pub mod conformance;
pub mod encoding;
pub mod failure;
pub mod lowering;
pub mod numbers;
pub mod raising;
pub mod reading;
pub mod rendering;
pub mod round_trip;
pub mod tree;
pub mod typed;
