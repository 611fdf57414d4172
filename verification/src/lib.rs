//! A bridge between generic JSON values and a typed value model with one
//! canonical shape per logical value.
//!
//! The generic side is `serde_json`'s value type. The typed side is [`Value`]:
//! numbers are split into three disjoint forms and the entries of an object
//! are kept in increasing key order, so that two documents with the same
//! content always give the same typed value.
//!
//! The library does no floating-point work of its own. A float is carried as
//! its IEEE-754 bit pattern, and the JSON numbers for the floats of a typed
//! value are handed in by the caller when it is turned back into JSON.
pub mod json;
pub mod laws;
pub mod model;
pub mod number;
pub mod order;
pub mod sorted;
pub mod value;

pub use number::{Number, N};
pub use value::Value;
