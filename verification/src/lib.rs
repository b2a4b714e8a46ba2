//! Loads a flat text of key-value pairs into an in-memory mapping.
//!
//! A text is cut into segments at a pair separator, and each segment is cut
//! into a key and a value at the first occurrence of a key-value separator.
//! Both separators are literal strings and can be configured.

pub mod error;
pub mod laws;
pub mod mapping;
pub mod model;
pub mod text;

pub use crate::error::ParseError;
pub use crate::mapping::FileToMap;
