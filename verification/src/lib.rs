//! Decoder for a single MySQL result-set row.
//!
//! Given a raw packet payload and the ordered list of column wire-types, the
//! decoder builds a [`Row`]: an owned buffer plus, per column, either the
//! half-open byte range of that column's value or an explicit NULL. Both
//! protocol row shapes are handled: the text protocol (plain queries) and the
//! binary protocol (prepared-statement execution, with a header byte and a
//! null bitmap). Malformed input never panics; it yields a typed error.

pub mod bitmap;
pub mod error;
pub mod lenenc;
pub mod row;
pub mod types;

pub use error::DecodeError;
pub use row::Row;
pub use types::TypeId;
