//! A small library for querying JSON documents: normalize a document into a
//! sequence of elements, select (possibly nested) fields by dot-separated
//! paths, and paginate the result with skip and limit.

pub mod error;
pub mod laws;
pub mod pagination;
pub mod select;
pub mod text;
pub mod value;

pub use error::NaviError;
pub use value::JsonData;
pub use value::JsonNumber;
pub use value::JsonValue;
