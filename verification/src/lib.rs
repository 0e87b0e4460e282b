//! Request handling of a small HTTP framework: spans into the raw request
//! bytes, header lookup, form and query decoding, and the extras (cookies,
//! preferred compression) that a request carries.

pub mod text;
pub mod span;
pub mod str_map;
pub mod addr;
pub mod request;
pub mod form;
pub mod cookies;
pub mod compression;
pub mod laws;

pub use request::Request;
pub use span::Span;
pub use compression::Compression;
