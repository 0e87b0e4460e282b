//! The compression a client accepts, read from its `Accept-Encoding` header
//! with `http` and `fly_accept_encoding`.

use vstd::prelude::*;
use vstd::string::*;
use http::header::{HeaderMap, HeaderValue, ACCEPT_ENCODING};
use fly_accept_encoding::Encoding;

verus! {

/// A compression scheme for response bodies.
#[derive(Debug, Clone, Copy, PartialEq, Eq, Structural)]
pub enum Compression {
    Gzip,
    Deflate,
    Brotli,
    Zstd,
}

/// An encoding a client names in `Accept-Encoding`.
#[derive(Debug, Clone, Copy, PartialEq, Eq, Structural)]
pub enum AcceptedEncoding {
    Gzip,
    Deflate,
    Brotli,
    Zstd,
    Identity,
}

/// The bytes that `http::HeaderValue::from_str` accepts: visible ASCII,
/// space, tab, and bytes from 0x80 on.
pub open spec fn header_value_byte_ok(b: u8) -> bool {
    (b >= 32 && b != 127) || b == 9
}

/// What `fly_accept_encoding::parse` prefers for a header map whose only
/// `Accept-Encoding` header is the given value: `Some(choice)` on success
/// (`None` inside when `*` is preferred or nothing is), `None` on error.
pub uninterp spec fn preferred_encoding(value: Seq<char>) -> Option<Option<AcceptedEncoding>>;

/// `http::HeaderValue::from_str`, `HeaderMap::insert` under
/// `ACCEPT_ENCODING`, then `fly_accept_encoding::parse`. The result is
/// `preferred_encoding` of the value; `None` when `from_str` refuses a byte.
/// How `parse` weighs q-values (floating point) is left unsaid.
#[verifier::external_body]
pub(crate) fn accept_encoding_preference(value: &str) -> (r: Option<Option<AcceptedEncoding>>)
    ensures
        r == preferred_encoding(value@),
        (exists|i: int| 0 <= i < value.spec_bytes().len() && !header_value_byte_ok(value.spec_bytes()[i]))
            ==> r is None,
{
    let mut headers = HeaderMap::new();
    headers.insert(ACCEPT_ENCODING, HeaderValue::from_str(value).ok()?);
    match fly_accept_encoding::parse(&headers).ok()? {
        Some(Encoding::Gzip) => Some(Some(AcceptedEncoding::Gzip)),
        Some(Encoding::Deflate) => Some(Some(AcceptedEncoding::Deflate)),
        Some(Encoding::Brotli) => Some(Some(AcceptedEncoding::Brotli)),
        Some(Encoding::Zstd) => Some(Some(AcceptedEncoding::Zstd)),
        Some(Encoding::Identity) => Some(Some(AcceptedEncoding::Identity)),
        None => Some(None),
    }
}

/// The compression that a preference calls for.
pub open spec fn compression_for(choice: Option<Option<AcceptedEncoding>>) -> Option<Compression> {
    match choice {
        Some(Some(AcceptedEncoding::Gzip)) => Some(Compression::Gzip),
        Some(Some(AcceptedEncoding::Deflate)) => Some(Compression::Deflate),
        Some(Some(AcceptedEncoding::Brotli)) => Some(Compression::Brotli),
        Some(Some(AcceptedEncoding::Zstd)) => Some(Compression::Zstd),
        _ => None,
    }
}

/// The compression that a client's preference calls for: gzip, deflate,
/// brotli or zstd as named; none for identity, for no preference, and when
/// the header could not be read.
pub fn compression_from(choice: Option<Option<AcceptedEncoding>>) -> (r: Option<Compression>)
    ensures
        r == compression_for(choice),
{
    match choice {
        Some(Some(AcceptedEncoding::Gzip)) => Some(Compression::Gzip),
        Some(Some(AcceptedEncoding::Deflate)) => Some(Compression::Deflate),
        Some(Some(AcceptedEncoding::Brotli)) => Some(Compression::Brotli),
        Some(Some(AcceptedEncoding::Zstd)) => Some(Compression::Zstd),
        _ => None,
    }
}

} // verus!
