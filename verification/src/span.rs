//! `Span`: a `(start, end)` pair locating part of a request in its raw bytes.

use vstd::prelude::*;
use vstd::utf8::*;
use vstd::string::*;
use crate::text::{str_from_utf8, lemma_encode_ascii_char};

verus! {

broadcast use {encode_utf8_valid_utf8, encode_utf8_decode_utf8};

/// A `(start, end)` tuple representing the location of some part of
/// a Request in a raw buffer, such as the requested URL's path.
#[derive(Debug, Copy, Clone, PartialEq, Eq, Structural)]
pub struct Span(pub usize, pub usize);

impl Default for Span {
    /// The empty span `(0, 0)`.
    fn default() -> (r: Self)
        ensures
            r == Span(0, 0),
    {
        Span(0, 0)
    }
}

/// The bytes of the text a span designates in `buf`: nothing for an empty
/// span, the covered bytes when they lie in `buf` and form valid UTF-8, and
/// the single byte of `"?"` otherwise.
pub open spec fn span_bytes(span: Span, buf: Seq<u8>) -> Seq<u8> {
    if span.0 == span.1 {
        seq![]
    } else if span.0 <= span.1 && span.1 <= buf.len() && valid_utf8(
        buf.subrange(span.0 as int, span.1 as int),
    ) {
        buf.subrange(span.0 as int, span.1 as int)
    } else {
        seq![63u8]
    }
}

/// The text a span designates in `buf`, as characters.
pub open spec fn span_text(span: Span, buf: Seq<u8>) -> Seq<char> {
    decode_utf8(span_bytes(span, buf))
}

/// `span_bytes` is always valid UTF-8.
pub proof fn lemma_span_bytes_valid(span: Span, buf: Seq<u8>)
    ensures
        valid_utf8(span_bytes(span, buf)),
{
    reveal_with_fuel(valid_utf8, 2);
    if !(span.0 == span.1) && !(span.0 <= span.1 && span.1 <= buf.len() && valid_utf8(
        buf.subrange(span.0 as int, span.1 as int),
    )) {
        let q = seq![63u8];
        assert(pop_first_scalar(q) =~= Seq::<u8>::empty());
    }
}

/// The span that covers bytes appended to a buffer designates exactly them.
pub proof fn lemma_appended_span(buf: Seq<u8>, added: Seq<u8>)
    requires
        valid_utf8(added),
        buf.len() + added.len() <= usize::MAX,
    ensures
        span_bytes(Span(buf.len() as usize, (buf.len() + added.len()) as usize), buf + added) == added,
{
    let all = buf + added;
    assert(all.subrange(buf.len() as int, buf.len() + added.len() as int) =~= added);
    if added.len() == 0 {
        assert(added =~= Seq::<u8>::empty());
    }
}

impl Span {
    /// Create a new, empty Span.
    pub fn new() -> (r: Self)
        ensures
            r == Span(0, 0),
    {
        Self::default()
    }

    /// Is this span empty?
    pub fn is_empty(&self) -> (r: bool)
        ensures
            r == (self.0 == self.1),
    {
        self.0 == self.1
    }

    /// Find and return the str this span represents from the given
    /// buffer, which should be the raw HTTP request.
    pub fn from_buf<'buf>(&self, buf: &'buf [u8]) -> (r: &'buf str)
        ensures
            r.spec_bytes() == span_bytes(*self, buf@),
            r@ == span_text(*self, buf@),
    {
        proof {
            lemma_span_bytes_valid(*self, buf@);
        }
        if self.is_empty() {
            let e = "";
            proof {
                reveal_strlit("");
            }
            assert(e.spec_bytes() =~= span_bytes(*self, buf@));
            e
        } else if self.1 >= self.0 && self.1 <= buf.len() {
            let sub = vstd::slice::slice_subrange(buf, self.0, self.1);
            match str_from_utf8(sub) {
                Some(s) => s,
                None => question_mark(),
            }
        } else {
            question_mark()
        }
    }
}

/// The string `"?"`, which stands for text that cannot be shown.
pub fn question_mark() -> (r: &'static str)
    ensures
        r.spec_bytes() == seq![63u8],
        r@ == seq!['?'],
{
    let q = "?";
    proof {
        reveal_strlit("?");
        assert(q@ =~= seq!['?']);
        lemma_encode_ascii_char('?');
    }
    q
}

} // verus!
