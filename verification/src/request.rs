//! `Request`: a raw HTTP request with spans into it, and what was decoded
//! from it (URL arguments, form values, cookies).

use vstd::prelude::*;
use vstd::utf8::*;
use vstd::string::*;
use crate::span::{Span, span_bytes, span_text, lemma_span_bytes_valid, lemma_appended_span};
use crate::text::{first_index, find_byte, lemma_first_index, append_bytes, join, lemma_ascii_split,
    lemma_ascii_prefix, bytes_match_at, str_from_utf8, ascii_lowercase, trim_end_chars, unicode_lowercase, str_to_ascii_lowercase, str_to_lowercase, str_trim_end, str_eq};
use crate::str_map::{StrMap, pairs_view};
use crate::addr::SocketAddress;
use crate::form::{parsed_form, form_fold, add_form_entry};
use crate::cookies::{parse_cookie_header, cookies_from_header, first_cookie};
use crate::compression::{Compression, accept_encoding_preference, compression_from, compression_for,
    preferred_encoding};

verus! {

broadcast use {encode_utf8_valid_utf8, encode_utf8_decode_utf8};

/// Contains information about a single request.
pub struct Request {
    /// Remote address.
    remote_addr: SocketAddress,
    /// The raw request.
    buffer: Vec<u8>,
    /// Includes `?query` and starts with `/`.
    path: Span,
    /// HTTP Method
    method: Span,
    /// Sent Headers
    headers: Vec<(Span, Span)>,
    /// Request Body (POST)
    body: Span,
    /// URL arguments.
    args: StrMap,
    /// Form values, percent decoded.
    form: StrMap,
    /// Cookies sent by the client, in the order they were sent.
    cookies: Vec<(String, String)>,
}

/// The bytes of the path without its `?query`: the full path up to its first
/// `?`, or the whole full path when it has none.
pub open spec fn path_bytes(p: Span, buf: Seq<u8>) -> Seq<u8> {
    let fp = span_bytes(p, buf);
    let i = first_index(fp, 63u8);
    if i == -1 {
        fp
    } else {
        span_bytes(Span(p.0, (p.0 + i) as usize), buf)
    }
}

/// The values, with trailing white space trimmed and in the order they were
/// sent, of the headers whose name in ASCII lower case is `lname`.
pub open spec fn matching_header_values(hs: Seq<(Span, Span)>, buf: Seq<u8>, lname: Seq<char>) -> Seq<Seq<char>>
    decreases hs.len(),
{
    if hs.len() == 0 {
        seq![]
    } else {
        let prev = matching_header_values(hs.drop_last(), buf, lname);
        let (n, v) = hs.last();
        if ascii_lowercase(span_text(n, buf)) == lname {
            prev.push(trim_end_chars(span_text(v, buf)))
        } else {
            prev
        }
    }
}

/// The value of the header named `lname` (compared in ASCII lower case):
/// none when no header has that name, else the values of all headers with
/// that name joined by `", "`.
pub open spec fn header_text(hs: Seq<(Span, Span)>, buf: Seq<u8>, lname: Seq<char>) -> Option<Seq<char>> {
    let vs = matching_header_values(hs, buf, lname);
    if vs.len() == 0 {
        None
    } else {
        Some(join(vs, seq![',', ' ']))
    }
}

/// The characters of an optional string slice.
pub open spec fn string_ref_opt_view(o: Option<&str>) -> Option<Seq<char>> {
    match o {
        Some(s) => Some(s@),
        None => None,
    }
}

/// The characters of an optional string.
pub open spec fn string_opt_view(o: Option<String>) -> Option<Seq<char>> {
    match o {
        Some(s) => Some(s@),
        None => None,
    }
}

/// The value of the first `&`-separated piece of `rest` that consists of
/// `name`, `=` and the value.
pub open spec fn query_value_in(rest: Seq<u8>, name: Seq<u8>) -> Option<Seq<u8>>
    decreases rest.len(),
{
    let i = first_index(rest, 38u8);
    let piece = if i == -1 {
        rest
    } else {
        rest.subrange(0, i)
    };
    if piece.len() > name.len() && piece.subrange(0, name.len() as int) == name
        && piece[name.len() as int] == 61u8 {
        Some(piece.subrange(name.len() as int + 1, piece.len() as int))
    } else if i == -1 {
        None
    } else {
        proof {
            lemma_first_index(rest, 38u8);
        }
        query_value_in(rest.subrange(i + 1, rest.len() as int), name)
    }
}

/// The value given for `name` in the query string of a full path: the part
/// after the first `?`, split at `&`.
pub open spec fn query_value(full: Seq<u8>, name: Seq<u8>) -> Option<Seq<u8>> {
    let q = first_index(full, 63u8);
    if q == -1 {
        None
    } else {
        query_value_in(full.subrange(q + 1, full.len() as int), name)
    }
}

/// The bytes before the first `?`, or all of them when there is none.
pub open spec fn before_query(b: Seq<u8>) -> Seq<u8> {
    let i = first_index(b, 63u8);
    if i == -1 {
        b
    } else {
        b.subrange(0, i)
    }
}

/// The path is the full path cut at its first `?`.
pub proof fn lemma_path_bytes(p: Span, buf: Seq<u8>)
    ensures
        path_bytes(p, buf) == before_query(span_bytes(p, buf)),
{
    let fp = span_bytes(p, buf);
    lemma_span_bytes_valid(p, buf);
    lemma_first_index(fp, 63u8);
    let i = first_index(fp, 63u8);
    if i != -1 {
        if i == 0 {
            assert(fp.subrange(0, 0) =~= Seq::<u8>::empty());
        } else {
            lemma_ascii_prefix(fp, i);
            assert(buf.subrange(p.0 as int, p.0 + i) =~= fp.subrange(0, i));
        }
    }
}

impl Request {
    /// The raw request bytes.
    pub closed spec fn raw(&self) -> Seq<u8> {
        self.buffer@
    }

    /// Where the full path lies in the raw bytes.
    pub closed spec fn path_span(&self) -> Span {
        self.path
    }

    /// Where the method lies in the raw bytes.
    pub closed spec fn method_span(&self) -> Span {
        self.method
    }

    /// Where the body lies in the raw bytes.
    pub closed spec fn body_span(&self) -> Span {
        self.body
    }

    /// Where each header's name and value lie in the raw bytes.
    pub closed spec fn header_spans(&self) -> Seq<(Span, Span)> {
        self.headers@
    }

    /// The URL arguments.
    pub closed spec fn args_map(&self) -> Map<Seq<char>, Seq<char>> {
        self.args@
    }

    /// The form values.
    pub closed spec fn form_map(&self) -> Map<Seq<char>, Seq<char>> {
        self.form@
    }

    /// The cookies, as (name, value) pairs in the order they were sent.
    pub closed spec fn cookie_pairs(&self) -> Seq<(Seq<char>, Seq<char>)> {
        pairs_view(self.cookies@)
    }

    /// The remote address.
    pub closed spec fn remote(&self) -> SocketAddress {
        self.remote_addr
    }

    /// Headers, arguments, form values, cookies and remote address agree.
    pub open spec fn same_extras(&self, other: &Request) -> bool {
        &&& self.header_spans() == other.header_spans()
        &&& self.args_map() == other.args_map()
        &&& self.form_map() == other.form_map()
        &&& self.cookie_pairs() == other.cookie_pairs()
        &&& self.remote() == other.remote()
    }

    /// Create a new Request from a raw one. You probably want
    /// `default()` to get an empty `Request`.
    pub fn new(
        method: Span,
        path: Span,
        headers: Vec<(Span, Span)>,
        body: Span,
        buffer: Vec<u8>,
    ) -> (r: Self)
        ensures
            r.method_span() == method,
            r.path_span() == path,
            r.header_spans() == headers@,
            r.body_span() == body,
            r.raw() == buffer@,
            r.args_map() == Map::<Seq<char>, Seq<char>>::empty(),
            r.form_map() == Map::<Seq<char>, Seq<char>>::empty(),
            r.cookie_pairs() == Seq::<(Seq<char>, Seq<char>)>::empty(),
            r.remote() == (SocketAddress::V4 { octets: [127u8, 0u8, 0u8, 1u8], port: 0u16 }),
    {
        let r = Request {
            remote_addr: SocketAddress::localhost(),
            buffer,
            path,
            method,
            headers,
            body,
            args: StrMap::new(),
            form: StrMap::new(),
            cookies: Vec::new(),
        };
        assert(r.cookie_pairs() =~= Seq::<(Seq<char>, Seq<char>)>::empty());
        r
    }

    /// Produce an empty Request.
    pub fn default() -> (r: Self)
        ensures
            r.method_span() == Span(0, 0),
            r.path_span() == Span(0, 0),
            r.header_spans() == Seq::<(Span, Span)>::empty(),
            r.body_span() == Span(0, 0),
            r.raw() == Seq::<u8>::empty(),
            r.args_map() == Map::<Seq<char>, Seq<char>>::empty(),
            r.form_map() == Map::<Seq<char>, Seq<char>>::empty(),
            r.cookie_pairs() == Seq::<(Seq<char>, Seq<char>)>::empty(),
            r.remote() == (SocketAddress::V4 { octets: [127u8, 0u8, 0u8, 1u8], port: 0u16 }),
    {
        Self::new(Span::new(), Span::new(), Vec::new(), Span::new(), Vec::new())
    }

    /// Sets the remote address of the request.
    pub fn set_remote_addr(&mut self, socket_addr: SocketAddress)
        ensures
            final(self).remote() == socket_addr,
            final(self).raw() == old(self).raw(),
            final(self).path_span() == old(self).path_span(),
            final(self).method_span() == old(self).method_span(),
            final(self).body_span() == old(self).body_span(),
            final(self).header_spans() == old(self).header_spans(),
            final(self).args_map() == old(self).args_map(),
            final(self).form_map() == old(self).form_map(),
            final(self).cookie_pairs() == old(self).cookie_pairs(),
    {
        self.remote_addr = socket_addr;
    }

    /// Remote address of the request.
    pub fn remote_addr(&self) -> (r: &SocketAddress)
        ensures
            *r == self.remote(),
    {
        &self.remote_addr
    }

    /// Path requested, starting with `/` and not including `?query`.
    pub fn path(&self) -> (r: &str)
        ensures
            r.spec_bytes() == path_bytes(self.path_span(), self.raw()),
            r@ == decode_utf8(path_bytes(self.path_span(), self.raw())),
    {
        let fp = self.full_path();
        let b = fp.as_bytes();
        proof {
            assert(b@.subrange(0, b@.len() as int) =~= b@);
            lemma_first_index(b@, 63u8);
        }
        match find_byte(b, 0, 63u8) {
            Some(i) => {
                proof {
                    reveal_with_fuel(first_index, 2);
                }
                let end = self.path.0 + i;
                Span(self.path.0, end).from_buf(&self.buffer)
            },
            None => fp,
        }
    }

    /// Full path requested, starting with `/` and including `?query`.
    pub fn full_path(&self) -> (r: &str)
        ensures
            r.spec_bytes() == span_bytes(self.path_span(), self.raw()),
            r@ == span_text(self.path_span(), self.raw()),
    {
        self.path.from_buf(&self.buffer)
    }

    /// Raw body of HTTP request. If you are using methods like
    /// `with_path` or `set_arg` this will not accurately represent
    /// the raw HTTP request that was made.
    pub fn body(&self) -> (r: &str)
        ensures
            r.spec_bytes() == span_bytes(self.body_span(), self.raw()),
            r@ == span_text(self.body_span(), self.raw()),
    {
        self.body.from_buf(&self.buffer)
    }

    /// HTTP Method
    pub fn method(&self) -> (r: &str)
        ensures
            r.spec_bytes() == span_bytes(self.method_span(), self.raw()),
            r@ == span_text(self.method_span(), self.raw()),
    {
        self.method.from_buf(&self.buffer)
    }

    /// Appends the bytes of `s` to the raw request and returns the span
    /// that covers them.
    fn append_text(&mut self, s: &str) -> (r: Span)
        requires
            old(self).raw().len() + s.spec_bytes().len() <= usize::MAX,
        ensures
            r == Span(old(self).raw().len() as usize, (old(self).raw().len() + s.spec_bytes().len()) as usize),
            final(self).raw() == old(self).raw() + s.spec_bytes(),
            final(self).path_span() == old(self).path_span(),
            final(self).method_span() == old(self).method_span(),
            final(self).body_span() == old(self).body_span(),
            final(self).same_extras(old(self)),
    {
        let start = self.buffer.len();
        let b = s.as_bytes();
        let end = start + b.len();
        append_bytes(&mut self.buffer, b);
        Span(start, end)
    }

    /// Give a request an arbitrary `path`. Can be used in tests or
    /// with `filter`.
    pub fn set_path(&mut self, path: &str)
        requires
            old(self).raw().len() + path.spec_bytes().len() <= usize::MAX,
        ensures
            span_text(final(self).path_span(), final(self).raw()) == path@,
            path_bytes(final(self).path_span(), final(self).raw()) == before_query(path.spec_bytes()),
            final(self).path_span() == Span(old(self).raw().len() as usize, (old(self).raw().len() + path.spec_bytes().len()) as usize),
            final(self).raw() == old(self).raw() + path.spec_bytes(),
            final(self).method_span() == old(self).method_span(),
            final(self).body_span() == old(self).body_span(),
            final(self).same_extras(old(self)),
    {
        let sp = self.append_text(path);
        self.path = sp;
        proof {
            lemma_appended_span(old(self).raw(), path.spec_bytes());
            lemma_path_bytes(sp, self.raw());
        }
    }

    /// Give a request an arbitrary `path`. Can be used in tests or
    /// with `filter`.
    pub fn with_path(self, path: &str) -> (r: Self)
        requires
            self.raw().len() + path.spec_bytes().len() <= usize::MAX,
        ensures
            span_text(r.path_span(), r.raw()) == path@,
            path_bytes(r.path_span(), r.raw()) == before_query(path.spec_bytes()),
            r.path_span() == Span(self.raw().len() as usize, (self.raw().len() + path.spec_bytes().len()) as usize),
            r.raw() == self.raw() + path.spec_bytes(),
            r.method_span() == self.method_span(),
            r.body_span() == self.body_span(),
            r.same_extras(&self),
    {
        let mut r = self;
        r.set_path(path);
        r
    }

    /// Create a request from an arbitrary path. Used in testing.
    pub fn from_path(path: &str) -> (r: Self)
        ensures
            span_text(r.path_span(), r.raw()) == path@,
            path_bytes(r.path_span(), r.raw()) == before_query(path.spec_bytes()),
            r.path_span() == Span(0, path.spec_bytes().len() as usize),
            r.raw() == path.spec_bytes(),
            r.method_span() == Span(0, 0),
            r.body_span() == Span(0, 0),
            r.header_spans() == Seq::<(Span, Span)>::empty(),
            r.args_map() == Map::<Seq<char>, Seq<char>>::empty(),
            r.form_map() == Map::<Seq<char>, Seq<char>>::empty(),
            r.cookie_pairs() == Seq::<(Seq<char>, Seq<char>)>::empty(),
            r.remote() == (SocketAddress::V4 { octets: [127u8, 0u8, 0u8, 1u8], port: 0u16 }),
    {
        let n = path.as_bytes().len();
        assert(path.spec_bytes().len() == n);
        let r = Self::default().with_path(path);
        assert(r.raw() =~= path.spec_bytes());
        r
    }

    /// Give this Request an arbitrary body from a string.
    pub fn set_body(&mut self, body: &str)
        requires
            old(self).raw().len() + body.spec_bytes().len() <= usize::MAX,
        ensures
            span_text(final(self).body_span(), final(self).raw()) == body@,
            final(self).body_span() == Span(old(self).raw().len() as usize, (old(self).raw().len() + body.spec_bytes().len()) as usize),
            final(self).raw() == old(self).raw() + body.spec_bytes(),
            final(self).path_span() == old(self).path_span(),
            final(self).method_span() == old(self).method_span(),
            final(self).same_extras(old(self)),
    {
        let sp = self.append_text(body);
        self.body = sp;
        proof {
            lemma_appended_span(old(self).raw(), body.spec_bytes());
        }
    }

    /// Give this Request an arbitrary body from a string and return
    /// the new Request.
    pub fn with_body(self, body: &str) -> (r: Self)
        requires
            self.raw().len() + body.spec_bytes().len() <= usize::MAX,
        ensures
            span_text(r.body_span(), r.raw()) == body@,
            r.body_span() == Span(self.raw().len() as usize, (self.raw().len() + body.spec_bytes().len()) as usize),
            r.raw() == self.raw() + body.spec_bytes(),
            r.path_span() == self.path_span(),
            r.method_span() == self.method_span(),
            r.same_extras(&self),
    {
        let mut r = self;
        r.set_body(body);
        r
    }

    /// Give this Request a new HTTP Method.
    pub fn set_method(&mut self, method: &str)
        requires
            old(self).raw().len() + method.spec_bytes().len() <= usize::MAX,
        ensures
            span_text(final(self).method_span(), final(self).raw()) == method@,
            final(self).method_span() == Span(old(self).raw().len() as usize, (old(self).raw().len() + method.spec_bytes().len()) as usize),
            final(self).raw() == old(self).raw() + method.spec_bytes(),
            final(self).path_span() == old(self).path_span(),
            final(self).body_span() == old(self).body_span(),
            final(self).same_extras(old(self)),
    {
        let sp = self.append_text(method);
        self.method = sp;
        proof {
            lemma_appended_span(old(self).raw(), method.spec_bytes());
        }
    }

    /// Give this Request a new HTTP Method and return the new Request.
    pub fn with_method(self, method: &str) -> (r: Self)
        requires
            self.raw().len() + method.spec_bytes().len() <= usize::MAX,
        ensures
            span_text(r.method_span(), r.raw()) == method@,
            r.method_span() == Span(self.raw().len() as usize, (self.raw().len() + method.spec_bytes().len()) as usize),
            r.raw() == self.raw() + method.spec_bytes(),
            r.path_span() == self.path_span(),
            r.body_span() == self.body_span(),
            r.same_extras(&self),
    {
        let mut r = self;
        r.set_method(method);
        r
    }

    /// In a route defined like `"/names/:name"`, calling
    /// `request.arg("name")` will return `Some("peter")` when the request is
    /// `/names/peter`.
    pub fn arg(&self, name: &str) -> (r: Option<&str>)
        ensures
            r is Some <==> self.args_map().contains_key(name@),
            r matches Some(v) ==> v@ == self.args_map()[name@],
    {
        self.args.get(name)
    }

    /// Replace or set a new value for an arbitrary URL argument from
    /// a `filter` or in a test.
    pub fn set_arg(&mut self, name: String, value: String)
        ensures
            final(self).args_map() == old(self).args_map().insert(name@, value@),
            final(self).raw() == old(self).raw(),
            final(self).path_span() == old(self).path_span(),
            final(self).method_span() == old(self).method_span(),
            final(self).body_span() == old(self).body_span(),
            final(self).header_spans() == old(self).header_spans(),
            final(self).form_map() == old(self).form_map(),
            final(self).cookie_pairs() == old(self).cookie_pairs(),
            final(self).remote() == old(self).remote(),
    {
        self.args.insert(name, value);
    }

    /// Was the given form value sent?
    pub fn has_form(&mut self, name: &str) -> (r: bool)
        ensures
            r == old(self).form_map().contains_key(name@),
            *final(self) == *old(self),
    {
        self.form(name).is_some()
    }

    /// Return a value from the `POSTed` form data.
    pub fn form(&self, name: &str) -> (r: Option<&str>)
        ensures
            r is Some <==> self.form_map().contains_key(name@),
            r matches Some(v) ==> v@ == self.form_map()[name@],
    {
        self.form.get(name)
    }

    /// Replace or set a new value for an arbitrary form value from
    /// a `filter` or in a test.
    pub fn set_form(&mut self, name: &str, value: &str)
        ensures
            final(self).form_map() == old(self).form_map().insert(name@, value@),
            final(self).raw() == old(self).raw(),
            final(self).path_span() == old(self).path_span(),
            final(self).method_span() == old(self).method_span(),
            final(self).body_span() == old(self).body_span(),
            final(self).header_spans() == old(self).header_spans(),
            final(self).args_map() == old(self).args_map(),
            final(self).cookie_pairs() == old(self).cookie_pairs(),
            final(self).remote() == old(self).remote(),
    {
        self.form.insert(name.to_owned(), value.to_owned());
    }

    /// The value of the header whose name is `lname` when ASCII letters are
    /// taken in lower case; `lname` is compared as it is given.
    pub open spec fn header_of(&self, lname: Seq<char>) -> Option<Seq<char>> {
        header_text(self.header_spans(), self.raw(), lname)
    }

    /// Get a header value by a name already in lower case: the values of all
    /// headers whose name in ASCII lower case equals `lname`, trimmed at the
    /// end and joined with `", "`.
    pub fn header_lowercase(&self, lname: &str) -> (r: Option<String>)
        ensures
            string_opt_view(r) == self.header_of(lname@),
    {
        let sep = ", ";
        proof {
            reveal_strlit(", ");
            assert(sep@ =~= seq![',', ' ']);
        }
        let ghost hs = self.headers@;
        let ghost buf = self.buffer@;
        let mut out = String::new();
        let mut count: usize = 0;
        let mut i: usize = 0;
        while i < self.headers.len()
            invariant
                hs == self.headers@,
                buf == self.buffer@,
                sep@ == seq![',', ' '],
                0 <= i <= hs.len(),
                count <= i,
                count == matching_header_values(hs.subrange(0, i as int), buf, lname@).len(),
                out@ == join(matching_header_values(hs.subrange(0, i as int), buf, lname@), seq![',', ' ']),
            decreases hs.len() - i,
        {
            let ghost prev = matching_header_values(hs.subrange(0, i as int), buf, lname@);
            let ghost next = hs.subrange(0, i + 1);
            assert(next.drop_last() =~= hs.subrange(0, i as int));
            assert(next.last() == hs[i as int]);
            let (n, v) = self.headers[i];
            let nl = str_to_ascii_lowercase(n.from_buf(&self.buffer));
            if str_eq(nl.as_str(), lname) {
                let vt = str_trim_end(v.from_buf(&self.buffer));
                if count > 0 {
                    out.append(sep);
                }
                out.append(vt);
                count = count + 1;
                proof {
                    let vs = prev.push(vt@);
                    assert(vs.drop_last() =~= prev);
                    if prev.len() == 0 {
                        assert(out@ =~= vt@);
                    }
                    assert(out@ =~= join(vs, seq![',', ' ']));
                }
            }
            i = i + 1;
        }
        assert(hs.subrange(0, i as int) =~= hs);
        if count == 0 {
            None
        } else {
            Some(out)
        }
    }

    /// Get a header value. `name` is case insensitive.
    pub fn header(&self, name: &str) -> (r: Option<String>)
        ensures
            string_opt_view(r) == self.header_of(unicode_lowercase(name@)),
            is_ascii_chars(name@) ==> string_opt_view(r) == self.header_of(ascii_lowercase(name@)),
    {
        let lname = str_to_lowercase(name);
        self.header_lowercase(lname.as_str())
    }

    /// Return the user-agent header
    pub fn user_agent(&self) -> (r: Option<String>)
        ensures
            string_opt_view(r) == self.header_of("user-agent"@),
    {
        proof {
            reveal_strlit("User-Agent");
            reveal_strlit("user-agent");
            assert(is_ascii_chars("User-Agent"@));
            assert(ascii_lowercase("User-Agent"@) =~= "user-agent"@);
        }
        self.header("User-Agent")
    }

    /// Return the Do Not Track header
    pub fn do_not_track(&self) -> (r: bool)
        ensures
            r == (self.header_of("dnt"@) == Some(seq!['1'])),
    {
        let one = "1";
        proof {
            reveal_strlit("1");
            assert(one@ =~= seq!['1']);
        }
        proof {
            reveal_strlit("DNT");
            reveal_strlit("dnt");
            assert(is_ascii_chars("DNT"@));
            assert(ascii_lowercase("DNT"@) =~= "dnt"@);
        }
        match self.header("DNT") {
            Some(dnt) => str_eq(dnt.as_str(), one),
            None => false,
        }
    }

    /// Return the Accept-Language, if exists
    pub fn accept_language(&self) -> (r: Option<String>)
        ensures
            string_opt_view(r) == self.header_of("accept-language"@),
    {
        proof {
            reveal_strlit("Accept-Language");
            reveal_strlit("accept-language");
            assert(is_ascii_chars("Accept-Language"@));
            assert(ascii_lowercase("Accept-Language"@) =~= "accept-language"@);
        }
        self.header("Accept-Language")
    }

    /// Return the content-type, if exists
    pub fn content_type(&self) -> (r: Option<String>)
        ensures
            string_opt_view(r) == self.header_of("content-type"@),
    {
        proof {
            reveal_strlit("Content-Type");
            reveal_strlit("content-type");
            assert(is_ascii_chars("Content-Type"@));
            assert(ascii_lowercase("Content-Type"@) =~= "content-type"@);
        }
        self.header("Content-Type")
    }

    /// Parse and decode form POST data into a Hash. Should be called
    /// when this Request is created.
    pub fn parse_form(&mut self)
        ensures
            final(self).form_map() == parsed_form(span_bytes(old(self).body_span(), old(self).raw())),
            final(self).raw() == old(self).raw(),
            final(self).path_span() == old(self).path_span(),
            final(self).method_span() == old(self).method_span(),
            final(self).body_span() == old(self).body_span(),
            final(self).header_spans() == old(self).header_spans(),
            final(self).args_map() == old(self).args_map(),
            final(self).cookie_pairs() == old(self).cookie_pairs(),
            final(self).remote() == old(self).remote(),
    {
        let mut map = StrMap::new();
        {
            let body = self.body();
            let b = body.as_bytes();
            let n = b.len();
            let ghost all = b@;
            let mut pos: usize = 0;
            assert(b@.subrange(0, n as int) =~= b@);
            loop
                invariant_except_break
                    all == b@,
                    n == b@.len(),
                    pos <= n,
                    valid_utf8(b@.subrange(pos as int, n as int)),
                    form_fold(map@, b@.subrange(pos as int, n as int)) == parsed_form(all),
                ensures
                    map@ == parsed_form(all),
                decreases n - pos,
            {
                let ghost rest = b@.subrange(pos as int, n as int);
                proof {
                    lemma_first_index(rest, 38u8);
                }
                match find_byte(b, pos, 38u8) {
                    Some(i) => {
                        proof {
                            lemma_ascii_split(rest, i as int);
                            assert(rest.subrange(0, i as int) =~= b@.subrange(pos as int, pos + i));
                            assert(rest.subrange(i + 1, rest.len() as int) =~= b@.subrange(pos + i + 1, n as int));
                        }
                        let piece = vstd::slice::slice_subrange(b, pos, pos + i);
                        add_form_entry(&mut map, piece);
                        pos = pos + i + 1;
                    },
                    None => {
                        let piece = vstd::slice::slice_subrange(b, pos, n);
                        add_form_entry(&mut map, piece);
                        break;
                    },
                }
            }
        }
        self.form = map;
    }

    /// The query value for `name` in this request's full path.
    pub open spec fn query_of(&self, name: Seq<u8>) -> Option<Seq<u8>> {
        query_value(span_bytes(self.path_span(), self.raw()), name)
    }

    /// Was the given query value sent?
    pub fn has_query(&self, name: &str) -> (r: bool)
        ensures
            r == self.query_of(name.spec_bytes()) is Some,
    {
        self.query(name).is_some()
    }

    /// Return a value from the ?querystring=
    pub fn query(&self, name: &str) -> (r: Option<&str>)
        ensures
            match r {
                Some(v) => self.query_of(name.spec_bytes()) == Some(v.spec_bytes()),
                None => self.query_of(name.spec_bytes()) is None,
            },
    {
        let fp = self.full_path();
        let b = fp.as_bytes();
        let n = b.len();
        let nb = name.as_bytes();
        let nl = nb.len();
        let ghost full = b@;
        proof {
            assert(b@.subrange(0, n as int) =~= b@);
            lemma_first_index(b@, 63u8);
        }
        let q = match find_byte(b, 0, 63u8) {
            Some(q) => q,
            None => {
                return None;
            },
        };
        proof {
            lemma_ascii_split(b@, q as int);
        }
        let mut pos = q + 1;
        loop
            invariant
                full == b@,
                n == b@.len(),
                nl == nb@.len(),
                nb@ == name.spec_bytes(),
                full == span_bytes(self.path_span(), self.raw()),
                pos <= n,
                valid_utf8(b@.subrange(pos as int, n as int)),
                query_value_in(b@.subrange(pos as int, n as int), nb@) == query_value(full, nb@),
            decreases n - pos,
        {
            let ghost rest = b@.subrange(pos as int, n as int);
            proof {
                lemma_first_index(rest, 38u8);
            }
            let found = find_byte(b, pos, 38u8);
            let end = match found {
                Some(i) => pos + i,
                None => n,
            };
            let ghost piece = b@.subrange(pos as int, end as int);
            proof {
                match found {
                    Some(i) => {
                        lemma_ascii_split(rest, i as int);
                        assert(rest.subrange(0, i as int) =~= piece);
                        assert(rest.subrange(i + 1, rest.len() as int) =~= b@.subrange(end + 1, n as int));
                    },
                    None => {
                        assert(rest =~= piece);
                    },
                }
            }
            if end - pos > nl && bytes_match_at(b, pos, nb) && b[pos + nl] == 61u8 {
                proof {
                    assert(piece.subrange(0, nl as int) =~= b@.subrange(pos as int, pos + nl));
                    assert(piece[nl as int] == b@[pos + nl]);
                    lemma_ascii_split(piece, nl as int);
                    assert(piece.subrange(nl + 1, piece.len() as int) =~= b@.subrange(pos + nl + 1, end as int));
                }
                let v = vstd::slice::slice_subrange(b, pos + nl + 1, end);
                return str_from_utf8(v);
            }
            proof {
                if end - pos > nl {
                    assert(piece.subrange(0, nl as int) =~= b@.subrange(pos as int, pos + nl));
                    assert(piece[nl as int] == b@[pos + nl]);
                }
            }
            if found.is_none() {
                return None;
            }
            pos = end + 1;
        }
    }

    /// Records the cookies that parsing a `Cookie` header gave, after those
    /// already recorded; nothing when the parser refused the header.
    pub fn add_parsed_cookies(&mut self, parsed: Option<Vec<(String, String)>>)
        ensures
            final(self).cookie_pairs() == old(self).cookie_pairs() + match parsed {
                Some(v) => pairs_view(v@),
                None => Seq::<(Seq<char>, Seq<char>)>::empty(),
            },
            final(self).raw() == old(self).raw(),
            final(self).path_span() == old(self).path_span(),
            final(self).method_span() == old(self).method_span(),
            final(self).body_span() == old(self).body_span(),
            final(self).header_spans() == old(self).header_spans(),
            final(self).args_map() == old(self).args_map(),
            final(self).form_map() == old(self).form_map(),
            final(self).remote() == old(self).remote(),
    {
        let ghost before = self.cookies@;
        match parsed {
            Some(v) => {
                let mut v = v;
                let ghost added = v@;
                self.cookies.append(&mut v);
                assert(pairs_view(self.cookies@) =~= pairs_view(before) + pairs_view(added));
            },
            None => {
                assert(pairs_view(self.cookies@) =~= pairs_view(before) + Seq::<(Seq<char>, Seq<char>)>::empty());
            },
        }
    }

    /// Completes a request that the HTTP parser produced: when a
    /// `Content-Length` header was sent the form is decoded from the body,
    /// and the cookies of the `Cookie` header are recorded.
    pub fn from_parsed(req: Request) -> (r: Request)
        ensures
            r.form_map() == if req.header_of("content-length"@) is Some {
                parsed_form(span_bytes(req.body_span(), req.raw()))
            } else {
                req.form_map()
            },
            r.cookie_pairs() == req.cookie_pairs() + cookies_from_header(
                req.header_of("cookie"@),
            ),
            r.raw() == req.raw(),
            r.path_span() == req.path_span(),
            r.method_span() == req.method_span(),
            r.body_span() == req.body_span(),
            r.header_spans() == req.header_spans(),
            r.args_map() == req.args_map(),
            r.remote() == req.remote(),
    {
        let mut req = req;
        proof {
            reveal_strlit("Content-Length");
            reveal_strlit("content-length");
            assert(is_ascii_chars("Content-Length"@));
            assert(ascii_lowercase("Content-Length"@) =~= "content-length"@);
        }
        if req.header("Content-Length").is_some() {
            req.parse_form();
        }
        proof {
            reveal_strlit("Cookie");
            reveal_strlit("cookie");
            assert(is_ascii_chars("Cookie"@));
            assert(ascii_lowercase("Cookie"@) =~= "cookie"@);
        }
        match req.header("Cookie") {
            Some(cookie) => {
                let parsed = parse_cookie_header(cookie.as_str());
                req.add_parsed_cookies(parsed);
            },
            None => {
                assert(req.cookie_pairs() =~= req.cookie_pairs() + Seq::<(Seq<char>, Seq<char>)>::empty());
            },
        }
        req
    }

    /// Get the value of a cookie sent by the client.
    pub fn cookie(&self, name: &str) -> (r: Option<&str>)
        ensures
            string_ref_opt_view(r) == first_cookie(self.cookie_pairs(), name@),
    {
        let ghost cs = self.cookie_pairs();
        assert(cs.subrange(0, cs.len() as int) =~= cs);
        let mut i: usize = 0;
        while i < self.cookies.len()
            invariant
                cs == pairs_view(self.cookies@),
                0 <= i <= self.cookies@.len(),
                first_cookie(cs, name@) == first_cookie(cs.subrange(i as int, cs.len() as int), name@),
            decreases self.cookies@.len() - i,
        {
            assert(cs.subrange(i as int, cs.len() as int).drop_first() =~= cs.subrange(i + 1, cs.len() as int));
            if str_eq(self.cookies[i].0.as_str(), name) {
                return Some(self.cookies[i].1.as_str());
            }
            i = i + 1;
        }
        None
    }

    /// Return the compression type from the accept-encoding header.
    pub fn compression(&self) -> (r: Option<Compression>)
        ensures
            r == match self.header_of("accept-encoding"@) {
                Some(v) => compression_for(preferred_encoding(v)),
                None => None,
            },
    {
        proof {
            reveal_strlit("Accept-Encoding");
            reveal_strlit("accept-encoding");
            assert(is_ascii_chars("Accept-Encoding"@));
            assert(ascii_lowercase("Accept-Encoding"@) =~= "accept-encoding"@);
        }
        match self.header("Accept-Encoding") {
            Some(v) => compression_from(accept_encoding_preference(v.as_str())),
            None => None,
        }
    }

    /// The text of each header's name and value, in the order they were sent.
    pub fn header_texts(&self) -> (r: Vec<(&str, &str)>)
        ensures
            r@.len() == self.header_spans().len(),
            forall|i: int| 0 <= i < r@.len() ==> {
                &&& (#[trigger] r@[i]).0@ == span_text(self.header_spans()[i].0, self.raw())
                &&& r@[i].1@ == span_text(self.header_spans()[i].1, self.raw())
            },
    {
        let mut out: Vec<(&str, &str)> = Vec::new();
        let mut i: usize = 0;
        while i < self.headers.len()
            invariant
                0 <= i <= self.headers@.len(),
                out@.len() == i,
                forall|j: int| 0 <= j < i ==> {
                    &&& (#[trigger] out@[j]).0@ == span_text(self.headers@[j].0, self.buffer@)
                    &&& out@[j].1@ == span_text(self.headers@[j].1, self.buffer@)
                },
            decreases self.headers@.len() - i,
        {
            let (n, v) = self.headers[i];
            out.push((n.from_buf(&self.buffer), v.from_buf(&self.buffer)));
            i = i + 1;
        }
        out
    }

    /// For testing. You should use `header()` to get a specific header
    /// from this Request.
    pub fn headers(&self) -> (r: &Vec<(Span, Span)>)
        ensures
            r@ == self.header_spans(),
    {
        &self.headers
    }
}

} // verus!
