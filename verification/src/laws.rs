//! Properties of the request model that span several operations.

use vstd::prelude::*;
use vstd::utf8::*;
use crate::span::{Span, span_bytes, span_text};
use crate::text::{first_index, lemma_first_index, ascii_lowercase, ascii_uppercase, lemma_first_index_none,
    lemma_ascii_lowercase_of_case_forms};
use crate::request::{Request, path_bytes, before_query, lemma_path_bytes, query_value, query_value_in,
    header_text, matching_header_values};
use crate::form::{form_value, clean_form_bytes, percent_decode_bytes, is_hex_digit, hex_value};
use crate::text::{trim_end_chars, is_white_space, lemma_first_index_at};
use crate::cookies::first_cookie;

verus! {

/// An empty span designates the empty string in every buffer.
pub proof fn law_empty_span_is_empty_text(at: usize, buf: Seq<u8>)
    ensures
        span_text(Span(at, at), buf) == Seq::<char>::empty(),
{
    assert(decode_utf8(Seq::<u8>::empty()) =~= Seq::<char>::empty());
}

/// The path is the full path cut before its first `?`, and holds no `?`.
pub proof fn law_path_is_full_path_before_query(p: Span, buf: Seq<u8>)
    ensures
        path_bytes(p, buf) == before_query(span_bytes(p, buf)),
        first_index(path_bytes(p, buf), 63u8) == -1,
{
    lemma_path_bytes(p, buf);
    let fp = span_bytes(p, buf);
    lemma_first_index(fp, 63u8);
    let i = first_index(fp, 63u8);
    if i != -1 {
        lemma_first_index_none(fp.subrange(0, i), 63u8);
    }
}

/// Setting a path, body or method appends to the raw bytes; the text of
/// every span that was empty, reversed or inside the old bytes stays as it
/// was.
pub proof fn law_append_keeps_span_text(span: Span, buf: Seq<u8>, added: Seq<u8>)
    requires
        span.0 >= span.1 || span.1 <= buf.len(),
    ensures
        span_text(span, buf + added) == span_text(span, buf),
{
    if span.0 < span.1 {
        assert((buf + added).subrange(span.0 as int, span.1 as int) =~= buf.subrange(span.0 as int, span.1 as int));
    }
}

/// A query value never reaches past the `&` that ends its piece.
pub proof fn law_query_value_has_no_ampersand(full: Seq<u8>, name: Seq<u8>)
    ensures
        query_value(full, name) matches Some(v) ==> first_index(v, 38u8) == -1,
{
    let q = first_index(full, 63u8);
    if q != -1 {
        lemma_first_index(full, 63u8);
        lemma_query_in_no_ampersand(full.subrange(q + 1, full.len() as int), name);
    }
}

proof fn lemma_query_in_no_ampersand(rest: Seq<u8>, name: Seq<u8>)
    ensures
        query_value_in(rest, name) matches Some(v) ==> first_index(v, 38u8) == -1,
    decreases rest.len(),
{
    lemma_first_index(rest, 38u8);
    let i = first_index(rest, 38u8);
    let piece = if i == -1 {
        rest
    } else {
        rest.subrange(0, i)
    };
    if piece.len() > name.len() && piece.subrange(0, name.len() as int) == name
        && piece[name.len() as int] == 61u8 {
        let v = piece.subrange(name.len() as int + 1, piece.len() as int);
        assert forall|j: int| 0 <= j < v.len() implies v[j] != 38u8 by {
            assert(v[j] == rest[name.len() + 1 + j]);
        }
        lemma_first_index_none(v, 38u8);
    } else if i != -1 {
        lemma_query_in_no_ampersand(rest.subrange(i + 1, rest.len() as int), name);
    }
}

/// A form value with no `+`, `%`, CR or LF decodes to itself.
pub proof fn law_plain_form_value_is_unchanged(s: Seq<u8>)
    requires
        valid_utf8(s),
        forall|j: int| 0 <= j < s.len() ==> s[j] != 43u8 && s[j] != 37u8 && s[j] != 13u8 && s[j] != 10u8,
    ensures
        form_value(s) == decode_utf8(s),
{
    lemma_clean_plain(s);
    lemma_percent_plain(s);
}

proof fn lemma_clean_plain(s: Seq<u8>)
    requires
        forall|j: int| 0 <= j < s.len() ==> s[j] != 43u8 && s[j] != 13u8 && s[j] != 10u8,
    ensures
        clean_form_bytes(s) == s,
    decreases s.len(),
{
    if s.len() > 0 {
        let t = s.drop_first();
        assert forall|j: int| 0 <= j < t.len() implies t[j] != 43u8 && t[j] != 13u8 && t[j] != 10u8 by {
            assert(t[j] == s[j + 1]);
        }
        lemma_clean_plain(t);
        assert(seq![s[0]] + t =~= s);
    }
}

proof fn lemma_percent_plain(s: Seq<u8>)
    requires
        forall|j: int| 0 <= j < s.len() ==> s[j] != 37u8,
    ensures
        percent_decode_bytes(s) == Some(s),
    decreases s.len(),
{
    if s.len() > 0 {
        let t = s.drop_first();
        assert forall|j: int| 0 <= j < t.len() implies t[j] != 37u8 by {
            assert(t[j] == s[j + 1]);
        }
        lemma_percent_plain(t);
        assert(seq![s[0]] + t =~= s);
    }
}

/// A header has a value exactly when some header was sent whose name, in
/// ASCII lower case, is the name asked for.
pub proof fn law_header_present_iff_sent(hs: Seq<(Span, Span)>, buf: Seq<u8>, lname: Seq<char>)
    ensures
        header_text(hs, buf, lname) is Some <==> exists|i: int|
            0 <= i < hs.len() && ascii_lowercase(span_text(#[trigger] hs[i].0, buf)) == lname,
    decreases hs.len(),
{
    if hs.len() > 0 {
        let d = hs.drop_last();
        law_header_present_iff_sent(d, buf, lname);
        if exists|i: int| 0 <= i < hs.len() && ascii_lowercase(span_text(#[trigger] hs[i].0, buf)) == lname {
            let i = choose|i: int| 0 <= i < hs.len() && ascii_lowercase(span_text(#[trigger] hs[i].0, buf)) == lname;
            if i < hs.len() - 1 {
                assert(d[i] == hs[i]);
            }
        } else {
            assert forall|i: int| 0 <= i < d.len() implies ascii_lowercase(span_text(#[trigger] d[i].0, buf)) != lname by {
                assert(d[i] == hs[i]);
            }
        }
    }
}

/// `set_arg(name, value)` followed by `arg`: `name` reads back `value`, and
/// every other name reads as before. `before` and `after` are the request
/// before and after the call, related as `set_arg`'s contract relates them;
/// `arg`'s contract reports exactly `args_map`.
pub proof fn law_arg_reads_back_set_arg(before: Request, after: Request, name: Seq<char>, value: Seq<char>, other: Seq<char>)
    requires
        after.args_map() == before.args_map().insert(name, value),
    ensures
        after.args_map().contains_key(name),
        after.args_map()[name] == value,
        other != name ==> (after.args_map().contains_key(other) == before.args_map().contains_key(other)
            && after.args_map()[other] == before.args_map()[other]),
{
}

/// `set_form(name, value)` followed by `form`: `name` reads back `value`,
/// and every other name reads as before.
pub proof fn law_form_reads_back_set_form(before: Request, after: Request, name: Seq<char>, value: Seq<char>, other: Seq<char>)
    requires
        after.form_map() == before.form_map().insert(name, value),
    ensures
        after.form_map().contains_key(name),
        after.form_map()[name] == value,
        other != name ==> (after.form_map().contains_key(other) == before.form_map().contains_key(other)
            && after.form_map()[other] == before.form_map()[other]),
{
}

/// Header names are case-insensitive: for an ASCII name, the name, its ASCII
/// upper case and its ASCII lower case are all ASCII and look up the same
/// header (by `header`'s contract, which looks up the ASCII lower case of an
/// ASCII name).
pub proof fn law_header_name_case_insensitive(req: Request, name: Seq<char>)
    requires
        is_ascii_chars(name),
    ensures
        is_ascii_chars(ascii_uppercase(name)),
        is_ascii_chars(ascii_lowercase(name)),
        req.header_of(ascii_lowercase(ascii_uppercase(name))) == req.header_of(ascii_lowercase(name)),
        req.header_of(ascii_lowercase(ascii_lowercase(name))) == req.header_of(ascii_lowercase(name)),
{
    lemma_ascii_lowercase_of_case_forms(name);
}

/// Two ASCII header names that agree but for ASCII case look up the same header.
pub proof fn law_header_names_equal_but_for_case(req: Request, n1: Seq<char>, n2: Seq<char>)
    requires
        is_ascii_chars(n1),
        is_ascii_chars(n2),
        ascii_lowercase(n1) == ascii_lowercase(n2),
    ensures
        req.header_of(ascii_lowercase(n1)) == req.header_of(ascii_lowercase(n2)),
{
}

/// The text of each header's name and value.
pub open spec fn header_texts_of(r: Request) -> Seq<(Seq<char>, Seq<char>)> {
    r.header_spans().map_values(|h: (Span, Span)| (span_text(h.0, r.raw()), span_text(h.1, r.raw())))
}

/// What a request shows besides its path: method, body, header texts, URL
/// arguments, form values, cookies and remote address.
pub open spec fn observed_without_path(r: Request) -> (Seq<char>, Seq<char>, Seq<(Seq<char>, Seq<char>)>,
    Map<Seq<char>, Seq<char>>, Map<Seq<char>, Seq<char>>, Seq<(Seq<char>, Seq<char>)>, crate::addr::SocketAddress) {
    (span_text(r.method_span(), r.raw()), span_text(r.body_span(), r.raw()), header_texts_of(r),
        r.args_map(), r.form_map(), r.cookie_pairs(), r.remote())
}

/// A span that is empty, reversed, or inside the buffer.
pub open spec fn span_within(span: Span, buf: Seq<u8>) -> bool {
    span.0 >= span.1 || span.1 <= buf.len()
}

/// Method, body and header spans all lie within the raw bytes.
pub open spec fn spans_within(r: Request) -> bool {
    &&& span_within(r.method_span(), r.raw())
    &&& span_within(r.body_span(), r.raw())
    &&& forall|i: int| 0 <= i < r.header_spans().len() ==> span_within(#[trigger] r.header_spans()[i].0, r.raw())
        && span_within(r.header_spans()[i].1, r.raw())
}

/// `after` is `before` with the path set to the text with bytes `p`, as
/// `set_path` and `with_path` leave it.
pub open spec fn path_set_to(before: Request, after: Request, p: Seq<u8>) -> bool {
    &&& after.path_span() == Span(before.raw().len() as usize, (before.raw().len() + p.len()) as usize)
    &&& after.raw() == before.raw() + p
    &&& after.method_span() == before.method_span()
    &&& after.body_span() == before.body_span()
    &&& after.same_extras(&before)
}

/// The header value looked up by name depends on the header texts alone.
proof fn lemma_header_values_by_texts(hs1: Seq<(Span, Span)>, b1: Seq<u8>, hs2: Seq<(Span, Span)>, b2: Seq<u8>, l: Seq<char>)
    requires
        hs1.map_values(|h: (Span, Span)| (span_text(h.0, b1), span_text(h.1, b1)))
            == hs2.map_values(|h: (Span, Span)| (span_text(h.0, b2), span_text(h.1, b2))),
    ensures
        matching_header_values(hs1, b1, l) == matching_header_values(hs2, b2, l),
    decreases hs1.len(),
{
    let t1 = hs1.map_values(|h: (Span, Span)| (span_text(h.0, b1), span_text(h.1, b1)));
    let t2 = hs2.map_values(|h: (Span, Span)| (span_text(h.0, b2), span_text(h.1, b2)));
    assert(hs1.len() == t1.len() && hs2.len() == t2.len());
    if hs1.len() > 0 {
        let d1 = hs1.drop_last();
        let d2 = hs2.drop_last();
        assert(d1.map_values(|h: (Span, Span)| (span_text(h.0, b1), span_text(h.1, b1))) =~= t1.drop_last());
        assert(d2.map_values(|h: (Span, Span)| (span_text(h.0, b2), span_text(h.1, b2))) =~= t2.drop_last());
        lemma_header_values_by_texts(d1, b1, d2, b2, l);
        assert(t1[hs1.len() - 1] == t2[hs2.len() - 1]);
    }
}

/// Setting the same path on two requests that show the same method, body,
/// headers, arguments, form values, cookies and remote address (with their
/// spans inside the raw bytes) leaves them showing the same things, with the
/// set text as the full path of both. `set_path` and `with_path` have the
/// same contract, so this holds whichever of them is used on either request.
/// It does not hold for a span that reached past the raw bytes: it showed
/// `"?"` before, and may show other text once the path's bytes are appended.
pub proof fn law_set_path_keeps_what_requests_show(r1: Request, r2: Request, s1: Request, s2: Request, p: Seq<u8>)
    requires
        valid_utf8(p),
        r1.raw().len() + p.len() <= usize::MAX,
        r2.raw().len() + p.len() <= usize::MAX,
        observed_without_path(r1) == observed_without_path(r2),
        spans_within(r1),
        spans_within(r2),
        path_set_to(r1, s1, p),
        path_set_to(r2, s2, p),
    ensures
        observed_without_path(s1) == observed_without_path(s2),
        forall|l: Seq<char>| s1.header_of(l) == s2.header_of(l),
        span_text(s1.path_span(), s1.raw()) == decode_utf8(p),
        span_text(s2.path_span(), s2.raw()) == decode_utf8(p),
        path_bytes(s1.path_span(), s1.raw()) == before_query(p),
        path_bytes(s2.path_span(), s2.raw()) == before_query(p),
{
    lemma_set_path_observed(r1, s1, p);
    lemma_set_path_observed(r2, s2, p);
    assert forall|l: Seq<char>| s1.header_of(l) == s2.header_of(l) by {
        lemma_header_values_by_texts(s1.header_spans(), s1.raw(), s2.header_spans(), s2.raw(), l);
    }
}

proof fn lemma_set_path_observed(r: Request, s: Request, p: Seq<u8>)
    requires
        valid_utf8(p),
        r.raw().len() + p.len() <= usize::MAX,
        spans_within(r),
        path_set_to(r, s, p),
    ensures
        observed_without_path(s) == observed_without_path(r),
        span_text(s.path_span(), s.raw()) == decode_utf8(p),
        path_bytes(s.path_span(), s.raw()) == before_query(p),
{
    crate::span::lemma_appended_span(r.raw(), p);
    lemma_path_bytes(s.path_span(), s.raw());
    law_append_keeps_span_text(r.method_span(), r.raw(), p);
    law_append_keeps_span_text(r.body_span(), r.raw(), p);
    assert forall|i: int| 0 <= i < r.header_spans().len() implies
        (#[trigger] header_texts_of(s)[i]) == header_texts_of(r)[i] by {
        law_append_keeps_span_text(r.header_spans()[i].0, r.raw(), p);
        law_append_keeps_span_text(r.header_spans()[i].1, r.raw(), p);
    }
    assert(header_texts_of(s) =~= header_texts_of(r));
}


/// The upper-case hexadecimal digit for `d < 16`.
pub open spec fn hex_digit_upper(d: u8) -> u8 {
    if d < 10 {
        (48 + d) as u8
    } else {
        (55 + d) as u8
    }
}

/// The lower-case hexadecimal digit for `d < 16`.
pub open spec fn hex_digit_lower(d: u8) -> u8 {
    if d < 10 {
        (48 + d) as u8
    } else {
        (87 + d) as u8
    }
}

/// The text of bytes, or the empty string when they are not UTF-8.
pub open spec fn text_or_empty(b: Seq<u8>) -> Seq<char> {
    if valid_utf8(b) {
        decode_utf8(b)
    } else {
        seq![]
    }
}

/// Plain bytes: no `%`, `+`, CR or LF.
pub open spec fn plain_form_bytes(s: Seq<u8>) -> bool {
    forall|j: int| 0 <= j < s.len() ==> s[j] != 37u8 && s[j] != 43u8 && s[j] != 13u8 && s[j] != 10u8
}

proof fn lemma_percent_after_plain(a: Seq<u8>, b: Seq<u8>)
    requires
        forall|j: int| 0 <= j < a.len() ==> a[j] != 37u8,
    ensures
        percent_decode_bytes(a + b) == match percent_decode_bytes(b) {
            Some(r) => Some(a + r),
            None => None,
        },
    decreases a.len(),
{
    if a.len() > 0 {
        let t = a.drop_first();
        assert forall|j: int| 0 <= j < t.len() implies t[j] != 37u8 by {
            assert(t[j] == a[j + 1]);
        }
        lemma_percent_after_plain(t, b);
        assert((a + b).drop_first() =~= t + b);
        assert((a + b)[0] == a[0]);
        match percent_decode_bytes(b) {
            Some(r) => assert(seq![a[0]] + (t + r) =~= a + r),
            None => {},
        }
    }
}

proof fn lemma_escape(s: Seq<u8>, h1: u8, h2: u8)
    requires
        plain_form_bytes(s),
        is_hex_digit(h1),
        is_hex_digit(h2),
    ensures
        form_value(s + seq![37u8, h1, h2]) == text_or_empty(s.push((hex_value(h1) * 16 + hex_value(h2)) as u8)),
{
    let e = seq![37u8, h1, h2];
    let all = s + e;
    assert forall|j: int| 0 <= j < all.len() implies all[j] != 43u8 && all[j] != 13u8 && all[j] != 10u8 by {
        if j < s.len() {
            assert(all[j] == s[j]);
        } else {
            assert(all[j] == e[j - s.len()]);
        }
    }
    lemma_clean_plain(all);
    lemma_percent_after_plain(s, e);
    assert(e.subrange(3, 3) =~= Seq::<u8>::empty());
    let x = (hex_value(h1) * 16 + hex_value(h2)) as u8;
    assert(e[0] == 37u8 && e[1] == h1 && e[2] == h2 && e.len() == 3);
    reveal_with_fuel(percent_decode_bytes, 2);
    assert(percent_decode_bytes(e.subrange(3, 3)) == Some(Seq::<u8>::empty()));
    assert(percent_decode_bytes(e) == Some(seq![x] + Seq::<u8>::empty()));
    assert(s + (seq![x] + Seq::<u8>::empty()) =~= s.push(x));
}

/// A percent escape decodes to exactly the byte it spells, whatever that
/// byte is (a `%2B` is a literal `+`, a `%0A` a line feed): after plain bytes
/// `s`, `%` and the two hexadecimal digits of `x`, in upper or lower case,
/// decode to the text of `s` followed by the byte `x` (empty when that is not
/// UTF-8).
pub proof fn law_percent_escape_decodes_to_its_byte(s: Seq<u8>, x: u8)
    requires
        plain_form_bytes(s),
    ensures
        form_value(s + seq![37u8, hex_digit_upper(x / 16), hex_digit_upper(x % 16)]) == text_or_empty(s.push(x)),
        form_value(s + seq![37u8, hex_digit_lower(x / 16), hex_digit_lower(x % 16)]) == text_or_empty(s.push(x)),
{
    let hi = x / 16;
    let lo = x % 16;
    assert(hi < 16 && lo < 16);
    assert(hi * 16 + lo == x);
    assert(hex_value(hex_digit_upper(hi)) == hi);
    assert(hex_value(hex_digit_upper(lo)) == lo);
    assert(hex_value(hex_digit_lower(hi)) == hi);
    assert(hex_value(hex_digit_lower(lo)) == lo);
    lemma_escape(s, hex_digit_upper(hi), hex_digit_upper(lo));
    lemma_escape(s, hex_digit_lower(hi), hex_digit_lower(lo));
}

/// A raw `+` decodes to a space.
pub proof fn law_raw_plus_is_space(s: Seq<u8>)
    requires
        plain_form_bytes(s),
    ensures
        form_value(s.push(43u8)) == text_or_empty(s.push(32u8)),
{
    lemma_clean_plain(s);
    assert(s.push(43u8).drop_first().len() == s.len());
    lemma_clean_push_plus(s);
    let sp = s.push(32u8);
    assert forall|j: int| 0 <= j < sp.len() implies sp[j] != 37u8 by {
        if j < s.len() {
            assert(sp[j] == s[j]);
        }
    }
    lemma_percent_plain(sp);
}

proof fn lemma_clean_push_plus(s: Seq<u8>)
    requires
        plain_form_bytes(s),
    ensures
        clean_form_bytes(s.push(43u8)) == s.push(32u8),
    decreases s.len(),
{
    if s.len() == 0 {
        reveal_with_fuel(clean_form_bytes, 2);
        assert(seq![43u8].drop_first() =~= Seq::<u8>::empty());
        assert(s.push(43u8) =~= seq![43u8]);
        assert(seq![32u8] + Seq::<u8>::empty() =~= s.push(32u8));
    } else {
        let t = s.drop_first();
        assert forall|j: int| 0 <= j < t.len() implies t[j] != 37u8 && t[j] != 43u8 && t[j] != 13u8 && t[j] != 10u8 by {
            assert(t[j] == s[j + 1]);
        }
        lemma_clean_push_plus(t);
        assert(s.push(43u8).drop_first() =~= t.push(43u8));
        assert(seq![s[0]] + t.push(32u8) =~= s.push(32u8));
    }
}

/// The query lookup passes over a piece that is not `name=...` and goes on
/// with the pieces after it, whatever that piece holds (an empty value
/// included).
pub proof fn law_query_skips_other_piece(p: Seq<u8>, rest: Seq<u8>, name: Seq<u8>)
    requires
        forall|j: int| 0 <= j < p.len() ==> p[j] != 38u8,
        !(p.len() > name.len() && p.subrange(0, name.len() as int) == name && p[name.len() as int] == 61u8),
    ensures
        query_value_in(p + seq![38u8] + rest, name) == query_value_in(rest, name),
{
    let all = p + seq![38u8] + rest;
    assert forall|j: int| 0 <= j < p.len() implies all[j] != 38u8 by {
        assert(all[j] == p[j]);
    }
    lemma_first_index_at(all, 38u8, p.len() as int);
    assert(all.subrange(0, p.len() as int) =~= p);
    assert(all.subrange(p.len() as int + 1, all.len() as int) =~= rest);
}

/// The piece `name=v` gives `v`, whether it ends the query or other pieces follow.
pub proof fn law_query_finds_its_piece(name: Seq<u8>, v: Seq<u8>, rest: Seq<u8>)
    requires
        forall|j: int| 0 <= j < name.len() ==> name[j] != 38u8,
        forall|j: int| 0 <= j < v.len() ==> v[j] != 38u8,
    ensures
        query_value_in(name + seq![61u8] + v, name) == Some(v),
        query_value_in(name + seq![61u8] + v + seq![38u8] + rest, name) == Some(v),
{
    let piece = name + seq![61u8] + v;
    assert forall|j: int| 0 <= j < piece.len() implies piece[j] != 38u8 by {
        if j < name.len() {
            assert(piece[j] == name[j]);
        } else if j > name.len() {
            assert(piece[j] == v[j - name.len() - 1]);
        }
    }
    lemma_first_index_none(piece, 38u8);
    assert(piece.subrange(0, name.len() as int) =~= name);
    assert(piece.subrange(name.len() as int + 1, piece.len() as int) =~= v);
    let all = piece + seq![38u8] + rest;
    assert forall|j: int| 0 <= j < piece.len() implies all[j] != 38u8 by {
        assert(all[j] == piece[j]);
    }
    lemma_first_index_at(all, 38u8, piece.len() as int);
    assert(all.subrange(0, piece.len() as int) =~= piece);
}

/// The query string is what follows the first `?` of the full path; a full
/// path without `?` has no query values.
pub proof fn law_query_string_after_question_mark(path: Seq<u8>, rest: Seq<u8>, name: Seq<u8>)
    requires
        forall|j: int| 0 <= j < path.len() ==> path[j] != 63u8,
    ensures
        query_value(path + seq![63u8] + rest, name) == query_value_in(rest, name),
        query_value(path, name) is None,
{
    let all = path + seq![63u8] + rest;
    assert forall|j: int| 0 <= j < path.len() implies all[j] != 63u8 by {
        assert(all[j] == path[j]);
    }
    lemma_first_index_at(all, 63u8, path.len() as int);
    assert(all.subrange(path.len() as int + 1, all.len() as int) =~= rest);
    lemma_first_index_none(path, 63u8);
}

proof fn lemma_no_matching_header(hs: Seq<(Span, Span)>, buf: Seq<u8>, l: Seq<char>)
    requires
        forall|j: int| 0 <= j < hs.len() ==> ascii_lowercase(span_text(#[trigger] hs[j].0, buf)) != l,
    ensures
        matching_header_values(hs, buf, l).len() == 0,
    decreases hs.len(),
{
    if hs.len() > 0 {
        let d = hs.drop_last();
        assert forall|j: int| 0 <= j < d.len() implies ascii_lowercase(span_text(#[trigger] d[j].0, buf)) != l by {
            assert(d[j] == hs[j]);
        }
        lemma_no_matching_header(d, buf, l);
    }
}

proof fn lemma_one_matching_header(hs: Seq<(Span, Span)>, buf: Seq<u8>, l: Seq<char>, i: int)
    requires
        0 <= i < hs.len(),
        ascii_lowercase(span_text(hs[i].0, buf)) == l,
        forall|j: int| 0 <= j < hs.len() && j != i ==> ascii_lowercase(span_text(#[trigger] hs[j].0, buf)) != l,
    ensures
        matching_header_values(hs, buf, l) == seq![trim_end_chars(span_text(hs[i].1, buf))],
    decreases hs.len(),
{
    let d = hs.drop_last();
    if i == hs.len() - 1 {
        assert forall|j: int| 0 <= j < d.len() implies ascii_lowercase(span_text(#[trigger] d[j].0, buf)) != l by {
            assert(d[j] == hs[j]);
        }
        lemma_no_matching_header(d, buf, l);
        assert(matching_header_values(d, buf, l) =~= Seq::<Seq<char>>::empty());
        assert(Seq::<Seq<char>>::empty().push(trim_end_chars(span_text(hs[i].1, buf)))
            =~= seq![trim_end_chars(span_text(hs[i].1, buf))]);
    } else {
        assert forall|j: int| 0 <= j < d.len() && j != i implies ascii_lowercase(span_text(#[trigger] d[j].0, buf)) != l by {
            assert(d[j] == hs[j]);
        }
        assert(d[i] == hs[i]);
        lemma_one_matching_header(d, buf, l, i);
        assert(hs.last() == hs[hs.len() - 1]);
    }
}

/// When exactly one header's name matches, the header's value is that
/// header's whole text with only its trailing white space removed, whatever
/// its length.
pub proof fn law_single_header_value_is_whole_text(hs: Seq<(Span, Span)>, buf: Seq<u8>, l: Seq<char>, i: int)
    requires
        0 <= i < hs.len(),
        ascii_lowercase(span_text(hs[i].0, buf)) == l,
        forall|j: int| 0 <= j < hs.len() && j != i ==> ascii_lowercase(span_text(#[trigger] hs[j].0, buf)) != l,
    ensures
        header_text(hs, buf, l) == Some(trim_end_chars(span_text(hs[i].1, buf))),
{
    lemma_one_matching_header(hs, buf, l, i);
}

/// Trimming the end keeps a prefix of the text and removes only white
/// space: what is removed is all white space, and what is kept is empty or
/// ends in a character that is not white space.
pub proof fn law_trim_end_removes_only_trailing_white_space(s: Seq<char>)
    ensures
        trim_end_chars(s).len() <= s.len(),
        trim_end_chars(s) == s.subrange(0, trim_end_chars(s).len() as int),
        forall|j: int| trim_end_chars(s).len() <= j < s.len() ==> is_white_space(#[trigger] s[j]),
        trim_end_chars(s).len() == 0 || !is_white_space(trim_end_chars(s).last()),
    decreases s.len(),
{
    if s.len() > 0 && is_white_space(s.last()) {
        let d = s.drop_last();
        law_trim_end_removes_only_trailing_white_space(d);
        let t = trim_end_chars(d);
        assert(d.subrange(0, t.len() as int) =~= s.subrange(0, t.len() as int));
        assert forall|j: int| t.len() <= j < s.len() implies is_white_space(#[trigger] s[j]) by {
            if j < d.len() {
                assert(s[j] == d[j]);
            }
        }
    } else {
        assert(s.subrange(0, s.len() as int) =~= s);
    }
}

/// The cookie lookup finds a cookie wherever it stands: the first pair
/// named `name`, at any position, gives its value; with no such pair there
/// is none.
pub proof fn law_cookie_found_at_any_position(cs: Seq<(Seq<char>, Seq<char>)>, name: Seq<char>, i: int)
    requires
        0 <= i < cs.len(),
        cs[i].0 == name,
        forall|j: int| 0 <= j < i ==> cs[j].0 != name,
    ensures
        first_cookie(cs, name) == Some(cs[i].1),
    decreases i,
{
    if i > 0 {
        let d = cs.drop_first();
        assert forall|j: int| 0 <= j < i - 1 implies d[j].0 != name by {
            assert(d[j] == cs[j + 1]);
        }
        law_cookie_found_at_any_position(d, name, i - 1);
    }
}

/// With no pair named `name`, the cookie lookup gives none.
pub proof fn law_cookie_absent(cs: Seq<(Seq<char>, Seq<char>)>, name: Seq<char>)
    requires
        forall|j: int| 0 <= j < cs.len() ==> cs[j].0 != name,
    ensures
        first_cookie(cs, name) is None,
    decreases cs.len(),
{
    if cs.len() > 0 {
        let d = cs.drop_first();
        assert forall|j: int| 0 <= j < d.len() implies d[j].0 != name by {
            assert(d[j] == cs[j + 1]);
        }
        law_cookie_absent(d, name);
    }
}

/// A full path with no `?` is the path, whole.
pub proof fn law_path_without_query_is_whole(p: Span, buf: Seq<u8>)
    requires
        forall|j: int| 0 <= j < span_bytes(p, buf).len() ==> span_bytes(p, buf)[j] != 63u8,
    ensures
        path_bytes(p, buf) == span_bytes(p, buf),
{
    lemma_first_index_none(span_bytes(p, buf), 63u8);
}

/// A full path with a `?` gives as path the bytes before its first `?`.
pub proof fn law_path_cut_at_first_question_mark(p: Span, buf: Seq<u8>, k: int)
    requires
        0 <= k < span_bytes(p, buf).len(),
        span_bytes(p, buf)[k] == 63u8,
        forall|j: int| 0 <= j < k ==> span_bytes(p, buf)[j] != 63u8,
    ensures
        path_bytes(p, buf) == span_bytes(p, buf).subrange(0, k),
{
    lemma_first_index_at(span_bytes(p, buf), 63u8, k);
    lemma_path_bytes(p, buf);
}

} // verus!
