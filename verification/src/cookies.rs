//! Cookies sent by the client, read from the `Cookie` header with
//! `basic_cookies`.

use vstd::prelude::*;
use crate::str_map::pairs_view;

verus! {

/// The (name, value) pairs, in order, that `basic_cookies::Cookie::parse`
/// finds in a `Cookie` header; none when it refuses the header.
pub uninterp spec fn parsed_cookies(header: Seq<char>) -> Option<Seq<(Seq<char>, Seq<char>)>>;

/// `basic_cookies::Cookie::parse`, with each cookie given as its name and
/// value (`get_name`, `get_value`). The result is `parsed_cookies` of the
/// header; which inputs RFC 6265's grammar accepts, and how it splits them,
/// is left unsaid.
#[verifier::external_body]
pub(crate) fn parse_cookie_header(header: &str) -> (r: Option<Vec<(String, String)>>)
    ensures
        match r {
            Some(v) => parsed_cookies(header@) == Some(pairs_view(v@)),
            None => parsed_cookies(header@) is None,
        },
{
    basic_cookies::Cookie::parse(header).ok().map(
        |cs| cs.iter().map(|c| (c.get_name().to_string(), c.get_value().to_string())).collect(),
    )
}

/// The cookies a request records for a `Cookie` header value: what the
/// parser found, or none when there is no header or the parser refused it.
pub open spec fn cookies_from_header(header: Option<Seq<char>>) -> Seq<(Seq<char>, Seq<char>)> {
    match header {
        Some(h) => match parsed_cookies(h) {
            Some(l) => l,
            None => seq![],
        },
        None => seq![],
    }
}

/// The value of the first cookie named `name`.
pub open spec fn first_cookie(cs: Seq<(Seq<char>, Seq<char>)>, name: Seq<char>) -> Option<Seq<char>>
    decreases cs.len(),
{
    if cs.len() == 0 {
        None
    } else if cs[0].0 == name {
        Some(cs[0].1)
    } else {
        first_cookie(cs.drop_first(), name)
    }
}

} // verus!
