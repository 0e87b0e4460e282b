//! Decoding of `application/x-www-form-urlencoded` bodies: the body is split
//! at `&` into pieces, each piece at its first `=` into a name and a value,
//! and each value is percent decoded after `+` has become a space.

use vstd::prelude::*;
use vstd::utf8::*;
use vstd::string::*;
use crate::text::{first_index, find_byte, lemma_first_index, lemma_ascii_split, str_from_utf8,
    string_from_utf8};
use crate::str_map::StrMap;

verus! {

broadcast use {encode_utf8_valid_utf8, encode_utf8_decode_utf8};

/// `0-9`, `A-F` or `a-f`.
pub open spec fn is_hex_digit(b: u8) -> bool {
    (48 <= b <= 57) || (65 <= b <= 70) || (97 <= b <= 102)
}

/// The value of a hexadecimal digit.
pub open spec fn hex_value(b: u8) -> u8 {
    if b <= 57 {
        (b - 48) as u8
    } else if b <= 70 {
        (b - 55) as u8
    } else {
        (b - 87) as u8
    }
}

/// The bytes with each `+` replaced by a space and each CR and LF removed.
pub open spec fn clean_form_bytes(s: Seq<u8>) -> Seq<u8>
    decreases s.len(),
{
    if s.len() == 0 {
        seq![]
    } else {
        let rest = clean_form_bytes(s.drop_first());
        if s[0] == 13 || s[0] == 10 {
            rest
        } else if s[0] == 43 {
            seq![32u8] + rest
        } else {
            seq![s[0]] + rest
        }
    }
}

/// Percent decoding: `%` followed by two hexadecimal digits stands for the
/// byte they spell; any other `%` makes the whole decoding fail.
pub open spec fn percent_decode_bytes(s: Seq<u8>) -> Option<Seq<u8>>
    decreases s.len(),
{
    if s.len() == 0 {
        Some(seq![])
    } else if s[0] == 37 {
        if s.len() >= 3 && is_hex_digit(s[1]) && is_hex_digit(s[2]) {
            match percent_decode_bytes(s.subrange(3, s.len() as int)) {
                Some(r) => Some(seq![(hex_value(s[1]) * 16 + hex_value(s[2])) as u8] + r),
                None => None,
            }
        } else {
            None
        }
    } else {
        match percent_decode_bytes(s.drop_first()) {
            Some(r) => Some(seq![s[0]] + r),
            None => None,
        }
    }
}

/// The decoded form value of the bytes `s`: the percent decoding of `s`
/// after `+` became a space and CR and LF were dropped, as text; the empty
/// string when the decoding fails or does not give valid UTF-8.
pub open spec fn form_value(s: Seq<u8>) -> Seq<char> {
    match percent_decode_bytes(clean_form_bytes(s)) {
        Some(b) => if valid_utf8(b) {
            decode_utf8(b)
        } else {
            seq![]
        },
        None => seq![],
    }
}

/// The name and value that one `&`-separated piece of a form body gives:
/// the text before the first `=` and the decoded text after it, or the whole
/// piece and the empty string when it has no `=`.
pub open spec fn form_entry(piece: Seq<u8>) -> (Seq<char>, Seq<char>) {
    let e = first_index(piece, 61u8);
    if e == -1 {
        (decode_utf8(piece), seq![])
    } else {
        (decode_utf8(piece.subrange(0, e)), form_value(piece.subrange(e + 1, piece.len() as int)))
    }
}

/// `m` with the entries of the `&`-separated pieces of `rest` added in
/// order, a later piece overriding an earlier one with the same name.
pub open spec fn form_fold(m: Map<Seq<char>, Seq<char>>, rest: Seq<u8>) -> Map<Seq<char>, Seq<char>>
    decreases rest.len(),
{
    let i = first_index(rest, 38u8);
    if i == -1 {
        m.insert(form_entry(rest).0, form_entry(rest).1)
    } else {
        proof {
            lemma_first_index(rest, 38u8);
        }
        let p = rest.subrange(0, i);
        form_fold(m.insert(form_entry(p).0, form_entry(p).1), rest.subrange(i + 1, rest.len() as int))
    }
}

/// The form values that a body with the given bytes holds.
pub open spec fn parsed_form(body: Seq<u8>) -> Map<Seq<char>, Seq<char>> {
    form_fold(Map::empty(), body)
}

fn hex_digit_value(b: u8) -> (r: u8)
    requires
        is_hex_digit(b),
    ensures
        r == hex_value(b),
        r < 16,
{
    if b <= 57 {
        b - 48
    } else if b <= 70 {
        b - 55
    } else {
        b - 87
    }
}

fn is_hex(b: u8) -> (r: bool)
    ensures
        r == is_hex_digit(b),
{
    (48 <= b && b <= 57) || (65 <= b && b <= 70) || (97 <= b && b <= 102)
}

/// Decodes a URL-encoded form value: `+` becomes a space, CR and LF are
/// dropped, and `%XX` stands for the byte with hexadecimal value `XX`; the
/// result is empty when the value is malformed or not UTF-8.
pub fn decode_form_value(post: &str) -> (r: String)
    ensures
        r@ == form_value(post.spec_bytes()),
{
    let b = post.as_bytes();
    let mut cleaned: Vec<u8> = Vec::new();
    let mut i: usize = 0;
    assert(b@.subrange(0, b@.len() as int) =~= b@);
    while i < b.len()
        invariant
            0 <= i <= b@.len(),
            clean_form_bytes(b@) == cleaned@ + clean_form_bytes(b@.subrange(i as int, b@.len() as int)),
        decreases b@.len() - i,
    {
        let ghost before = cleaned@;
        let c = b[i];
        assert(b@.subrange(i as int, b@.len() as int).drop_first() =~= b@.subrange(i + 1, b@.len() as int));
        if c == 13 || c == 10 {
        } else if c == 43 {
            cleaned.push(32);
        } else {
            cleaned.push(c);
        }
        let ghost rest = clean_form_bytes(b@.subrange(i + 1, b@.len() as int));
        assert(before + clean_form_bytes(b@.subrange(i as int, b@.len() as int)) =~= cleaned@ + rest);
        i = i + 1;
    }
    assert(b@.subrange(i as int, b@.len() as int) =~= Seq::<u8>::empty());
    assert(cleaned@ =~= clean_form_bytes(b@));
    match percent_decode(&cleaned) {
        Some(out) => match string_from_utf8(out) {
            Some(s) => s,
            None => String::new(),
        },
        None => String::new(),
    }
}

fn percent_decode(s: &Vec<u8>) -> (r: Option<Vec<u8>>)
    ensures
        match r {
            Some(v) => percent_decode_bytes(s@) == Some(v@),
            None => percent_decode_bytes(s@) is None,
        },
{
    let mut out: Vec<u8> = Vec::new();
    let mut i: usize = 0;
    let n = s.len();
    assert(s@.subrange(0, n as int) =~= s@);
    while i < n
        invariant
            n == s@.len(),
            0 <= i <= n,
            percent_decode_bytes(s@) == match percent_decode_bytes(s@.subrange(i as int, n as int)) {
                Some(rest) => Some(out@ + rest),
                None => None,
            },
        decreases n - i,
    {
        let ghost t = s@.subrange(i as int, n as int);
        let ghost before = out@;
        if s[i] == 37 {
            if n - i >= 3 && is_hex(s[i + 1]) && is_hex(s[i + 2]) {
                let v = hex_digit_value(s[i + 1]) * 16 + hex_digit_value(s[i + 2]);
                out.push(v);
                assert(t.subrange(3, t.len() as int) =~= s@.subrange(i + 3, n as int));
                i = i + 3;
                proof {
                    match percent_decode_bytes(s@.subrange(i as int, n as int)) {
                        Some(rest) => assert(before + (seq![v] + rest) =~= out@ + rest),
                        None => {},
                    }
                }
            } else {
                return None;
            }
        } else {
            out.push(s[i]);
            assert(t.drop_first() =~= s@.subrange(i + 1, n as int));
            i = i + 1;
            proof {
                match percent_decode_bytes(s@.subrange(i as int, n as int)) {
                    Some(rest) => assert(before + (seq![t[0]] + rest) =~= out@ + rest),
                    None => {},
                }
            }
        }
    }
    assert(s@.subrange(n as int, n as int) =~= Seq::<u8>::empty());
    assert(out@ + Seq::<u8>::empty() =~= out@);
    Some(out)
}

/// Adds the entry of one form piece to `map`.
pub(crate) fn add_form_entry(map: &mut StrMap, piece: &[u8])
    requires
        valid_utf8(piece@),
    ensures
        final(map)@ == old(map)@.insert(form_entry(piece@).0, form_entry(piece@).1),
{
    let plen = piece.len();
    proof {
        lemma_first_index(piece@, 61u8);
        assert(piece@.subrange(0, piece@.len() as int) =~= piece@);
    }
    match find_byte(piece, 0, 61u8) {
        Some(e) => {
            assert(piece@.subrange(0, piece@.len() as int) == piece@);
            assert(first_index(piece@, 61u8) == e);
            assert(e < piece@.len());
            proof {
                lemma_ascii_split(piece@, e as int);
            }
            let k = vstd::slice::slice_subrange(piece, 0, e);
            let v = vstd::slice::slice_subrange(piece, e + 1, plen);
            match (str_from_utf8(k), str_from_utf8(v)) {
                (Some(ks), Some(vs)) => {
                    map.insert(ks.to_owned(), decode_form_value(vs));
                },
                _ => {},
            }
        },
        None => {
            match str_from_utf8(piece) {
                Some(ks) => {
                    let empty = String::new();
                    map.insert(ks.to_owned(), empty);
                },
                None => {},
            }
        },
    }
}

} // verus!
