//! Byte and string helpers shared by the request code.
//!
//! Strings are handled through their UTF-8 bytes: a `&str` `s` has the bytes
//! `s.spec_bytes() == encode_utf8(s@)`, and every delimiter the request code
//! splits on is an ASCII byte, which never occurs inside the encoding of a
//! non-ASCII character.

use vstd::prelude::*;
use vstd::utf8::*;
use vstd::string::*;

verus! {

broadcast use {encode_utf8_valid_utf8, encode_utf8_decode_utf8};

/// The index of the first occurrence of byte `d` in `s`, or `-1` when there is none.
pub open spec fn first_index(s: Seq<u8>, d: u8) -> int
    decreases s.len(),
{
    if s.len() == 0 {
        -1
    } else if s[0] == d {
        0
    } else {
        let r = first_index(s.drop_first(), d);
        if r == -1 {
            -1
        } else {
            r + 1
        }
    }
}

/// What `first_index` says about the bytes before and at the index it returns.
pub proof fn lemma_first_index(s: Seq<u8>, d: u8)
    ensures
        -1 <= first_index(s, d) < s.len(),
        first_index(s, d) == -1 ==> forall|j: int| 0 <= j < s.len() ==> s[j] != d,
        first_index(s, d) >= 0 ==> s[first_index(s, d)] == d && forall|j: int|
            0 <= j < first_index(s, d) ==> s[j] != d,
    decreases s.len(),
{
    if s.len() > 0 {
        lemma_first_index(s.drop_first(), d);
        if first_index(s, d) == -1 {
            assert forall|j: int| 0 <= j < s.len() implies s[j] != d by {
                if j > 0 {
                    assert(s[j] == s.drop_first()[j - 1]);
                }
            }
        }
        if first_index(s.drop_first(), d) >= 0 {
            assert forall|j: int| 0 <= j < first_index(s, d) implies s[j] != d by {
                if j > 0 {
                    assert(s[j] == s.drop_first()[j - 1]);
                }
            }
        }
    }
}

/// Finds the first index `i >= from` with `s[i] == d`, searching up to `s.len()`.
/// Returns the index relative to `from`, as `first_index` of the tail does.
pub fn find_byte(s: &[u8], from: usize, d: u8) -> (r: Option<usize>)
    requires
        from <= s@.len(),
    ensures
        match r {
            Some(i) => first_index(s@.subrange(from as int, s@.len() as int), d) == i as int,
            None => first_index(s@.subrange(from as int, s@.len() as int), d) == -1,
        },
{
    let ghost tail = s@.subrange(from as int, s@.len() as int);
    let mut i = from;
    while i < s.len()
        invariant
            from <= i <= s@.len(),
            tail == s@.subrange(from as int, s@.len() as int),
            forall|j: int| from <= j < i ==> s@[j] != d,
        decreases s@.len() - i,
    {
        if s[i] == d {
            proof {
                lemma_first_index_at(tail, d, (i - from) as int);
            }
            return Some(i - from);
        }
        i = i + 1;
    }
    proof {
        lemma_first_index_none(tail, d);
    }
    None
}

/// `first_index` is `k` when `s[k] == d` and no earlier byte is `d`.
pub proof fn lemma_first_index_at(s: Seq<u8>, d: u8, k: int)
    requires
        0 <= k < s.len(),
        s[k] == d,
        forall|j: int| 0 <= j < k ==> s[j] != d,
    ensures
        first_index(s, d) == k,
    decreases k,
{
    if k > 0 {
        lemma_first_index_at(s.drop_first(), d, k - 1);
    }
}

/// `first_index` is `-1` when no byte is `d`.
pub proof fn lemma_first_index_none(s: Seq<u8>, d: u8)
    requires
        forall|j: int| 0 <= j < s.len() ==> s[j] != d,
    ensures
        first_index(s, d) == -1,
    decreases s.len(),
{
    if s.len() > 0 {
        lemma_first_index_none(s.drop_first(), d);
    }
}

/// Whether the bytes of `b` from `pos` on begin with the bytes of `p`.
pub fn bytes_match_at(b: &[u8], pos: usize, p: &[u8]) -> (r: bool)
    requires
        pos + p@.len() <= b@.len(),
    ensures
        r == (b@.subrange(pos as int, pos + p@.len()) == p@),
{
    let blen = b.len();
    let mut j: usize = 0;
    while j < p.len()
        invariant
            blen == b@.len(),
            0 <= j <= p@.len(),
            pos + p@.len() <= b@.len(),
            forall|k: int| 0 <= k < j ==> b@[pos + k] == p@[k],
        decreases p@.len() - j,
    {
        if b[pos + j] != p[j] {
            assert(b@.subrange(pos as int, pos + p@.len())[j as int] != p@[j as int]);
            return false;
        }
        j = j + 1;
    }
    assert(b@.subrange(pos as int, pos + p@.len()) =~= p@);
    true
}

/// Splitting valid UTF-8 at an ASCII byte leaves two valid UTF-8 pieces.
pub proof fn lemma_ascii_split(b: Seq<u8>, i: int)
    requires
        valid_utf8(b),
        0 <= i < b.len(),
        b[i] < 0x80,
    ensures
        valid_utf8(b.subrange(0, i)),
        valid_utf8(b.subrange(i + 1, b.len() as int)),
        valid_utf8(b.subrange(i, b.len() as int)),
{
    is_char_boundary_iff_not_is_continuation_byte(b, i);
    valid_utf8_split(b, i);
    let s = b.subrange(i, b.len() as int);
    assert(s[0] == b[i]);
    assert(pop_first_scalar(s) =~= b.subrange(i + 1, b.len() as int));
}

/// The prefix of valid UTF-8 that ends just before an ASCII byte is valid UTF-8.
pub proof fn lemma_ascii_prefix(b: Seq<u8>, i: int)
    requires
        valid_utf8(b),
        0 <= i <= b.len(),
        i < b.len() ==> b[i] < 0x80,
    ensures
        valid_utf8(b.subrange(0, i)),
{
    if i < b.len() {
        lemma_ascii_split(b, i);
    } else {
        assert(b.subrange(0, i) =~= b);
    }
}

/// The UTF-8 encoding of a single ASCII character is that character's code.
pub proof fn lemma_encode_ascii_char(c: char)
    requires
        (c as u32) < 0x80,
    ensures
        encode_utf8(seq![c]) == seq![c as u32 as u8],
{
    let v = c as u32;
    assert((v & 0x7F) as u8 == v as u8) by (bit_vector)
        requires
            v < 0x80,
    ;
    reveal_with_fuel(encode_utf8, 2);
    assert(seq![c].drop_first() =~= Seq::<char>::empty());
    assert(encode_utf8(seq![c]) =~= seq![c as u32 as u8]);
}

/// Bytes that are all ASCII are valid UTF-8 and decode to one character each.
pub proof fn lemma_ascii_bytes_decode(b: Seq<u8>)
    requires
        forall|i: int| 0 <= i < b.len() ==> b[i] < 0x80,
    ensures
        valid_utf8(b),
        decode_utf8(b) == b.map_values(|x: u8| x as char),
    decreases b.len(),
{
    if b.len() > 0 {
        let x = b[0];
        assert((x & 0x7F) as u32 == x as u32) by (bit_vector)
            requires
                x < 0x80,
        ;
        let t = b.drop_first();
        assert(pop_first_scalar(b) =~= t);
        assert forall|i: int| 0 <= i < t.len() implies t[i] < 0x80 by {
            assert(t[i] == b[i + 1]);
        }
        lemma_ascii_bytes_decode(t);
        assert(decode_utf8(b) =~= b.map_values(|x: u8| x as char));
    }
}

/// `std::str::from_utf8`: the bytes form a string exactly when they are valid
/// UTF-8, and the string's bytes are then the given bytes.
#[verifier::external_body]
pub fn str_from_utf8(bytes: &[u8]) -> (r: Option<&str>)
    ensures
        r is Some <==> valid_utf8(bytes@),
        r matches Some(s) ==> s.spec_bytes() == bytes@,
{
    std::str::from_utf8(bytes).ok()
}

/// `String::from_utf8`: the bytes form a string exactly when they are valid
/// UTF-8, and the string's characters are then the decoded bytes.
#[verifier::external_body]
pub fn string_from_utf8(bytes: Vec<u8>) -> (r: Option<String>)
    ensures
        r is Some <==> valid_utf8(bytes@),
        r matches Some(s) ==> s@ == decode_utf8(bytes@),
{
    String::from_utf8(bytes).ok()
}

/// The characters of a string are the decoding of its bytes.
pub proof fn lemma_str_bytes(s: &str)
    ensures
        valid_utf8(s.spec_bytes()),
        decode_utf8(s.spec_bytes()) == s@,
{
}

/// Two strings are equal exactly when their characters are equal.
pub fn str_eq(a: &str, b: &str) -> (r: bool)
    ensures
        r == (a@ == b@),
{
    let x = a.as_bytes();
    let y = b.as_bytes();
    if x.len() != y.len() {
        return false;
    }
    let mut i: usize = 0;
    while i < x.len()
        invariant
            x@ == a.spec_bytes(),
            y@ == b.spec_bytes(),
            x@.len() == y@.len(),
            0 <= i <= x@.len(),
            forall|j: int| 0 <= j < i ==> x@[j] == y@[j],
        decreases x@.len() - i,
    {
        if x[i] != y[i] {
            return false;
        }
        i = i + 1;
    }
    assert(x@ =~= y@);
    proof {
        lemma_str_bytes(a);
        lemma_str_bytes(b);
    }
    true
}

/// Appends the bytes of `b` to `v`.
pub fn append_bytes(v: &mut Vec<u8>, b: &[u8])
    ensures
        final(v)@ == old(v)@ + b@,
{
    let ghost start = v@;
    let mut i: usize = 0;
    while i < b.len()
        invariant
            0 <= i <= b@.len(),
            v@ == start + b@.subrange(0, i as int),
        decreases b@.len() - i,
    {
        v.push(b[i]);
        i = i + 1;
        assert(v@ =~= start + b@.subrange(0, i as int));
    }
    assert(b@.subrange(0, i as int) =~= b@);
}

/// The ASCII lower-case form of a character: `'A'..='Z'` become
/// `'a'..='z'`, every other character is kept.
pub open spec fn ascii_lower(c: char) -> char {
    if 'A' <= c && c <= 'Z' {
        ((c as u32) + 32) as char
    } else {
        c
    }
}

/// The ASCII lower-case form of a string.
pub open spec fn ascii_lowercase(s: Seq<char>) -> Seq<char> {
    s.map_values(|c: char| ascii_lower(c))
}

/// `str::to_ascii_lowercase`: each ASCII letter is mapped to lower case,
/// every other character is kept.
#[verifier::external_body]
pub fn str_to_ascii_lowercase(s: &str) -> (r: String)
    ensures
        r@ == ascii_lowercase(s@),
{
    s.to_ascii_lowercase()
}

/// The lower-case form of a string by the Unicode rules that
/// `str::to_lowercase` follows (Unicode Derived Core Property Lowercase,
/// with the final-sigma rule).
pub uninterp spec fn unicode_lowercase(s: Seq<char>) -> Seq<char>;

/// `str::to_lowercase`: the Unicode lower-case form of the string. The
/// result is `unicode_lowercase` of the argument, and for ASCII text it is the
/// ASCII lower case (std documents `to_lowercase` as lowering ASCII characters
/// as `to_ascii_lowercase` does, and non-ASCII ones besides). What the mapping
/// does to non-ASCII text (Unicode's tables) is left unsaid.
#[verifier::external_body]
pub fn str_to_lowercase(s: &str) -> (r: String)
    ensures
        r@ == unicode_lowercase(s@),
        is_ascii_chars(s@) ==> r@ == ascii_lowercase(s@),
{
    s.to_lowercase()
}

/// The ASCII upper-case form of a character: `'a'..='z'` become
/// `'A'..='Z'`, every other character is kept.
pub open spec fn ascii_upper(c: char) -> char {
    if 'a' <= c && c <= 'z' {
        ((c as u32) - 32) as char
    } else {
        c
    }
}

/// The ASCII upper-case form of a string.
pub open spec fn ascii_uppercase(s: Seq<char>) -> Seq<char> {
    s.map_values(|c: char| ascii_upper(c))
}

/// Lowering the ASCII case of a string gives the same result whether the
/// string was first put in ASCII upper case, in ASCII lower case, or neither.
pub proof fn lemma_ascii_lowercase_of_case_forms(s: Seq<char>)
    ensures
        ascii_lowercase(ascii_uppercase(s)) == ascii_lowercase(s),
        ascii_lowercase(ascii_lowercase(s)) == ascii_lowercase(s),
        is_ascii_chars(s) ==> is_ascii_chars(ascii_uppercase(s)) && is_ascii_chars(ascii_lowercase(s)),
{
    assert forall|i: int| 0 <= i < s.len() implies
        #[trigger] ascii_lower(ascii_upper(s[i])) == ascii_lower(s[i]) && ascii_lower(ascii_lower(s[i])) == ascii_lower(s[i]) by {
        let v = s[i] as u32;
        if 'a' <= s[i] && s[i] <= 'z' {
            assert(((v - 32) as char) as u32 == v - 32);
            assert(((v - 32) as char) as u32 + 32 == v);
        }
        if 'A' <= s[i] && s[i] <= 'Z' {
            assert(((v + 32) as char) as u32 == v + 32);
        }
    }
    assert(ascii_lowercase(ascii_uppercase(s)) =~= ascii_lowercase(s));
    assert(ascii_lowercase(ascii_lowercase(s)) =~= ascii_lowercase(s));
    if is_ascii_chars(s) {
        assert forall|i: int| 0 <= i < s.len() implies '\0' <= #[trigger] ascii_uppercase(s)[i] <= '\u{7f}'
            && '\0' <= ascii_lowercase(s)[i] <= '\u{7f}' by {
            assert('\0' <= s[i] <= '\u{7f}');
        }
    }
}

/// Characters with the Unicode property White_Space, which is what
/// `char::is_whitespace` tests.
pub open spec fn is_white_space(c: char) -> bool {
    let v = c as u32;
    ||| 0x09 <= v <= 0x0D
    ||| v == 0x20
    ||| v == 0x85
    ||| v == 0xA0
    ||| v == 0x1680
    ||| 0x2000 <= v <= 0x200A
    ||| v == 0x2028
    ||| v == 0x2029
    ||| v == 0x202F
    ||| v == 0x205F
    ||| v == 0x3000
}

/// The string with trailing white space removed.
pub open spec fn trim_end_chars(s: Seq<char>) -> Seq<char>
    decreases s.len(),
{
    if s.len() > 0 && is_white_space(s.last()) {
        trim_end_chars(s.drop_last())
    } else {
        s
    }
}

/// `str::trim_end`: the string with its trailing White_Space characters removed.
#[verifier::external_body]
pub fn str_trim_end(s: &str) -> (r: &str)
    ensures
        r@ == trim_end_chars(s@),
{
    s.trim_end()
}

/// The parts joined with `sep` between each two neighbours.
pub open spec fn join(parts: Seq<Seq<char>>, sep: Seq<char>) -> Seq<char>
    decreases parts.len(),
{
    if parts.len() == 0 {
        seq![]
    } else if parts.len() == 1 {
        parts[0]
    } else {
        join(parts.drop_last(), sep) + sep + parts.last()
    }
}

} // verus!
