//! Text and bytes: decoding field bytes into strings, the bytes of a string,
//! and ASCII text built from bytes.
use vstd::prelude::*;
use vstd::utf8::{decode_utf8, encode_utf8, valid_utf8, is_ascii_chars};

verus! {

/// The string that `String::from_utf8_lossy` makes of `b`.
pub uninterp spec fn utf8_lossy(b: Seq<u8>) -> Seq<char>;

/// Decodes `b` as UTF-8, replacing invalid sequences (`String::from_utf8_lossy`).
/// Claimed of the std function: its result is a function of `b`, valid UTF-8
/// is decoded unchanged, and invalid input gives a text holding at least one
/// U+FFFD replacement character; where the replacements fall is left unsaid.
#[verifier::external_body]
pub(crate) fn lossy_string(b: &[u8]) -> (s: String)
    ensures
        s@ == utf8_lossy(b@),
        valid_utf8(b@) ==> s@ == decode_utf8(b@),
        !valid_utf8(b@) ==> s@.contains('\u{FFFD}'),
{
    String::from_utf8_lossy(b).into_owned()
}

/// What decoding `b` with replacement gives: the decoded text when `b` is
/// valid UTF-8.
pub open spec fn decode_lossy(b: Seq<u8>) -> Seq<char> {
    if valid_utf8(b) {
        decode_utf8(b)
    } else {
        utf8_lossy(b)
    }
}

/// `b` decoded as UTF-8 with invalid sequences replaced.
pub fn to_text(b: &[u8]) -> (s: String)
    ensures
        s@ == decode_lossy(b@),
        !valid_utf8(b@) ==> s@.contains('\u{FFFD}'),
{
    lossy_string(b)
}

/// The UTF-8 encoding of a string decodes back to it.
pub proof fn lemma_decode_encoded(s: Seq<char>)
    ensures
        decode_lossy(encode_utf8(s)) == s,
{
    vstd::utf8::encode_utf8_valid_utf8(s);
    vstd::utf8::encode_utf8_decode_utf8(s);
}

/// The UTF-8 bytes of `s`.
pub fn string_bytes(s: &String) -> (b: &[u8])
    ensures
        b@ == encode_utf8(s@),
{
    s.as_str().as_bytes()
}

/// Bytes read as ASCII characters, one character per byte.
pub open spec fn ascii_chars(b: Seq<u8>) -> Seq<char> {
    Seq::new(b.len(), |i: int| b[i] as char)
}

/// Every byte is ASCII.
pub open spec fn all_ascii(b: Seq<u8>) -> bool {
    forall|i: int| 0 <= i < b.len() ==> #[trigger] b[i] < 128
}

/// ASCII bytes are their own UTF-8 encoding and decode to the characters they name.
pub proof fn lemma_ascii_utf8(b: Seq<u8>)
    requires
        all_ascii(b),
    ensures
        encode_utf8(ascii_chars(b)) == b,
        valid_utf8(b),
        decode_utf8(b) == ascii_chars(b),
        decode_lossy(b) == ascii_chars(b),
{
    let c = ascii_chars(b);
    assert(is_ascii_chars(c)) by {
        assert forall|i: int| 0 <= i < c.len() implies '\0' <= #[trigger] c[i] <= '\u{7f}' by {
            assert(b[i] < 128);
        }
    }
    vstd::utf8::is_ascii_chars_encode_utf8(c);
    assert forall|i: int| 0 <= i < b.len() implies encode_utf8(c)[i] == b[i] by {
        assert(c[i] as u8 == encode_utf8(c)[i]);
        assert(c[i] == b[i] as char);
    }
    assert(encode_utf8(c) =~= b);
    vstd::utf8::encode_utf8_valid_utf8(c);
    vstd::utf8::encode_utf8_decode_utf8(c);
}

/// The string of ASCII characters the bytes name.
pub fn ascii_text(b: &[u8]) -> (s: String)
    requires
        all_ascii(b@),
    ensures
        s@ == ascii_chars(b@),
{
    proof {
        lemma_ascii_utf8(b@);
    }
    lossy_string(b)
}

/// Byte-wise equality of two byte strings.
pub fn bytes_equal(a: &[u8], b: &[u8]) -> (r: bool)
    ensures
        r == (a@ == b@),
{
    if a.len() != b.len() {
        return false;
    }
    let mut i: usize = 0;
    while i < a.len()
        invariant
            a@.len() == b@.len(),
            i <= a@.len(),
            forall|k: int| 0 <= k < i ==> a@[k] == b@[k],
        decreases a@.len() - i,
    {
        if a[i] != b[i] {
            return false;
        }
        i = i + 1;
    }
    assert(a@ =~= b@);
    true
}

/// `a` begins with `p`.
pub fn bytes_start_with(a: &[u8], p: &[u8]) -> (r: bool)
    ensures
        r == (p@.len() <= a@.len() && a@.subrange(0, p@.len() as int) == p@),
{
    if p.len() > a.len() {
        return false;
    }
    let r = bytes_equal(&a[0..p.len()], p);
    r
}

/// `a` ends with `p`.
pub fn bytes_end_with(a: &[u8], p: &[u8]) -> (r: bool)
    ensures
        r == (p@.len() <= a@.len() && a@.subrange(a@.len() - p@.len(), a@.len() as int) == p@),
{
    if p.len() > a.len() {
        return false;
    }
    let r = bytes_equal(&a[a.len() - p.len()..a.len()], p);
    r
}

/// A copy of `b` as an owned vector.
pub fn bytes_to_vec(b: &[u8]) -> (v: Vec<u8>)
    ensures
        v@ == b@,
{
    let mut v: Vec<u8> = Vec::new();
    crate::numeric::append_bytes(&mut v, b);
    assert(v@ =~= b@);
    v
}

/// A copy of `s`.
pub fn copy_string(s: &String) -> (r: String)
    ensures
        r@ == s@,
{
    s.clone()
}

/// A copy of an optional string.
pub fn copy_opt_string(s: &Option<String>) -> (r: Option<String>)
    ensures
        opt_chars(*s) == opt_chars(r),
{
    match s {
        Some(x) => Some(x.clone()),
        None => None,
    }
}

/// The characters of an optional string.
pub open spec fn opt_chars(s: Option<String>) -> Option<Seq<char>> {
    match s {
        Some(x) => Some(x@),
        None => None,
    }
}

/// The text `b` spells when it is valid UTF-8 (`std::str::from_utf8`).
/// Claimed of the std function, as its documentation states: it succeeds
/// exactly on valid UTF-8, and the text it gives has exactly those bytes.
#[verifier::external_body]
pub(crate) fn utf8_text(b: &[u8]) -> (r: Option<String>)
    ensures
        r is Some <==> valid_utf8(b@),
        r matches Some(s) ==> s@ == decode_utf8(b@),
{
    match std::str::from_utf8(b) {
        Ok(s) => Some(s.to_string()),
        Err(_) => None,
    }
}

} // verus!
